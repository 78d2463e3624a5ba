use pgr::pg_client::client::{
    answer_auth, handle_auth, login_step, startup_message, LoginStep, PgClientConfig,
    PgClientReader,
};
use pgr::pg_client::error::PgClientError;
use pgr::pg_client::proto::{
    encode_password, encode_startup, hash_md5_password, md5_text, parse_message, salted, split_cstr,
    try_read_frame, Authentication, BackendMessage,
};
use pgr::proto::c2s::PgMsgParser;
use pgr::replay::connection::{self, ConnectStep, ReplayConnection, ReplayError};

fn frame(tag: u8, body: &[u8]) -> Vec<u8> {
    let mut f = vec![tag];
    f.extend_from_slice(&(body.len() as u32 + 4).to_be_bytes());
    f.extend_from_slice(body);
    f
}

fn auth(code: i32, rest: &[u8]) -> Vec<u8> {
    let mut b = code.to_be_bytes().to_vec();
    b.extend_from_slice(rest);
    b
}

#[test]
fn passwords_are_hashed_as_the_server_does() {
    assert_eq!(
        hash_md5_password("postgres", "secret", &[1, 2, 3, 4]),
        md5_text(&md5_of(&salted(&md5_of(b"secretpostgres"), &[1, 2, 3, 4])))
    );
    assert_eq!(md5_text(&md5_of(b"")), "md5d41d8cd98f00b204e9800998ecf8427e");
    let s = salted(&md5_of(b""), &[9, 8, 7, 6]);
    assert_eq!(&s[..32], b"d41d8cd98f00b204e9800998ecf8427e");
    assert_eq!(s[32..], [9, 8, 7, 6]);
}

fn md5_of(b: &[u8]) -> [u8; 16] {
    md5::compute(b).0
}

#[test]
fn startup_messages_are_read_back() {
    let m = startup_message("pgr", "bob", "db");
    assert_eq!(m[..8], [0, 0, 0, m.len() as u8, 0, 3, 0, 0]);
    let mut p = PgMsgParser::new();
    assert_eq!(
        p.parse(&m).unwrap().to_text(),
        "StartupMessage,196608,application_name:pgr,user:bob,database:db"
    );
    assert_eq!(encode_startup(&[]), [0, 0, 0, 9, 0, 3, 0, 0, 0]);
}

#[test]
fn password_messages_are_read_back() {
    let m = encode_password("s3cret");
    assert_eq!(m, frame(b'p', b"s3cret\0"));
    let mut p = PgMsgParser::new();
    assert_eq!(p.parse(&m).unwrap().to_text(), "PasswordMessage,\"s3cret\"");
}

#[test]
fn messages_of_the_server_are_read() {
    let is = |tag: u8, data: &[u8]| match parse_message(tag, data) {
        Ok(BackendMessage::Authentication(Authentication::Accepted)) => "accepted".to_string(),
        Ok(BackendMessage::Authentication(Authentication::Cleartext)) => "cleartext".to_string(),
        Ok(BackendMessage::Authentication(Authentication::Md5 { salt })) => format!("{salt:?}"),
        Ok(BackendMessage::Authentication(Authentication::Unsupported(n))) => format!("no {n}"),
        Ok(BackendMessage::ParameterStatus { _name, _value }) => format!("{_name}={_value}"),
        Ok(BackendMessage::BackendKeyData { _pid, _secret }) => format!("{_pid}/{_secret}"),
        Ok(BackendMessage::ReadyForQuery) => "ready".to_string(),
        Ok(BackendMessage::ErrorResponse(e)) => format!("error {e}"),
        Ok(BackendMessage::NoticeResponse) => "notice".to_string(),
        Ok(BackendMessage::Other { _tag, _frame }) => format!("{} {}", _tag as char, _frame.len()),
        Err(e) => e.to_text(),
    };
    assert_eq!(is(b'R', &auth(0, b"")), "accepted");
    assert_eq!(is(b'R', &auth(3, b"")), "cleartext");
    assert_eq!(is(b'R', &auth(5, &[1, 2, 3, 4])), "[1, 2, 3, 4]");
    assert_eq!(is(b'R', &auth(10, b"")), "no 10");
    assert_eq!(is(b'R', &auth(5, &[1])), "malformed message");
    assert_eq!(is(b'R', b""), "malformed message");
    assert_eq!(is(b'S', b"a\0b\0"), "a=b");
    assert_eq!(is(b'K', &[0, 0, 0, 7, 0, 0, 0, 9]), "7/9");
    assert_eq!(is(b'K', &[0]), "malformed message");
    assert_eq!(is(b'Z', b"I"), "ready");
    assert_eq!(is(b'N', b""), "notice");
    assert_eq!(is(b'D', b"xyz"), "D 3");
    assert_eq!(is(b'S', b"\xff\0b\0"), "\u{fffd}=b");
}

#[test]
fn errors_have_their_texts() {
    assert_eq!(PgClientError::ConnectionClosed.to_text(), "connection closed");
    assert_eq!(PgClientError::UnsupportedAuth(-3).to_text(), "unsupperted auth method: -3");
    assert_eq!(
        PgClientError::ErrorResponse(String::from("x")).to_text(),
        "server responded with error: x"
    );
    assert_eq!(PgClientError::IoError(String::from("y")).to_text(), "I/O error: y");
    assert_eq!(ReplayError::ConnectionClosed.to_text(), "connection closed");
    assert_eq!(ReplayError::UnsupportedAuth(9).to_text(), "unsupperted auth method: 9");
    assert_eq!(ReplayError::IoError(String::from("y")).to_text(), "I/O error: y");
    assert_eq!(
        ReplayError::ErrorResponse(String::from("x")).to_text(),
        "server responded with error: x"
    );
}

#[test]
fn frames_are_read_when_they_are_there() {
    let mut r = PgClientReader::new();
    let f = frame(b'Z', b"I");
    assert_eq!(try_read_frame(&f[..4]), None);
    assert_eq!(try_read_frame(&f), Some((b'Z', 6)));
    r.feed(&f[..3]);
    assert!(r.is_sound() && r.next_frame().is_none());
    r.feed(&f[3..]);
    r.feed(b"N\0\0\0\x02");
    let got = r.next_frame().unwrap();
    assert_eq!((got.tag, got.data), (b'Z', &b"I"[..]));
    assert!(!r.is_sound());
    assert_eq!(split_cstr(b"ab\0cd"), (&b"ab"[..], &b"cd"[..]));
}

#[test]
fn wishes_of_the_server_are_answered() {
    let md5 = Authentication::Md5 { salt: [1, 2, 3, 4] };
    assert!(matches!(answer_auth(&Authentication::Accepted, "u", "p"), Ok(None)));
    assert_eq!(answer_auth(&Authentication::Cleartext, "u", "p").unwrap(), Some(encode_password("p")));
    assert_eq!(
        answer_auth(&md5, "u", "p").unwrap(),
        Some(encode_password(&hash_md5_password("u", "p", &[1, 2, 3, 4])))
    );
    assert!(matches!(
        answer_auth(&Authentication::Unsupported(10), "u", "p"),
        Err(PgClientError::UnsupportedAuth(10))
    ));
    let config = PgClientConfig {
        user: String::from("u"),
        password: Some(b"\xffp".to_vec()),
        dbname: String::new(),
        application_name: String::new(),
    };
    assert_eq!(
        handle_auth(&config, &Authentication::Cleartext).unwrap().unwrap(),
        Some(encode_password("\u{fffd}p"))
    );
}

#[test]
fn logging_in_goes_step_by_step() {
    let config = PgClientConfig {
        user: "u".to_string(),
        password: Some(b"p".to_vec()),
        ..Default::default()
    };
    let step = |tag: u8, data: &[u8]| login_step(&config, parse_message(tag, data).ok().unwrap());
    assert!(matches!(step(b'R', &auth(0, b"")), LoginStep::Wait));
    assert!(matches!(step(b'R', &auth(3, b"")), LoginStep::Send(v) if v == encode_password("p")));
    assert!(matches!(step(b'R', &auth(7, b"")), LoginStep::Fail(PgClientError::UnsupportedAuth(7))));
    assert!(matches!(step(b'S', b"a\0b\0"), LoginStep::Wait));
    assert!(matches!(step(b'Z', b"I"), LoginStep::Ready));
    assert!(matches!(step(b'E', b"SERROR\0Mbad\0\0"), LoginStep::Fail(PgClientError::ErrorResponse(_))));
}

#[test]
fn a_connection_reads_messages_and_answers() {
    let config = connection::ReplayConfig {
        user: String::from("u"),
        password: Some(b"p".to_vec()),
        dbname: String::from("d"),
        application_name: String::from("a"),
    };
    let mut c = ReplayConnection::new(config);
    assert_eq!(c.startup(), startup_message("a", "u", "d"));
    assert!(c.is_parseable() && c.next_message().is_none());
    let mut bytes = frame(b'R', &auth(5, &[4, 3, 2, 1]));
    bytes.extend(frame(b'S', b"k\0v\0"));
    bytes.extend(frame(b'K', &[0, 0, 0, 1, 0, 0, 0, 2]));
    bytes.extend(frame(b'D', b"rows"));
    bytes.extend(frame(b'Z', b"I"));
    for b in bytes.iter() {
        c.feed(&[*b]);
    }
    assert_eq!(c.unread(), bytes.len());
    match c.next_message() {
        Some(connection::BackendMessage::Authentication(a)) => assert_eq!(
            c.handle_auth(&a).unwrap().unwrap(),
            Some(encode_password(&hash_md5_password("u", "p", &[4, 3, 2, 1])))
        ),
        _ => panic!("no wish"),
    }
    assert!(matches!(
        c.next_message(),
        Some(connection::BackendMessage::ParameterStatus { _name, _value }) if _name == "k" && _value == "v"
    ));
    assert!(matches!(
        c.next_message(),
        Some(connection::BackendMessage::BackendKeyData { _pid: 1, _secret: 2 })
    ));
    assert!(matches!(
        c.next_message(),
        Some(connection::BackendMessage::Other { _tag: b'D', _frame }) if &_frame[..] == b"rows"
    ));
    assert!(matches!(c.next_message(), Some(connection::BackendMessage::ReadyForQuery)));
    assert_eq!(c.unread(), 0);
    c.feed(&frame(b'K', b"x"));
    assert!(!c.is_parseable());
    assert_eq!(
        c.handle_auth(&Authentication::Cleartext).unwrap().unwrap(),
        Some(encode_password("p"))
    );
    assert!(matches!(
        c.handle_auth(&Authentication::Unsupported(6)),
        Some(Err(ReplayError::UnsupportedAuth(6)))
    ));
}

#[test]
fn connecting_goes_by_the_messages() {
    let config = connection::ReplayConfig {
        user: "joe".to_string(),
        password: Some(b"pw".to_vec()),
        dbname: "db".to_string(),
        application_name: "pgr".to_string(),
    };
    let c = ReplayConnection::new(config);
    let auth = |a| c.connect_step(connection::BackendMessage::Authentication(a));
    assert!(matches!(auth(Authentication::Accepted), ConnectStep::Wait));
    assert!(matches!(
        auth(Authentication::Cleartext),
        ConnectStep::Send(b) if b == b"p\x00\x00\x00\x07pw\x00"
    ));
    assert!(matches!(
        auth(Authentication::Unsupported(10)),
        ConnectStep::Fail(ReplayError::UnsupportedAuth(10))
    ));
    assert!(matches!(
        c.connect_step(connection::BackendMessage::NoticeResponse),
        ConnectStep::Wait
    ));
    assert!(matches!(
        c.connect_step(connection::BackendMessage::ReadyForQuery),
        ConnectStep::Ready
    ));
    assert!(matches!(
        c.connect_step(connection::BackendMessage::ErrorResponse("no".to_string())),
        ConnectStep::Fail(ReplayError::ErrorResponse(e)) if e == "no"
    ));
}
