use pgr::capture::packet::TsPacket;
use pgr::capture::tcp_handler::TcpSegment;
use pgr::compare::frame_text::display_frame;
use pgr::parser::c2s::{parse_pg_message, PgC2S};
use pgr::parser::c2s_display::TagFrame;
use pgr::parser::pq_stream::PqStream;
use pgr::proto::c2s::{PgMsg, PgMsgParser};
use pgr::utils::addr::{Addr, Ip};

fn frame(tag: u8, body: &[u8]) -> Vec<u8> {
    let mut f = vec![tag];
    f.extend_from_slice(&(body.len() as u32 + 4).to_be_bytes());
    f.extend_from_slice(body);
    f
}

fn headerless(code: u32, rest: &[u8]) -> Vec<u8> {
    let mut f = (rest.len() as u32 + 8).to_be_bytes().to_vec();
    f.extend_from_slice(&code.to_be_bytes());
    f.extend_from_slice(rest);
    f
}

fn text(f: &[u8]) -> Result<String, &'static str> {
    let mut p = PgMsgParser::new();
    p.parse(f).map(|m| m.to_text())
}

fn bind_body() -> Vec<u8> {
    let mut b = b"p\0s\0".to_vec();
    b.extend_from_slice(&1u16.to_be_bytes());
    b.extend_from_slice(&0i16.to_be_bytes());
    b.extend_from_slice(&2u16.to_be_bytes());
    b.extend_from_slice(&3i32.to_be_bytes());
    b.extend_from_slice(b"a\"b");
    b.extend_from_slice(&(-1i32).to_be_bytes());
    b.extend_from_slice(&1u16.to_be_bytes());
    b.extend_from_slice(&1i16.to_be_bytes());
    b
}

#[test]
fn prints_each_message() {
    let mut parse = b"st\0select $1\0".to_vec();
    parse.extend_from_slice(&2u16.to_be_bytes());
    parse.extend_from_slice(&23u32.to_be_bytes());
    parse.extend_from_slice(&25u32.to_be_bytes());
    let mut execute = b"p\0".to_vec();
    execute.extend_from_slice(&(-5i32).to_be_bytes());
    let mut call = 99u32.to_be_bytes().to_vec();
    call.extend_from_slice(&[0, 0, 0, 1, 0, 0, 0, 1, b'x', 0, 1]);
    let cases: Vec<(Vec<u8>, &str)> = vec![
        (frame(b'Q', b"select 1\0"), "Query,\"select 1\""),
        (frame(b'P', &parse), "Parse,\"st\",\"select $1\",[23;25]"),
        (frame(b'B', &bind_body()), "Bind,\"p\",\"s\",[0],[\"a\\\"b\";None],[1]"),
        (frame(b'D', b"Sname\0"), "Describe,S,\"name\""),
        (frame(b'C', b"P\0"), "Close,P,\"\""),
        (frame(b'E', &execute), "Execute,\"p\",-5"),
        (frame(b'F', &call), "FunctionCall,99,[],[\"x\"],1"),
        (frame(b'S', b""), "Sync"),
        (frame(b'H', b""), "Flush"),
        (frame(b'X', b""), "Terminate"),
        (frame(b'd', b"12345"), "CopyData,5"),
        (frame(b'c', b""), "CopyDone"),
        (frame(b'f', b"why\0"), "CopyFail,\"why\""),
        (frame(b'p', b"secret\0"), "PasswordMessage,\"secret\""),
        (frame(b'Z', b"\x01"), "Unknown,Z,\\x01"),
        (headerless(80877103, b""), "SSLRequest"),
        (headerless(80877104, b""), "GSSENCRequest"),
        (headerless(80877102, &[0, 0, 0, 7, 0, 0, 0, 9]), "CancelRequest,7,9"),
        (headerless(196608, b"user\0bob\0database\0db\0\0"), "StartupMessage,196608,user:bob,database:db"),
    ];
    for (f, t) in cases.iter() {
        assert_eq!(text(f).as_deref(), Ok(*t));
    }
}

#[test]
fn says_what_is_wrong_with_a_message() {
    assert_eq!(text(b"Q"), Err("Truncated frame"));
    assert_eq!(text(b"Q\0\0\0"), Err("Truncated frame"));
    assert_eq!(text(&[0, 0, 0, 8, 0]), Err("Truncated startup header"));
    assert_eq!(text(&frame(b'Q', b"select")), Err("Missing null terminator"));
    assert_eq!(text(&frame(b'Q', b"\xff\0")), Err("Invalid UTF-8 in C string"));
    assert_eq!(text(&frame(b'D', b"")), Err("Truncated Describe: missing target_type"));
    assert_eq!(text(&frame(b'C', b"")), Err("Truncated Close: missing target_type"));
    assert_eq!(text(&frame(b'E', b"p\0\0")), Err("Truncated Execute: missing max_rows"));
    assert_eq!(text(&frame(b'F', b"\0")), Err("Truncated FunctionCall: missing object id"));
    assert_eq!(text(&headerless(80877102, b"")), Err("Incomplete CancelRequest"));
    assert_eq!(text(&headerless(1234, b"")), Err("Unknown headerless protocol version"));
    let mut p = PgMsgParser::new();
    assert_eq!(display_frame(&mut p, b"Q\0\0\0"), "(Truncated frame),Q\\x00\\x00\\x00");
}

#[test]
fn both_readings_print_alike() {
    let bodies: Vec<(u8, Vec<u8>)> = vec![
        (b'Q', b"select 1\0".to_vec()),
        (b'B', bind_body()),
        (b'D', b"Sname\0".to_vec()),
        (b'S', vec![]),
        (b'f', b"x\0".to_vec()),
    ];
    for (tag, body) in bodies.iter() {
        let whole = text(&frame(*tag, body)).unwrap();
        assert_eq!(parse_pg_message(*tag, body).unwrap().to_text(), whole);
        assert_eq!(TagFrame(*tag, body).to_text(), whole);
    }
    let rest = b"user\0bob\0\0";
    let mut payload = 196608u32.to_be_bytes().to_vec();
    payload.extend_from_slice(rest);
    let whole = text(&headerless(196608, rest)).unwrap();
    assert_eq!(parse_pg_message(0, &payload).unwrap().to_text(), whole);
}

#[test]
fn lists_are_walked() {
    let body = bind_body();
    match parse_pg_message(b'B', &body) {
        Ok(PgC2S::Bind { parameters, result_format_codes, .. }) => {
            let mut it = parameters.iter();
            assert_eq!(it.next(), Some(Some(&b"a\"b"[..])));
            assert_eq!(it.next(), Some(None));
            assert_eq!(it.next(), None);
            assert_eq!(result_format_codes.iter(), vec![1]);
        }
        _ => panic!("no bind"),
    }
    let f = frame(b'B', &body);
    let mut p = PgMsgParser::new();
    let m = p.parse(&f).unwrap();
    assert_eq!(m.bind_param(0), Some(&b"a\"b"[..]));
    assert_eq!(m.bind_param(1), None);
}

#[test]
fn startup_parameters_are_found() {
    let f = headerless(196608, b"user\0bob\0pgr.client_id\x0017\0\0");
    let mut p = PgMsgParser::new();
    let m = p.parse(&f).unwrap();
    assert_eq!(m.startup_param(1), Some(("pgr.client_id", "17")));
    assert!(matches!(m, PgMsg::StartupMessage { version: 196608, .. }));
}

#[test]
fn streams_of_frames_are_walked() {
    let addr = Addr::new(Ip::V4(0x7f00_0001), 4000);
    let mut s = PqStream::new(addr);
    s.set_isn(99);
    s.set_ts(5);
    let a = frame(b'Q', b"one\0");
    let b = frame(b'S', b"");
    s.ingest(100 + a.len() as u32, &b);
    assert_eq!(s.len(), 0);
    s.ingest(100, &a);
    assert_eq!(s.len(), a.len() + b.len());
    assert!(s.is_peekable());
    let (n, f) = s.peek_frame(true).unwrap();
    assert_eq!((n, f.tag, f.ts), (a.len(), b'Q', 5));
    assert_eq!(f.addr, addr);
    s.consume(n);
    let (n, f) = s.peek_frame(true).unwrap();
    assert_eq!((n, f.tag), (b.len(), b'S'));
    s.consume(n);
    assert!(s.peek_frame(true).is_none());
}

#[test]
fn packets_open_and_fill_a_stream() {
    let addr = Addr::new(Ip::V4(0x7f00_0001), 4000);
    let mut s = PqStream::new(addr);
    let a = frame(b'Q', b"one\0");
    let packet = |ts, sequence_number, syn, payload| TsPacket {
        addr,
        ts,
        destination_port: 5432,
        tcp: TcpSegment { sequence_number, syn, payload },
    };
    s.process_packet(&packet(3, 99, true, &[]));
    s.process_packet(&packet(8, 103, false, &a[3..]));
    assert_eq!(s.len(), 0);
    s.process_packet(&packet(9, 100, false, &a[..3]));
    let (n, f) = s.peek_frame(true).unwrap();
    assert_eq!((n, f.tag, f.ts), (a.len(), b'Q', 3));
}
