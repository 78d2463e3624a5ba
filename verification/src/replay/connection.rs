//! A connection over which frames are replayed: what comes from the server is
//! held in a `BytesMut`, and frames are split off its front.
use bytes::{Buf, BufMut, BytesMut};

use vstd::prelude::*;
use vstd::string::*;
use vstd::utf8::*;

use crate::pg_client::client;
use crate::pg_client::proto;
pub use crate::pg_client::proto::Authentication;
use crate::pg_client::proto::{
    from_utf8_lossy, hash_md5_password, split_cstr, try_read_frame, BackendMessageView,
};
use crate::proto::tags;
use crate::utils::parse;
use crate::utils::text;
use crate::utils::text::{copied, push_signed};
use crate::utils::wire;

verus! {

/// `bytes::BytesMut`, of which only what it holds is known.
#[verifier::external_type_specification]
#[verifier::external_body]
pub struct ExBytesMut(bytes::BytesMut);

/// What a `BytesMut` holds.
pub uninterp spec fn contents(b: BytesMut) -> Seq<u8>;

/// `BytesMut::new`: holds nothing.
pub assume_specification[ BytesMut::new ]() -> (r: BytesMut)
    ensures
        contents(r) == Seq::<u8>::empty(),
;

/// `BytesMut::extend_from_slice`: appends the bytes. Its buffer cannot grow
/// beyond the largest allocation.
pub assume_specification[ BytesMut::extend_from_slice ](b: &mut BytesMut, extend: &[u8])
    requires
        contents(*old(b)).len() + extend@.len() <= isize::MAX,
    ensures
        contents(*final(b)) == contents(*old(b)) + extend@,
;

/// `BytesMut::split_to`: the first `at` bytes come back, and the others stay. It
/// panics where there are fewer.
pub assume_specification[ BytesMut::split_to ](b: &mut BytesMut, at: usize) -> (r: BytesMut)
    requires
        at <= contents(*old(b)).len(),
    ensures
        contents(r) == contents(*old(b)).take(at as int),
        contents(*final(b)) == contents(*old(b)).skip(at as int),
;

/// `BytesMut` as a slice (`AsRef`): the bytes that it holds.
#[verifier::external_body]
fn as_slice(b: &BytesMut) -> (r: &[u8])
    ensures
        r@ == contents(*b),
{
    b.as_ref()
}

/// `Buf::advance`: lets go of the first `n` bytes. It panics where there are
/// fewer.
#[verifier::external_body]
fn advance(b: &mut BytesMut, n: usize)
    requires
        n <= contents(*old(b)).len(),
    ensures
        contents(*final(b)) == contents(*old(b)).skip(n as int),
{
    b.advance(n)
}

/// `Buf::get_i32`: takes four bytes as a signed number, most significant byte
/// first. It panics where there are fewer.
#[verifier::external_body]
fn get_i32(b: &mut BytesMut) -> (r: i32)
    requires
        contents(*old(b)).len() >= 4,
    ensures
        r == parse::signed32(parse::be32(contents(*old(b)))),
        contents(*final(b)) == contents(*old(b)).skip(4),
{
    b.get_i32()
}

/// `Buf::copy_to_slice` into four bytes: takes the first four bytes. It panics
/// where there are fewer.
#[verifier::external_body]
fn take_four(b: &mut BytesMut) -> (r: [u8; 4])
    requires
        contents(*old(b)).len() >= 4,
    ensures
        r@ == contents(*old(b)).take(4),
        contents(*final(b)) == contents(*old(b)).skip(4),
{
    let mut dst = [0u8; 4];
    b.copy_to_slice(&mut dst);
    dst
}

/// `BufMut::put_u8`: appends one byte.
#[verifier::external_body]
fn put_u8(b: &mut BytesMut, n: u8)
    requires
        contents(*old(b)).len() + 1 <= isize::MAX,
    ensures
        contents(*final(b)) == contents(*old(b)).push(n),
{
    b.put_u8(n)
}

/// `BufMut::put_i32`: appends a number in four bytes, most significant byte first;
/// said here of numbers that are not negative.
#[verifier::external_body]
fn put_i32(b: &mut BytesMut, n: i32)
    requires
        0 <= n,
        contents(*old(b)).len() + 4 <= isize::MAX,
    ensures
        contents(*final(b)) == contents(*old(b)) + wire::be32_bytes(n as u32),
{
    b.put_i32(n)
}

/// `BufMut::put_slice`: appends the bytes.
#[verifier::external_body]
fn put_slice(b: &mut BytesMut, bytes: &[u8])
    requires
        contents(*old(b)).len() + bytes@.len() <= isize::MAX,
    ensures
        contents(*final(b)) == contents(*old(b)) + bytes@,
{
    b.put_slice(bytes)
}

/// The bytes of a `BytesMut` in a vector of their own (`to_vec` of its slice).
#[verifier::external_body]
fn to_vec(b: &BytesMut) -> (r: Vec<u8>)
    ensures
        r@ == contents(*b),
{
    b.to_vec()
}

/// Who logs in, and to what.
pub struct ReplayConfig {
    pub user: String,
    pub password: Option<Vec<u8>>,
    pub dbname: String,
    pub application_name: String,
}

impl Default for ReplayConfig {
    fn default() -> (r: Self)
        ensures
            r.user@.len() == 0,
            r.password is None,
            r.dbname@.len() == 0,
            r.application_name@.len() == 0,
    {
        ReplayConfig {
            user: String::new(),
            password: None,
            dbname: String::new(),
            application_name: String::new(),
        }
    }
}

/// Why a connection is given up. An error of the operating system is kept as
/// text.
#[derive(Debug)]
pub enum ReplayError {
    ConnectionClosed,
    UnsupportedAuth(i32),
    ErrorResponse(String),
    IoError(String),
}

/// The text of an error.
pub open spec fn error_text(e: ReplayError) -> Seq<char> {
    match e {
        ReplayError::ConnectionClosed => "connection closed"@,
        ReplayError::UnsupportedAuth(code) => "unsupperted auth method: "@ + text::signed_decimal(
            code as int,
        ),
        ReplayError::ErrorResponse(s) => "server responded with error: "@ + s@,
        ReplayError::IoError(err) => "I/O error: "@ + err@,
    }
}

impl ReplayError {
    /// The error as text.
    pub fn to_text(&self) -> (r: String)
        ensures
            r@ == error_text(*self),
    {
        let mut w = String::new();
        match self {
            ReplayError::ConnectionClosed => w.append("connection closed"),
            ReplayError::UnsupportedAuth(code) => {
                w.append("unsupperted auth method: ");
                push_signed(&mut w, *code as i64);
            },
            ReplayError::ErrorResponse(s) => {
                w.append("server responded with error: ");
                w.append(s.as_str());
            },
            ReplayError::IoError(err) => {
                w.append("I/O error: ");
                w.append(err.as_str());
            },
        }
        assert(w@ =~= error_text(*self));
        w
    }
}

/// A message of the server that owns its bytes.
pub enum BackendMessage {
    Authentication(Authentication),
    ParameterStatus { _name: String, _value: String },
    BackendKeyData { _pid: i32, _secret: i32 },
    ReadyForQuery,
    ErrorResponse(String),
    NoticeResponse,
    Other { _tag: u8, _frame: BytesMut },
}

impl View for BackendMessage {
    type V = BackendMessageView;

    open spec fn view(&self) -> BackendMessageView {
        match *self {
            BackendMessage::Authentication(Authentication::Accepted) => {
                BackendMessageView::AuthenticationOk
            },
            BackendMessage::Authentication(Authentication::Cleartext) => {
                BackendMessageView::AuthenticationCleartext
            },
            BackendMessage::Authentication(Authentication::Md5 { salt }) => {
                BackendMessageView::AuthenticationMd5(salt@)
            },
            BackendMessage::Authentication(Authentication::Unsupported(code)) => {
                BackendMessageView::AuthenticationUnsupported(code)
            },
            BackendMessage::ParameterStatus { _name, _value } => {
                BackendMessageView::ParameterStatus { name: _name@, value: _value@ }
            },
            BackendMessage::BackendKeyData { _pid, _secret } => {
                BackendMessageView::BackendKeyData { pid: _pid, secret: _secret }
            },
            BackendMessage::ReadyForQuery => BackendMessageView::ReadyForQuery,
            BackendMessage::ErrorResponse(e) => BackendMessageView::ErrorResponse(e@),
            BackendMessage::NoticeResponse => BackendMessageView::NoticeResponse,
            BackendMessage::Other { _tag, _frame } => BackendMessageView::Other {
                tag: _tag,
                frame: contents(_frame),
            },
        }
    }
}

/// Takes the string off the front of a frame.
fn read_cstr(buf: &mut BytesMut) -> (r: String)
    ensures
        r@ == proto::lossy_text(contents(*old(buf)).take(proto::string_end(contents(*old(buf))))),
        contents(*final(buf)) == proto::after_string(contents(*old(buf))),
{
    let ghost before = contents(*buf);
    proof {
        before.index_of_first_ensures(0u8);
    }
    let whole = as_slice(buf);
    let len: usize = whole.len();
    let (text, _) = split_cstr(whole);
    let pos: usize = text.len();
    assert(pos == proto::string_end(before));
    let s = from_utf8_lossy(text);
    if pos < len {
        advance(buf, pos + 1);
    } else {
        advance(buf, pos);
        assert(before.skip(pos as int) =~= Seq::<u8>::empty());
    }
    s
}

/// Whether a message that the bytes start with is long enough for what it says.
pub open spec fn parseable(b: Seq<u8>) -> bool {
    proto::first_frame(b) matches Some((tag, len)) ==> len >= 5 && proto::backend_message(
        tag,
        b.subrange(5, len),
    ) is Some
}

/// Reads how the server wants the client to log in.
fn take_authentication(frame: &mut BytesMut) -> (r: Authentication)
    requires
        proto::authentication(contents(*old(frame))) is Some,
    ensures
        Some(BackendMessage::Authentication(r)@) == proto::authentication(contents(*old(frame))),
{
    let ghost before = contents(*frame);
    let code: i32 = get_i32(frame);
    if code == 0 {
        Authentication::Accepted
    } else if code == 3 {
        Authentication::Cleartext
    } else if code == 5 {
        let salt = take_four(frame);
        assert(salt@ =~= before.subrange(4, 8));
        Authentication::Md5 { salt }
    } else {
        Authentication::Unsupported(code)
    }
}

/// Takes the first message off the front of the bytes, if all of it came.
pub fn try_parse(src: &mut BytesMut) -> (r: Option<BackendMessage>)
    requires
        parseable(contents(*old(src))),
    ensures
        match proto::first_frame(contents(*old(src))) {
            Some((tag, len)) => r matches Some(m) && Some(m@) == proto::backend_message(
                tag,
                contents(*old(src)).subrange(5, len),
            ) && contents(*final(src)) == contents(*old(src)).skip(len),
            None => r is None && contents(*final(src)) == contents(*old(src)),
        },
{
    let ghost before = contents(*src);
    let (msg_type, len) = match try_read_frame(as_slice(src)) {
        Some(found) => found,
        None => return None,
    };
    let mut frame = src.split_to(len);
    advance(&mut frame, 5);
    assert(contents(frame) =~= before.subrange(5, len as int));
    let msg = if msg_type == tags::B_AUTH_REQUEST {
        BackendMessage::Authentication(take_authentication(&mut frame))
    } else if msg_type == tags::B_PARAMETER_STATUS {
        let name = read_cstr(&mut frame);
        let value = read_cstr(&mut frame);
        BackendMessage::ParameterStatus { _name: name, _value: value }
    } else if msg_type == tags::B_BACKEND_KEY_DATA {
        let pid: i32 = get_i32(&mut frame);
        let secret: i32 = get_i32(&mut frame);
        BackendMessage::BackendKeyData { _pid: pid, _secret: secret }
    } else if msg_type == tags::B_READY_FOR_QUERY {
        BackendMessage::ReadyForQuery
    } else if msg_type == tags::B_ERROR {
        BackendMessage::ErrorResponse(read_cstr(&mut frame))
    } else if msg_type == tags::B_NOTICE {
        BackendMessage::NoticeResponse
    } else {
        BackendMessage::Other { _tag: msg_type, _frame: frame }
    };
    Some(msg)
}

/// Appends a text and a zero byte.
fn put_cstr(b: &mut BytesMut, s: &str)
    requires
        contents(*old(b)).len() + proto::cstr_bytes(s@).len() <= isize::MAX,
    ensures
        contents(*final(b)) == contents(*old(b)) + proto::cstr_bytes(s@),
{
    let ghost before = contents(*b);
    put_slice(b, s.as_bytes());
    put_u8(b, 0);
    assert(contents(*b) =~= before + proto::cstr_bytes(s@));
}

/// Encodes a startup message.
fn encode_startup(params: &[(String, String)]) -> (r: Vec<u8>)
    requires
        4 + proto::startup_body(proto::param_views(params@)).len() <= i32::MAX,
    ensures
        r@ == proto::startup_bytes(proto::param_views(params@)),
{
    let ghost views = proto::param_views(params@);
    let ghost head = wire::be32_bytes(tags::F_PROTO_VERSION);
    let mut body = BytesMut::new();
    put_i32(&mut body, tags::F_PROTO_VERSION as i32);
    let mut i: usize = 0;
    assert(views.take(0) =~= Seq::empty());
    assert(contents(body) =~= head + proto::param_bytes(views.take(0)));
    while i < params.len()
        invariant
            i <= params@.len(),
            views == proto::param_views(params@),
            head == wire::be32_bytes(tags::F_PROTO_VERSION),
            contents(body) == head + proto::param_bytes(views.take(i as int)),
            4 + proto::startup_body(views).len() <= i32::MAX,
        decreases params@.len() - i,
    {
        let ghost before = proto::param_bytes(views.take(i as int));
        proof {
            assert(views.take(i + 1).drop_last() =~= views.take(i as int));
            lemma_param_bytes_grow(views, i + 1);
        }
        put_cstr(&mut body, params[i].0.as_str());
        put_cstr(&mut body, params[i].1.as_str());
        assert(contents(body) =~= head + (before + proto::cstr_bytes(views[i as int].0)
            + proto::cstr_bytes(views[i as int].1)));
        i += 1;
    }
    assert(views.take(i as int) =~= views);
    put_u8(&mut body, 0);
    assert(contents(body) =~= proto::startup_body(views));
    let mut out = BytesMut::new();
    put_i32(&mut out, (4 + as_slice(&body).len()) as i32);
    put_slice(&mut out, as_slice(&body));
    assert(contents(out) =~= proto::startup_bytes(views));
    to_vec(&out)
}

/// The first parameters take no more bytes than all of them.
proof fn lemma_param_bytes_grow(params: Seq<(Seq<char>, Seq<char>)>, n: int)
    requires
        0 <= n <= params.len(),
    ensures
        proto::param_bytes(params.take(n)).len() <= proto::param_bytes(params).len(),
    decreases params.len(),
{
    if n < params.len() {
        lemma_param_bytes_grow(params.drop_last(), n);
        assert(params.drop_last().take(n) =~= params.take(n));
    } else {
        assert(params.take(n) =~= params);
    }
}

/// Whether a password fits in a message, and the message in memory.
pub open spec fn sendable(pass: Seq<char>) -> bool {
    client::fits(pass) && encode_utf8(pass).len() + 6 <= isize::MAX
}

/// Encodes a message with a password.
fn encode_password(pass: &str) -> (r: Vec<u8>)
    requires
        sendable(pass@),
    ensures
        r@ == proto::password_bytes(pass@),
{
    let mut out = BytesMut::new();
    put_u8(&mut out, tags::F_PASSWORD_MESSAGE);
    put_i32(&mut out, (4 + pass.as_bytes().len() + 1) as i32);
    put_cstr(&mut out, pass);
    assert(contents(out) =~= proto::password_bytes(pass@));
    to_vec(&out)
}

/// What to do after a message of the server, while connecting.
pub enum ConnectStep {
    /// Send these bytes.
    Send(Vec<u8>),
    /// Wait for the next message.
    Wait,
    /// The connection can be used.
    Ready,
    /// Give up.
    Fail(ReplayError),
    /// The password is so long that it cannot be sent.
    LongPassword,
}

/// A connection: who logs in, and what came from the server and was not read yet.
pub struct ReplayConnection {
    pub read_buf: BytesMut,
    pub config: ReplayConfig,
}

impl ReplayConnection {
    /// A connection over which nothing came yet.
    pub fn new(config: ReplayConfig) -> (r: Self)
        ensures
            contents(r.read_buf) == Seq::<u8>::empty(),
            r.config == config,
    {
        ReplayConnection { read_buf: BytesMut::new(), config }
    }

    /// Takes in bytes from the server.
    pub fn feed(&mut self, chunk: &[u8])
        requires
            contents(old(self).read_buf).len() + chunk@.len() <= isize::MAX,
        ensures
            contents(final(self).read_buf) == contents(old(self).read_buf) + chunk@,
            final(self).config == old(self).config,
    {
        self.read_buf.extend_from_slice(chunk);
    }

    /// How many bytes came and were not read yet.
    pub fn unread(&self) -> (r: usize)
        ensures
            r == contents(self.read_buf).len(),
    {
        as_slice(&self.read_buf).len()
    }

    /// Whether the next message is long enough for what it says.
    pub fn is_parseable(&self) -> (r: bool)
        ensures
            r == parseable(contents(self.read_buf)),
    {
        let b = as_slice(&self.read_buf);
        match try_read_frame(b) {
            Some((tag, len)) => {
                if len < 5 {
                    return false;
                }
                let data = &b[5..len];
                if tag == tags::B_AUTH_REQUEST {
                    data.len() >= 8 || data.len() >= 4 && parse::read_i32(data) != 5
                } else {
                    tag != tags::B_BACKEND_KEY_DATA || data.len() >= 8
                }
            },
            None => true,
        }
    }

    /// The next message, if all of it came.
    pub fn next_message(&mut self) -> (r: Option<BackendMessage>)
        requires
            parseable(contents(old(self).read_buf)),
        ensures
            final(self).config == old(self).config,
            match proto::first_frame(contents(old(self).read_buf)) {
                Some((tag, len)) => r matches Some(m) && Some(m@) == proto::backend_message(
                    tag,
                    contents(old(self).read_buf).subrange(5, len),
                ) && contents(final(self).read_buf) == contents(old(self).read_buf).skip(len),
                None => r is None && contents(final(self).read_buf) == contents(
                    old(self).read_buf,
                ),
            },
    {
        try_parse(&mut self.read_buf)
    }

    /// The startup message.
    pub fn startup(&self) -> (r: Vec<u8>)
        requires
            4 + proto::startup_body(
                client::startup_params(
                    self.config.application_name@,
                    self.config.user@,
                    self.config.dbname@,
                ),
            ).len() <= i32::MAX,
        ensures
            r@ == proto::startup_bytes(
                client::startup_params(
                    self.config.application_name@,
                    self.config.user@,
                    self.config.dbname@,
                ),
            ),
    {
        let mut params: Vec<(String, String)> = Vec::new();
        params.push((copied("application_name"), copied(self.config.application_name.as_str())));
        params.push((copied("user"), copied(self.config.user.as_str())));
        params.push((copied("database"), copied(self.config.dbname.as_str())));
        assert(proto::param_views(params@) =~= client::startup_params(
            self.config.application_name@,
            self.config.user@,
            self.config.dbname@,
        ));
        encode_startup(params.as_slice())
    }

    /// Answers how the server wants the client to log in: a message, nothing, or an
    /// error. There is no answer where the password is so long that it cannot be
    /// sent.
    pub fn handle_auth(&self, auth: &Authentication) -> (r: Option<
        Result<Option<Vec<u8>>, ReplayError>,
    >)
        ensures
            r is None <==> auth is Cleartext && !sendable(
                client::password_text(self.config.password),
            ),
            r matches Some(answer) ==> match client::auth_answer(
                *auth,
                self.config.user@,
                client::password_text(self.config.password),
            ) {
                Ok(None) => answer matches Ok(None),
                Ok(Some(bytes)) => answer matches Ok(Some(v)) && v@ == bytes,
                Err(code) => answer matches Err(ReplayError::UnsupportedAuth(c)) && c == code,
            },
    {
        let pass = match &self.config.password {
            Some(bytes) => from_utf8_lossy(bytes.as_slice()),
            None => String::new(),
        };
        assert(pass@ =~= client::password_text(self.config.password));
        match auth {
            Authentication::Accepted => Some(Ok(None)),
            Authentication::Cleartext => {
                let len: usize = pass.as_str().as_bytes().len();
                if len > i32::MAX as usize - 5 || len > isize::MAX as usize - 6 {
                    return None;
                }
                Some(Ok(Some(encode_password(pass.as_str()))))
            },
            Authentication::Md5 { salt } => {
                let hashed = hash_md5_password(self.config.user.as_str(), pass.as_str(), salt);
                proof {
                    is_ascii_chars_encode_utf8(hashed@);
                }
                Some(Ok(Some(encode_password(hashed.as_str()))))
            },
            Authentication::Unsupported(code) => Some(Err(ReplayError::UnsupportedAuth(*code))),
        }
    }

    /// Decides what to do after a message of the server, while connecting.
    pub fn connect_step(&self, msg: BackendMessage) -> (r: ConnectStep)
        ensures
            match msg {
                BackendMessage::Authentication(auth) => {
                    let pass = client::password_text(self.config.password);
                    if auth is Cleartext && !sendable(pass) {
                        r is LongPassword
                    } else {
                        match client::auth_answer(auth, self.config.user@, pass) {
                            Ok(None) => r is Wait,
                            Ok(Some(bytes)) => r matches ConnectStep::Send(v) && v@ == bytes,
                            Err(code) => r matches ConnectStep::Fail(
                                ReplayError::UnsupportedAuth(c),
                            ) && c == code,
                        }
                    }
                },
                BackendMessage::ReadyForQuery => r is Ready,
                BackendMessage::ErrorResponse(e) => r matches ConnectStep::Fail(
                    ReplayError::ErrorResponse(e2),
                ) && e2@ == e@,
                _ => r is Wait,
            },
    {
        match msg {
            BackendMessage::Authentication(auth) => match self.handle_auth(&auth) {
                Some(Ok(Some(bytes))) => ConnectStep::Send(bytes),
                Some(Ok(None)) => ConnectStep::Wait,
                Some(Err(e)) => ConnectStep::Fail(e),
                None => ConnectStep::LongPassword,
            },
            BackendMessage::ReadyForQuery => ConnectStep::Ready,
            BackendMessage::ErrorResponse(e) => ConnectStep::Fail(ReplayError::ErrorResponse(e)),
            _ => ConnectStep::Wait,
        }
    }
}

} // verus!
