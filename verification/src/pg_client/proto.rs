//! The messages of a server, and the messages with which a client logs in.
use vstd::prelude::*;
use vstd::string::*;
use vstd::utf8::*;

use crate::pg_client::error::PgClientError;
use crate::proto::tags;
use crate::utils::parse;
use crate::utils::parse::{bytes_at, bytes_from, find_zero, read_i32, read_u32};
use crate::utils::text;
use crate::utils::text::digit;
use crate::utils::wire;
use crate::utils::wire::{push_be32, push_bytes};

verus! {

/// A frame of the server: its type byte and its payload.
pub struct BackendFrame<'a> {
    pub tag: u8,
    pub data: &'a [u8],
}

/// How the server wants the client to log in.
#[derive(Debug, Clone, Copy)]
pub enum Authentication {
    Accepted,
    Cleartext,
    Md5 { salt: [u8; 4] },
    Unsupported(i32),
}

/// A message of the server.
pub enum BackendMessage<'a> {
    Authentication(Authentication),
    ParameterStatus { _name: String, _value: String },
    BackendKeyData { _pid: i32, _secret: i32 },
    ReadyForQuery,
    ErrorResponse(String),
    NoticeResponse,
    Other { _tag: u8, _frame: &'a [u8] },
}

/// What a message of the server says.
#[verifier::ext_equal]
pub enum BackendMessageView {
    AuthenticationOk,
    AuthenticationCleartext,
    AuthenticationMd5(Seq<u8>),
    AuthenticationUnsupported(i32),
    ParameterStatus { name: Seq<char>, value: Seq<char> },
    BackendKeyData { pid: i32, secret: i32 },
    ReadyForQuery,
    ErrorResponse(Seq<char>),
    NoticeResponse,
    Other { tag: u8, frame: Seq<u8> },
}

impl<'a> View for BackendMessage<'a> {
    type V = BackendMessageView;

    open spec fn view(&self) -> BackendMessageView {
        match *self {
            BackendMessage::Authentication(Authentication::Accepted) => {
                BackendMessageView::AuthenticationOk
            },
            BackendMessage::Authentication(Authentication::Cleartext) => {
                BackendMessageView::AuthenticationCleartext
            },
            BackendMessage::Authentication(Authentication::Md5 { salt }) => {
                BackendMessageView::AuthenticationMd5(salt@)
            },
            BackendMessage::Authentication(Authentication::Unsupported(code)) => {
                BackendMessageView::AuthenticationUnsupported(code)
            },
            BackendMessage::ParameterStatus { _name, _value } => {
                BackendMessageView::ParameterStatus { name: _name@, value: _value@ }
            },
            BackendMessage::BackendKeyData { _pid, _secret } => {
                BackendMessageView::BackendKeyData { pid: _pid, secret: _secret }
            },
            BackendMessage::ReadyForQuery => BackendMessageView::ReadyForQuery,
            BackendMessage::ErrorResponse(e) => BackendMessageView::ErrorResponse(e@),
            BackendMessage::NoticeResponse => BackendMessageView::NoticeResponse,
            BackendMessage::Other { _tag, _frame } => {
                BackendMessageView::Other { tag: _tag, frame: _frame@ }
            },
        }
    }
}

/// The frame that the bytes start with, if all of it is there: its type byte and
/// its length, the type byte counted.
pub open spec fn first_frame(b: Seq<u8>) -> Option<(u8, int)> {
    let len = 1 + parse::be32(b.skip(1));
    if b.len() < 5 || b.len() < len {
        None
    } else {
        Some((b[0], len))
    }
}

/// Looks for a whole frame at the start of the bytes.
pub fn try_read_frame(buf: &[u8]) -> (r: Option<(u8, usize)>)
    ensures
        match first_frame(buf@) {
            Some((tag, len)) => r matches Some((tag2, len2)) && tag2 == tag && len2 == len,
            None => r is None,
        },
{
    if buf.len() < 5 {
        return None;
    }
    let len: u32 = read_u32(bytes_from(buf, 1));
    if ((buf.len() - 1) as u64) < len as u64 {
        return None;
    }
    Some((buf[0], 1 + len as usize))
}

/// What `String::from_utf8_lossy` makes of bytes.
pub uninterp spec fn lossy_text(bytes: Seq<u8>) -> Seq<char>;

/// `String::from_utf8_lossy`: text for any bytes, which is the text that they
/// encode where they are UTF-8. What stands in place of other bytes is not said
/// here beyond its being determined by the bytes.
#[verifier::external_body]
pub(crate) fn from_utf8_lossy(bytes: &[u8]) -> (r: String)
    ensures
        r@ == lossy_text(bytes@),
        valid_utf8(bytes@) ==> r@ == decode_utf8(bytes@),
{
    String::from_utf8_lossy(bytes).into_owned()
}

/// Where the zero byte stands that ends a string, or the end of the bytes.
pub open spec fn string_end(b: Seq<u8>) -> int {
    match b.index_of_first(0u8) {
        Some(n) => n,
        None => b.len() as int,
    }
}

/// What follows the string that the bytes start with.
pub open spec fn after_string(b: Seq<u8>) -> Seq<u8> {
    if string_end(b) < b.len() {
        b.skip(string_end(b) + 1)
    } else {
        Seq::empty()
    }
}

/// The bytes of the string that the bytes start with, and what follows it.
pub fn split_cstr(buf: &[u8]) -> (r: (&[u8], &[u8]))
    ensures
        r.0@ == buf@.take(string_end(buf@)),
        r.1@ == after_string(buf@),
{
    proof {
        buf@.index_of_first_ensures(0u8);
    }
    match find_zero(buf) {
        Some(n) => {
            let s = bytes_at(buf, 0, n);
            assert(s@ =~= buf@.take(n as int));
            (s, bytes_from(buf, n + 1))
        },
        None => {
            assert(buf@.take(buf@.len() as int) =~= buf@);
            let rest = bytes_from(buf, buf.len());
            assert(rest@ =~= Seq::empty());
            (buf, rest)
        },
    }
}

/// The string that the bytes start with, and what follows it.
fn read_cstr(buf: &[u8]) -> (r: (String, &[u8]))
    ensures
        r.0@ == lossy_text(buf@.take(string_end(buf@))),
        r.1@ == after_string(buf@),
{
    let (s, rest) = split_cstr(buf);
    (from_utf8_lossy(s), rest)
}

/// How the server wants the client to log in, read from the payload; nothing
/// where the payload is too short.
pub open spec fn authentication(data: Seq<u8>) -> Option<BackendMessageView> {
    let code = parse::signed32(parse::be32(data));
    if data.len() < 4 {
        None
    } else if code == 0 {
        Some(BackendMessageView::AuthenticationOk)
    } else if code == 3 {
        Some(BackendMessageView::AuthenticationCleartext)
    } else if code == 5 {
        if data.len() < 8 {
            None
        } else {
            Some(BackendMessageView::AuthenticationMd5(data.subrange(4, 8)))
        }
    } else {
        Some(BackendMessageView::AuthenticationUnsupported(code as i32))
    }
}

/// A message of the server: its type byte and its payload; nothing where the
/// payload is too short. The texts in it are what `String::from_utf8_lossy`
/// gives.
pub open spec fn backend_message(tag: u8, data: Seq<u8>) -> Option<BackendMessageView> {
    if tag == tags::B_AUTH_REQUEST {
        authentication(data)
    } else if tag == tags::B_PARAMETER_STATUS {
        let rest = after_string(data);
        Some(
            BackendMessageView::ParameterStatus {
                name: lossy_text(data.take(string_end(data))),
                value: lossy_text(rest.take(string_end(rest))),
            },
        )
    } else if tag == tags::B_BACKEND_KEY_DATA {
        if data.len() < 8 {
            None
        } else {
            Some(
                BackendMessageView::BackendKeyData {
                    pid: parse::signed32(parse::be32(data)) as i32,
                    secret: parse::signed32(parse::be32(data.skip(4))) as i32,
                },
            )
        }
    } else if tag == tags::B_READY_FOR_QUERY {
        Some(BackendMessageView::ReadyForQuery)
    } else if tag == tags::B_ERROR {
        Some(BackendMessageView::ErrorResponse(lossy_text(data.take(string_end(data)))))
    } else if tag == tags::B_NOTICE {
        Some(BackendMessageView::NoticeResponse)
    } else {
        Some(BackendMessageView::Other { tag, frame: data })
    }
}

/// Reads how the server wants the client to log in.
fn parse_authentication(data: &[u8]) -> (r: Option<Authentication>)
    ensures
        match authentication(data@) {
            Some(m) => r matches Some(a) && BackendMessage::Authentication(a)@ == m,
            None => r is None,
        },
{
    if data.len() < 4 {
        return None;
    }
    let code: i32 = read_i32(data);
    if code == 0 {
        Some(Authentication::Accepted)
    } else if code == 3 {
        Some(Authentication::Cleartext)
    } else if code == 5 {
        if data.len() < 8 {
            return None;
        }
        let salt = [data[4], data[5], data[6], data[7]];
        assert(salt@ =~= data@.subrange(4, 8));
        Some(Authentication::Md5 { salt })
    } else {
        Some(Authentication::Unsupported(code))
    }
}

/// Reads a message of the server.
pub fn parse_message<'a>(tag: u8, data: &'a [u8]) -> (r: Result<
    BackendMessage<'a>,
    PgClientError,
>)
    ensures
        match backend_message(tag, data@) {
            Some(m) => r matches Ok(m2) && m2@ == m,
            None => r matches Err(PgClientError::MalformedMessage),
        },
{
    if tag == tags::B_AUTH_REQUEST {
        match parse_authentication(data) {
            Some(a) => Ok(BackendMessage::Authentication(a)),
            None => Err(PgClientError::MalformedMessage),
        }
    } else if tag == tags::B_PARAMETER_STATUS {
        let (name, rest) = read_cstr(data);
        let (value, _) = read_cstr(rest);
        Ok(BackendMessage::ParameterStatus { _name: name, _value: value })
    } else if tag == tags::B_BACKEND_KEY_DATA {
        if data.len() < 8 {
            return Err(PgClientError::MalformedMessage);
        }
        Ok(
            BackendMessage::BackendKeyData {
                _pid: read_i32(data),
                _secret: read_i32(bytes_from(data, 4)),
            },
        )
    } else if tag == tags::B_READY_FOR_QUERY {
        Ok(BackendMessage::ReadyForQuery)
    } else if tag == tags::B_ERROR {
        let (e, _) = read_cstr(data);
        Ok(BackendMessage::ErrorResponse(e))
    } else if tag == tags::B_NOTICE {
        Ok(BackendMessage::NoticeResponse)
    } else {
        Ok(BackendMessage::Other { _tag: tag, _frame: data })
    }
}

/// A text and the zero byte that ends it.
pub open spec fn cstr_bytes(s: Seq<char>) -> Seq<u8> {
    encode_utf8(s).push(0)
}

/// Names and values, each with a zero byte behind it.
pub open spec fn param_bytes(params: Seq<(Seq<char>, Seq<char>)>) -> Seq<u8>
    decreases params.len(),
{
    if params.len() == 0 {
        Seq::empty()
    } else {
        param_bytes(params.drop_last()) + cstr_bytes(params.last().0) + cstr_bytes(
            params.last().1,
        )
    }
}

/// What follows the length in a startup message: the version of the protocol,
/// the parameters, and a zero byte.
pub open spec fn startup_body(params: Seq<(Seq<char>, Seq<char>)>) -> Seq<u8> {
    wire::be32_bytes(tags::F_PROTO_VERSION) + param_bytes(params) + seq![0u8]
}

/// A startup message.
pub open spec fn startup_bytes(params: Seq<(Seq<char>, Seq<char>)>) -> Seq<u8> {
    let body = startup_body(params);
    wire::be32_bytes((4 + body.len()) as u32) + body
}

/// The texts of parameters.
pub open spec fn param_views(params: Seq<(String, String)>) -> Seq<(Seq<char>, Seq<char>)> {
    Seq::new(params.len(), |i: int| (params[i].0@, params[i].1@))
}

/// Appends a text and a zero byte.
fn push_cstr(out: &mut Vec<u8>, s: &str)
    ensures
        final(out)@ == old(out)@ + cstr_bytes(s@),
{
    push_bytes(out, s.as_bytes());
    out.push(0);
    assert(final(out)@ =~= old(out)@ + cstr_bytes(s@));
}

/// Encodes a startup message.
pub fn encode_startup(params: &[(String, String)]) -> (r: Vec<u8>)
    requires
        4 + startup_body(param_views(params@)).len() <= i32::MAX,
    ensures
        r@ == startup_bytes(param_views(params@)),
{
    let ghost views = param_views(params@);
    let mut body: Vec<u8> = Vec::new();
    push_be32(&mut body, tags::F_PROTO_VERSION);
    let mut i: usize = 0;
    assert(views.take(0) =~= Seq::empty());
    assert(body@ =~= wire::be32_bytes(tags::F_PROTO_VERSION) + param_bytes(views.take(0)));
    while i < params.len()
        invariant
            i <= params@.len(),
            views == param_views(params@),
            body@ == wire::be32_bytes(tags::F_PROTO_VERSION) + param_bytes(views.take(i as int)),
        decreases params@.len() - i,
    {
        let ghost before = param_bytes(views.take(i as int));
        push_cstr(&mut body, params[i].0.as_str());
        push_cstr(&mut body, params[i].1.as_str());
        proof {
            assert(views.take(i + 1).drop_last() =~= views.take(i as int));
            assert(body@ =~= wire::be32_bytes(tags::F_PROTO_VERSION) + (before + cstr_bytes(
                views[i as int].0,
            ) + cstr_bytes(views[i as int].1)));
        }
        i += 1;
    }
    assert(views.take(i as int) =~= views);
    body.push(0);
    assert(body@ =~= startup_body(views));
    let mut out: Vec<u8> = Vec::new();
    push_be32(&mut out, (4 + body.len()) as u32);
    push_bytes(&mut out, body.as_slice());
    assert(out@ =~= startup_bytes(views));
    out
}

/// A message with a password.
pub open spec fn password_bytes(pass: Seq<char>) -> Seq<u8> {
    seq![tags::F_PASSWORD_MESSAGE] + wire::be32_bytes((4 + encode_utf8(pass).len() + 1) as u32)
        + cstr_bytes(pass)
}

/// Encodes a message with a password.
pub fn encode_password(pass: &str) -> (r: Vec<u8>)
    requires
        4 + encode_utf8(pass@).len() + 1 <= i32::MAX,
    ensures
        r@ == password_bytes(pass@),
{
    let mut out: Vec<u8> = Vec::new();
    out.push(tags::F_PASSWORD_MESSAGE);
    push_be32(&mut out, (4 + pass.as_bytes().len() + 1) as u32);
    push_cstr(&mut out, pass);
    assert(out@ =~= password_bytes(pass@));
    out
}

/// What `md5::compute` makes of bytes.
pub uninterp spec fn md5_digest(bytes: Seq<u8>) -> Seq<u8>;

/// `md5::compute`: the digest of the bytes, which depends on nothing else. Of its
/// value no more is said here than that it has sixteen bytes.
#[verifier::external_body]
fn md5_compute(bytes: &[u8]) -> (r: [u8; 16])
    ensures
        r@ == md5_digest(bytes@),
{
    md5::compute(bytes).0
}

/// Bytes as hexadecimal digits, two each.
pub open spec fn hex(bytes: Seq<u8>) -> Seq<char>
    decreases bytes.len(),
{
    if bytes.len() == 0 {
        Seq::empty()
    } else {
        hex(bytes.drop_last()) + seq![
            text::digit_char((bytes.last() / 16) as int),
            text::digit_char((bytes.last() % 16) as int),
        ]
    }
}

/// Appends a digest as hexadecimal digits.
pub fn push_hex(out: &mut String, digest: &[u8; 16])
    ensures
        final(out)@ == old(out)@ + hex(digest@),
{
    let ghost start = out@;
    let mut i: usize = 0;
    assert(digest@.take(0) =~= Seq::<u8>::empty());
    assert(out@ =~= start + hex(digest@.take(0)));
    while i < 16
        invariant
            i <= 16,
            digest@.len() == 16,
            out@ == start + hex(digest@.take(i as int)),
        decreases 16 - i,
    {
        out.push(digit(digest[i] / 16));
        out.push(digit(digest[i] % 16));
        assert(digest@.take(i + 1).drop_last() =~= digest@.take(i as int));
        assert(out@ =~= start + hex(digest@.take(i + 1)));
        i += 1;
    }
    assert(digest@.take(16) =~= digest@);
}

/// What the second digest of a password is taken of: the first digest as
/// hexadecimal digits, and the salt.
pub open spec fn salted_bytes(first: Seq<u8>, salt: Seq<u8>) -> Seq<u8> {
    encode_utf8(hex(first)) + salt
}

/// The bytes that the second digest of a password is taken of.
pub fn salted(first: &[u8; 16], salt: &[u8; 4]) -> (r: Vec<u8>)
    ensures
        r@ == salted_bytes(first@, salt@),
{
    let mut inner = String::new();
    push_hex(&mut inner, first);
    assert(inner@ =~= hex(first@));
    let mut buf: Vec<u8> = Vec::new();
    push_bytes(&mut buf, inner.as_str().as_bytes());
    buf.push(salt[0]);
    buf.push(salt[1]);
    buf.push(salt[2]);
    buf.push(salt[3]);
    assert(buf@ =~= salted_bytes(first@, salt@));
    buf
}

/// The password that the server wants, made of a digest.
pub fn md5_text(digest: &[u8; 16]) -> (r: String)
    ensures
        r@ == "md5"@ + hex(digest@),
{
    let mut out = String::new();
    out.append("md5");
    push_hex(&mut out, digest);
    assert(out@ =~= "md5"@ + hex(digest@));
    out
}

/// The password that the server wants: the digest of the digest of password and
/// user, salted.
pub open spec fn md5_password(user: Seq<char>, pass: Seq<char>, salt: Seq<u8>) -> Seq<char> {
    "md5"@ + hex(
        md5_digest(
            salted_bytes(md5_digest(encode_utf8(pass) + encode_utf8(user)), salt),
        ),
    )
}

/// The password that the server wants.
pub fn hash_md5_password(user: &str, pass: &str, salt: &[u8; 4]) -> (r: String)
    ensures
        r@ == md5_password(user@, pass@, salt@),
        r@.len() == 35,
        is_ascii_chars(r@),
{
    let mut plain: Vec<u8> = Vec::new();
    push_bytes(&mut plain, pass.as_bytes());
    push_bytes(&mut plain, user.as_bytes());
    assert(plain@ =~= encode_utf8(pass@) + encode_utf8(user@));
    let first = md5_compute(plain.as_slice());
    let buf = salted(&first, salt);
    let second = md5_compute(buf.as_slice());
    proof {
        lemma_hex_ascii(second@);
        reveal_strlit("md5");
    }
    md5_text(&second)
}

/// Hexadecimal digits are ASCII, two for each byte.
proof fn lemma_hex_ascii(bytes: Seq<u8>)
    ensures
        hex(bytes).len() == 2 * bytes.len(),
        is_ascii_chars(hex(bytes)),
    decreases bytes.len(),
{
    if bytes.len() > 0 {
        lemma_hex_ascii(bytes.drop_last());
    }
}

} // verus!
