//! What is sent to log in, byte for byte, and how the server's wishes are told. The type
//! bytes and the codes are written out here.
use vstd::prelude::*;
use vstd::utf8::*;

use crate::pg_client::client;
use crate::pg_client::proto;
use crate::pg_client::proto::{Authentication, BackendMessageView};
use crate::utils::parse;

verus! {

/// The number that stands in four bytes, most significant first.
pub open spec fn number_at(b: Seq<u8>, at: int) -> int {
    b[at] * 0x100_0000 + b[at + 1] * 0x1_0000 + b[at + 2] * 0x100 + b[at + 3]
}

/// A number in four bytes, most significant first.
pub open spec fn number_bytes(n: u32) -> Seq<u8> {
    seq![
        (n / 0x100_0000) as u8,
        (n / 0x1_0000 % 0x100) as u8,
        (n / 0x100 % 0x100) as u8,
        (n % 0x100) as u8,
    ]
}

/// Four bytes stand for the number that they were made of.
pub proof fn law_number_bytes(n: u32)
    ensures
        number_bytes(n).len() == 4,
        number_at(number_bytes(n), 0) == n,
{
}

/// The sixteen hexadecimal digits.
pub open spec fn hex_digits() -> Seq<char> {
    seq!['0', '1', '2', '3', '4', '5', '6', '7', '8', '9', 'a', 'b', 'c', 'd', 'e', 'f']
}

/// Bytes as hexadecimal digits: of each first that of its upper four bits.
pub open spec fn hex_text(bytes: Seq<u8>) -> Seq<char> {
    Seq::new(
        2 * bytes.len(),
        |i: int|
            if i % 2 == 0 {
                hex_digits()[(bytes[i / 2] / 16) as int]
            } else {
                hex_digits()[(bytes[i / 2] % 16) as int]
            },
    )
}

/// Digests are written with two hexadecimal digits for each byte.
pub proof fn law_hex(bytes: Seq<u8>)
    ensures
        proto::hex(bytes) == hex_text(bytes),
    decreases bytes.len(),
{
    if bytes.len() > 0 {
        let b = bytes.last();
        let front = bytes.drop_last();
        law_hex(front);
        lemma_digit((b / 16) as int);
        lemma_digit((b % 16) as int);
        let n = 2 * front.len() as int;
        assert forall|i: int| 0 <= i < n implies #[trigger] hex_text(bytes)[i] == hex_text(
            front,
        )[i] by {
            assert(front[i / 2] == bytes[i / 2]);
        }
        assert(hex_text(bytes)[n] == hex_digits()[(b / 16) as int]);
        assert(hex_text(bytes)[n + 1] == hex_digits()[(b % 16) as int]);
    }
    assert(proto::hex(bytes) =~= hex_text(bytes));
}

/// The characters of digits.
proof fn lemma_digit(d: int)
    requires
        0 <= d < 16,
    ensures
        crate::utils::text::digit_char(d) == hex_digits()[d],
{
}

/// The message with a password: `p`, the length, which counts itself, the text, and a
/// zero byte.
pub open spec fn password_message(pass: Seq<char>) -> Seq<u8> {
    seq![0x70u8] + number_bytes((encode_utf8(pass).len() + 5) as u32) + encode_utf8(pass) + seq![
        0u8,
    ]
}

/// A password is sent in a message of its own, as it is.
pub proof fn law_password_message(pass: Seq<char>)
    ensures
        proto::password_bytes(pass) == password_message(pass),
{
    assert(4 + encode_utf8(pass).len() + 1 == encode_utf8(pass).len() + 5);
    assert(proto::password_bytes(pass) =~= password_message(pass));
}

/// What stands for a password under MD5: `md5`, and the digest of the digest of password
/// and user, salted. Both digests are written with hexadecimal digits.
pub open spec fn md5_answer(user: Seq<char>, pass: Seq<char>, salt: Seq<u8>) -> Seq<char> {
    let first = hex_text(proto::md5_digest(encode_utf8(pass) + encode_utf8(user)));
    seq!['m', 'd', '5'] + hex_text(proto::md5_digest(encode_utf8(first) + salt))
}

/// The password that is sent under MD5 is made of the password, the user and the salt.
pub proof fn law_md5_password(user: Seq<char>, pass: Seq<char>, salt: Seq<u8>)
    ensures
        proto::md5_password(user, pass, salt) == md5_answer(user, pass, salt),
{
    let first = proto::md5_digest(encode_utf8(pass) + encode_utf8(user));
    law_hex(first);
    law_hex(proto::md5_digest(encode_utf8(hex_text(first)) + salt));
    reveal_strlit("md5");
    assert("md5"@ =~= seq!['m', 'd', '5']);
}

/// The wish of the server is answered: with the password as it is, with what stands for it
/// under MD5, with nothing where the login is accepted, and not at all otherwise.
pub proof fn law_auth_answer(auth: Authentication, user: Seq<char>, pass: Seq<char>)
    ensures
        auth is Accepted ==> client::auth_answer(auth, user, pass) == Ok::<Option<Seq<u8>>, i32>(
            None,
        ),
        auth is Cleartext ==> client::auth_answer(auth, user, pass) == Ok::<Option<Seq<u8>>, i32>(
            Some(password_message(pass)),
        ),
        auth matches Authentication::Md5 { salt } ==> client::auth_answer(auth, user, pass)
            == Ok::<Option<Seq<u8>>, i32>(Some(password_message(md5_answer(user, pass, salt@)))),
        auth matches Authentication::Unsupported(code) ==> client::auth_answer(auth, user, pass)
            == Err::<Option<Seq<u8>>, i32>(code),
{
    law_password_message(pass);
    if let Authentication::Md5 { salt } = auth {
        law_md5_password(user, pass, salt@);
        law_password_message(md5_answer(user, pass, salt@));
    }
}

/// A text, and a zero byte.
pub open spec fn ended(s: Seq<char>) -> Seq<u8> {
    encode_utf8(s) + seq![0u8]
}

/// The message that opens a session: the length, which counts itself, version 3.0, and
/// then the names and values, each with a zero byte behind it, and one more.
pub proof fn law_startup_message(app: Seq<char>, user: Seq<char>, dbname: Seq<char>)
    ensures
        ({
            let params = ended("application_name"@) + ended(app) + ended("user"@) + ended(user)
                + ended("database"@) + ended(dbname);
            let body = seq![0u8, 3u8, 0u8, 0u8] + params + seq![0u8];
            proto::startup_bytes(client::startup_params(app, user, dbname)) == number_bytes(
                (body.len() + 4) as u32,
            ) + body
        }),
{
    let given = client::startup_params(app, user, dbname);
    let one = ended("application_name"@) + ended(app);
    let two = one + ended("user"@) + ended(user);
    let three = two + ended("database"@) + ended(dbname);
    assert forall|s: Seq<char>| #[trigger] proto::cstr_bytes(s) == ended(s) by {
        assert(proto::cstr_bytes(s) =~= ended(s));
    }
    let (g2, g1) = (given.drop_last(), given.drop_last().drop_last());
    assert(g1.drop_last() =~= Seq::empty());
    assert(g1.last() == given[0]);
    assert(g2.last() == given[1]);
    assert(proto::param_bytes(g1) == Seq::<u8>::empty() + ended("application_name"@) + ended(app))
        by {
        reveal_with_fuel(proto::param_bytes, 2);
    }
    assert(Seq::<u8>::empty() + ended("application_name"@) =~= ended("application_name"@));
    assert(proto::param_bytes(g2) == two);
    assert(proto::param_bytes(given) == three);
    let body = seq![0u8, 3u8, 0u8, 0u8] + three + seq![0u8];
    assert(crate::utils::wire::be32_bytes(196608) =~= seq![0u8, 3u8, 0u8, 0u8]);
    assert(proto::startup_body(given) == body);
    assert(4 + body.len() == body.len() + 4);
}

/// The server tells how it wants the client to log in by a code in four bytes: zero where
/// the login is accepted, three for a password, and five for one under MD5, with a salt of
/// four bytes behind it. Other codes are not supported, and what is too short is not read.
pub proof fn law_authentication(data: Seq<u8>)
    ensures
        data.len() < 4 ==> proto::authentication(data) is None,
        data.len() >= 4 && number_at(data, 0) == 0 ==> proto::authentication(data) == Some(
            BackendMessageView::AuthenticationOk,
        ),
        data.len() >= 4 && number_at(data, 0) == 3 ==> proto::authentication(data) == Some(
            BackendMessageView::AuthenticationCleartext,
        ),
        data.len() >= 8 && number_at(data, 0) == 5 ==> proto::authentication(data) == Some(
            BackendMessageView::AuthenticationMd5(seq![data[4], data[5], data[6], data[7]]),
        ),
        4 <= data.len() < 8 && number_at(data, 0) == 5 ==> proto::authentication(data) is None,
        data.len() >= 4 && number_at(data, 0) != 0 && number_at(data, 0) != 3 && number_at(data, 0)
            != 5 ==> {
            &&& proto::authentication(data) matches Some(
                BackendMessageView::AuthenticationUnsupported(code),
            )
            &&& (code - number_at(data, 0)) % 0x1_0000_0000 == 0
        },
{
    if data.len() >= 8 {
        assert(data.subrange(4, 8) =~= seq![data[4], data[5], data[6], data[7]]);
    }
}

/// Messages of the server are told by their type bytes: `R`, `S`, `K`, `Z`, `E`, `N`, and
/// others.
pub proof fn law_backend_message(tag: u8, data: Seq<u8>)
    ensures
        ({
            let m = proto::backend_message(tag, data);
            &&& tag == 0x52 ==> m == proto::authentication(data)
            &&& tag == 0x53 ==> m is Some && m->0 is ParameterStatus
            &&& tag == 0x4B && data.len() < 8 ==> m is None
            &&& tag == 0x4B && data.len() >= 8 ==> {
                &&& m matches Some(BackendMessageView::BackendKeyData { pid, secret })
                &&& (pid - number_at(data, 0)) % 0x1_0000_0000 == 0
                &&& (secret - number_at(data, 4)) % 0x1_0000_0000 == 0
            }
            &&& tag == 0x5A ==> m == Some(BackendMessageView::ReadyForQuery)
            &&& tag == 0x45 ==> m is Some && m->0 is ErrorResponse
            &&& tag == 0x4E ==> m == Some(BackendMessageView::NoticeResponse)
            &&& tag != 0x52 && tag != 0x53 && tag != 0x4B && tag != 0x5A && tag != 0x45 && tag
                != 0x4E ==> m == Some(BackendMessageView::Other { tag, frame: data })
        }),
{
    if data.len() >= 8 {
        let rest = data.skip(4);
        assert(rest[0] == data[4] && rest[1] == data[5] && rest[2] == data[6] && rest[3]
            == data[7]);
        assert(parse::be32(rest) == number_at(data, 4));
    }
}

/// The texts of a parameter that the server reports are its bytes up to the first zero
/// byte and from there up to the second one; and that of an error is what stands in front
/// of its first zero byte. What follows is not looked at.
pub proof fn law_backend_texts(name: Seq<u8>, value: Seq<u8>, rest: Seq<u8>)
    requires
        !name.contains(0u8),
        !value.contains(0u8),
    ensures
        proto::backend_message(0x53, name + seq![0u8] + value + seq![0u8] + rest) == Some(
            BackendMessageView::ParameterStatus {
                name: proto::lossy_text(name),
                value: proto::lossy_text(value),
            },
        ),
        proto::backend_message(0x45, name + seq![0u8] + rest) == Some(
            BackendMessageView::ErrorResponse(proto::lossy_text(name)),
        ),
{
    let all = name + seq![0u8] + value + seq![0u8] + rest;
    let tail = value + seq![0u8] + rest;
    assert(all =~= name + seq![0u8] + tail);
    lemma_string_end(name, tail);
    lemma_string_end(value, rest);
    lemma_string_end(name, rest);
    assert(all.skip(name.len() as int + 1) =~= tail);
    assert(all.take(name.len() as int) =~= name);
    assert(tail.take(value.len() as int) =~= value);
    assert((name + seq![0u8] + rest).take(name.len() as int) =~= name);
}

/// Where a string ends.
proof fn lemma_string_end(s: Seq<u8>, rest: Seq<u8>)
    requires
        !s.contains(0u8),
    ensures
        proto::string_end(s + seq![0u8] + rest) == s.len(),
{
    let b = s + seq![0u8] + rest;
    b.index_of_first_ensures(0u8);
    assert(b[s.len() as int] == 0);
    assert forall|i: int| 0 <= i < s.len() implies b[i] != 0 by {
        assert(b[i] == s[i]);
        assert(s.contains(s[i]));
    }
}

/// The first frame is a type byte and as many bytes as the four bytes behind it say; it is
/// there once all of them came.
pub proof fn law_first_frame(b: Seq<u8>)
    ensures
        b.len() < 5 ==> proto::first_frame(b) is None,
        b.len() >= 5 && b.len() - 1 < number_at(b, 1) ==> proto::first_frame(b) is None,
        b.len() >= 5 && b.len() - 1 >= number_at(b, 1) ==> proto::first_frame(b) == Some(
            (b[0], number_at(b, 1) + 1),
        ),
{
    if b.len() >= 5 {
        let rest = b.skip(1);
        assert(rest[0] == b[1] && rest[1] == b[2] && rest[2] == b[3] && rest[3] == b[4]);
    }
}

/// A password is the text of its bytes, and empty where there is none; it fits where its
/// message is not longer than 2147483647 bytes without the type byte.
pub proof fn law_password_text(password: Option<Vec<u8>>, pass: Seq<char>)
    ensures
        password matches Some(bytes) ==> client::password_text(password) == proto::lossy_text(
            bytes@,
        ),
        password is None ==> client::password_text(password) == Seq::<char>::empty(),
        client::fits(pass) <==> encode_utf8(pass).len() + 5 <= 2147483647,
{
}

/// Bytes that do not hold a whole frame yet are sound; a whole one is where its length counts
/// at least the four bytes of the length itself.
pub proof fn law_sound(b: Seq<u8>)
    ensures
        b.len() < 5 || b.len() - 1 < number_at(b, 1) ==> client::sound(b),
        b.len() >= 5 && b.len() - 1 >= number_at(b, 1) ==> (client::sound(b) <==> number_at(b, 1)
            >= 4),
{
    law_first_frame(b);
}

} // verus!
