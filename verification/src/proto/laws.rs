//! What the messages of a client are on the wire, and how they are read. The type bytes and
//! the codes are written out here.
use vstd::prelude::*;
use vstd::utf8::*;

use crate::pg_client::laws;
use crate::proto::c2s;
use crate::proto::c2s::PgMsgView;
use crate::utils::parse;

verus! {

/// The number that stands in two bytes, most significant first.
pub open spec fn number_16(b: Seq<u8>, at: int) -> int {
    b[at] * 0x100 + b[at + 1]
}

/// The number that stands in four bytes, most significant first.
pub open spec fn number_32(b: Seq<u8>, at: int) -> int {
    b[at] * 0x100_0000 + b[at + 1] * 0x1_0000 + b[at + 2] * 0x100 + b[at + 3]
}

/// A text, and a zero byte.
pub open spec fn ended(s: Seq<char>) -> Seq<u8> {
    encode_utf8(s) + seq![0u8]
}

/// Whether a text can stand in front of a zero byte that ends it.
pub open spec fn endable(s: Seq<char>) -> bool {
    !encode_utf8(s).contains(0u8)
}

/// A whole frame with a type byte: it is followed by a length, which is not looked at again,
/// and by the body.
pub open spec fn framed(tag: u8, len: Seq<u8>, body: Seq<u8>) -> Seq<u8> {
    seq![tag] + len + body
}

/// What a frame with a type byte is read from.
proof fn lemma_framed(tag: u8, len: Seq<u8>, body: Seq<u8>)
    requires
        tag != 0,
        len.len() == 4,
    ensures
        c2s::message(framed(tag, len, body)) == c2s::tagged(tag, body),
{
    let f = framed(tag, len, body);
    assert(f[0] == tag);
    assert(f.skip(5) =~= body);
}

/// A text that is ended is read back.
proof fn lemma_ended(s: Seq<char>, rest: Seq<u8>)
    requires
        endable(s),
    ensures
        parse::c_string(ended(s) + rest) == Ok::<(Seq<char>, int), Seq<char>>(
            (s, encode_utf8(s).len() as int + 1),
        ),
{
    laws::lemma_cstr_read_back(s, rest);
    assert(crate::pg_client::proto::cstr_bytes(s) =~= ended(s));
}

/// Messages that are one text: a query (`Q`), a password (`p`), and why a copy failed (`f`).
/// What follows the text is not looked at.
pub proof fn law_one_text(len: Seq<u8>, s: Seq<char>, rest: Seq<u8>)
    requires
        len.len() == 4,
        endable(s),
    ensures
        c2s::message(framed(0x51, len, ended(s) + rest)) == Ok::<PgMsgView, Seq<char>>(
            PgMsgView::Query(s),
        ),
        c2s::message(framed(0x70, len, ended(s) + rest)) == Ok::<PgMsgView, Seq<char>>(
            PgMsgView::PasswordMessage(s),
        ),
        c2s::message(framed(0x66, len, ended(s) + rest)) == Ok::<PgMsgView, Seq<char>>(
            PgMsgView::CopyFail(s),
        ),
{
    lemma_ended(s, rest);
    lemma_framed(0x51, len, ended(s) + rest);
    lemma_framed(0x70, len, ended(s) + rest);
    lemma_framed(0x66, len, ended(s) + rest);
}

/// Messages that only have a type byte (`S`, `H`, `X`, `c`), data that is copied (`d`), and
/// those with a type byte that no message has.
pub proof fn law_plain_messages(len: Seq<u8>, body: Seq<u8>, tag: u8)
    requires
        len.len() == 4,
    ensures
        c2s::message(framed(0x53, len, body)) == Ok::<PgMsgView, Seq<char>>(PgMsgView::Sync),
        c2s::message(framed(0x48, len, body)) == Ok::<PgMsgView, Seq<char>>(PgMsgView::Flush),
        c2s::message(framed(0x58, len, body)) == Ok::<PgMsgView, Seq<char>>(PgMsgView::Terminate),
        c2s::message(framed(0x63, len, body)) == Ok::<PgMsgView, Seq<char>>(PgMsgView::CopyDone),
        c2s::message(framed(0x64, len, body)) == Ok::<PgMsgView, Seq<char>>(
            PgMsgView::CopyData(body),
        ),
        tag != 0 && tag != 0x51 && tag != 0x50 && tag != 0x42 && tag != 0x45 && tag != 0x46 && tag
            != 0x44 && tag != 0x43 && tag != 0x53 && tag != 0x48 && tag != 0x58 && tag != 0x64
            && tag != 0x63 && tag != 0x66 && tag != 0x70 ==> c2s::message(
            framed(tag, len, body),
        ) == Ok::<PgMsgView, Seq<char>>(PgMsgView::Unknown { tag, payload: body }),
{
    lemma_framed(0x53, len, body);
    lemma_framed(0x48, len, body);
    lemma_framed(0x58, len, body);
    lemma_framed(0x63, len, body);
    lemma_framed(0x64, len, body);
    if tag != 0 {
        lemma_framed(tag, len, body);
    }
}

/// Messages on a statement or a portal, which their first byte tells, and its name: to describe
/// it (`D`) and to close it (`C`).
pub proof fn law_named_target(len: Seq<u8>, target: u8, name: Seq<char>, rest: Seq<u8>)
    requires
        len.len() == 4,
        endable(name),
    ensures
        c2s::message(framed(0x44, len, seq![target] + ended(name) + rest)) == Ok::<
            PgMsgView,
            Seq<char>,
        >(PgMsgView::Describe { target_type: target, name }),
        c2s::message(framed(0x43, len, seq![target] + ended(name) + rest)) == Ok::<
            PgMsgView,
            Seq<char>,
        >(PgMsgView::Close { target_type: target, name }),
        c2s::message(framed(0x44, len, Seq::empty())) is Err,
        c2s::message(framed(0x43, len, Seq::empty())) is Err,
{
    let body = seq![target] + ended(name) + rest;
    assert(body[0] == target);
    assert(body.skip(1) =~= ended(name) + rest);
    lemma_ended(name, rest);
    lemma_framed(0x44, len, body);
    lemma_framed(0x43, len, body);
    lemma_framed(0x44, len, Seq::empty());
    lemma_framed(0x43, len, Seq::empty());
}

/// A message to execute a portal (`E`): its name, and how many rows are wanted, in four bytes;
/// without those it is not read.
pub proof fn law_execute(len: Seq<u8>, portal: Seq<char>, rest: Seq<u8>)
    requires
        len.len() == 4,
        endable(portal),
    ensures
        rest.len() < 4 ==> c2s::message(framed(0x45, len, ended(portal) + rest)) is Err,
        rest.len() >= 4 ==> {
            &&& c2s::message(framed(0x45, len, ended(portal) + rest)) matches Ok(
                PgMsgView::Execute { portal: p, max_rows },
            )
            &&& p == portal
            &&& (max_rows - number_32(rest, 0)) % 0x1_0000_0000 == 0
        },
{
    let body = ended(portal) + rest;
    lemma_ended(portal, rest);
    lemma_framed(0x45, len, body);
    assert(body.skip(encode_utf8(portal).len() as int + 1) =~= rest);
}

/// A counted list of numbers of two bytes each, and one of numbers of four bytes each: the
/// count stands in front, in two bytes. Nothing is read where they are not all there.
pub proof fn law_number_lists(b: Seq<u8>, at: int)
    requires
        0 <= at,
    ensures
        at + 2 > b.len() ==> c2s::codes_at(b, at) is Err && c2s::oids_at(b, at) is Err,
        at + 2 <= b.len() ==> {
            let n = number_16(b, at);
            &&& at + 2 + n * 2 > b.len() ==> c2s::codes_at(b, at) is Err
            &&& at + 2 + n * 2 <= b.len() ==> {
                &&& c2s::codes_at(b, at) matches Ok((codes, end))
                &&& end == at + 2 + n * 2
                &&& codes.len() == n
                &&& forall|i: int|
                    #![trigger codes[i]]
                    0 <= i < n ==> (codes[i] - number_16(b, at + 2 + i * 2)) % 0x1_0000 == 0
            }
            &&& at + 2 + n * 4 > b.len() ==> c2s::oids_at(b, at) is Err
            &&& at + 2 + n * 4 <= b.len() ==> {
                &&& c2s::oids_at(b, at) matches Ok((oids, end))
                &&& end == at + 2 + n * 4
                &&& oids.len() == n
                &&& forall|i: int|
                    #![trigger oids[i]]
                    0 <= i < n ==> oids[i] == number_32(b, at + 2 + i * 4)
            }
        },
{
    if at + 2 <= b.len() {
        let n = number_16(b, at);
        let s = b.skip(at);
        assert(s[0] == b[at] && s[1] == b[at + 1]);
        if let Ok((codes, _)) = c2s::codes_at(b, at) {
            assert forall|i: int| #![trigger codes[i]] 0 <= i < n implies (codes[i] - number_16(
                b,
                at + 2 + i * 2,
            )) % 0x1_0000 == 0 by {
                let t = b.skip(at + 2 + 2 * i);
                assert(t[0] == b[at + 2 + 2 * i] && t[1] == b[at + 2 + 2 * i + 1]);
            }
        }
        if let Ok((oids, _)) = c2s::oids_at(b, at) {
            assert forall|i: int| #![trigger oids[i]] 0 <= i < n implies oids[i] == number_32(
                b,
                at + 2 + i * 4,
            ) by {
                let j = at + 2 + 4 * i;
                let t = b.skip(j);
                assert(t[0] == b[j] && t[1] == b[j + 1] && t[2] == b[j + 2] && t[3] == b[j + 3]);
            }
        }
    }
}

/// Values are read one by one: each has its length in four bytes in front of it, and a length
/// of minus one stands for none. Nothing is read where a value is not all there, or where its
/// length is below that.
pub proof fn law_values(b: Seq<u8>, at: int, count: nat)
    requires
        0 <= at,
        b.len() <= usize::MAX,
    ensures
        count == 0 ==> c2s::values_from(b, at, count) == Ok::<
            (Seq<Option<(usize, usize)>>, int),
            Seq<char>,
        >((Seq::empty(), at)),
        count > 0 && at + 4 > b.len() ==> c2s::values_from(b, at, count) is Err,
        count > 0 && at + 4 <= b.len() ==> {
            let n = number_32(b, at);
            let less = (count - 1) as nat;
            let r = c2s::values_from(b, at, count);
            &&& 0x8000_0000 <= n < 0xFFFF_FFFF ==> r is Err
            &&& n == 0xFFFF_FFFF ==> match c2s::values_from(b, at + 4, less) {
                Ok((rest, end)) => r == Ok::<(Seq<Option<(usize, usize)>>, int), Seq<char>>(
                    (seq![None] + rest, end),
                ),
                Err(e) => r == Err::<(Seq<Option<(usize, usize)>>, int), Seq<char>>(e),
            }
            &&& n < 0x8000_0000 && at + 4 + n > b.len() ==> r is Err
            &&& n < 0x8000_0000 && at + 4 + n <= b.len() ==> match c2s::values_from(
                b,
                at + 4 + n,
                less,
            ) {
                Ok((rest, end)) => {
                    &&& r matches Ok((all, e))
                    &&& e == end
                    &&& all.len() == rest.len() + 1
                    &&& all.drop_first() == rest
                    &&& all[0] matches Some((o, l)) && o == at + 4 && l == n
                },
                Err(e) => r == Err::<(Seq<Option<(usize, usize)>>, int), Seq<char>>(e),
            }
        },
{
    if count > 0 && at + 4 <= b.len() {
        let s = b.skip(at);
        assert(s[0] == b[at] && s[1] == b[at + 1] && s[2] == b[at + 2] && s[3] == b[at + 3]);
        let n = number_32(b, at);
        if n < 0x8000_0000 && at + 4 + n <= b.len() {
            if let Ok((rest, _)) = c2s::values_from(b, at + 4 + n, (count - 1) as nat) {
                let all = c2s::values_from(b, at, count)->Ok_0.0;
                assert(all.drop_first() =~= rest);
            }
        }
    }
}

/// A counted list of values has its count in two bytes in front.
pub proof fn law_value_list(b: Seq<u8>, at: int)
    requires
        0 <= at,
    ensures
        at + 2 > b.len() ==> c2s::values_at(b, at) is Err,
        at + 2 <= b.len() ==> c2s::values_at(b, at) == c2s::values_from(
            b,
            at + 2,
            number_16(b, at) as nat,
        ),
{
    if at + 2 <= b.len() {
        let s = b.skip(at);
        assert(s[0] == b[at] && s[1] == b[at + 1]);
    }
}

/// A message to parse a statement (`P`): its name, its text, and the numbers of the types of
/// its parameters.
pub proof fn law_parse(len: Seq<u8>, name: Seq<char>, query: Seq<char>, rest: Seq<u8>)
    requires
        len.len() == 4,
        endable(name),
        endable(query),
    ensures
        ({
            let body = ended(name) + ended(query) + rest;
            let at = (ended(name) + ended(query)).len() as int;
            match c2s::oids_at(body, at) {
                Ok((oids, _)) => c2s::message(framed(0x50, len, body)) == Ok::<
                    PgMsgView,
                    Seq<char>,
                >(PgMsgView::Parse { name, query, parameter_type_oids: oids }),
                Err(e) => c2s::message(framed(0x50, len, body)) == Err::<PgMsgView, Seq<char>>(e),
            }
        }),
{
    let body = ended(name) + ended(query) + rest;
    assert(body =~= ended(name) + (ended(query) + rest));
    lemma_ended(name, ended(query) + rest);
    lemma_ended(query, rest);
    assert(body.skip(encode_utf8(name).len() as int + 1) =~= ended(query) + rest);
    lemma_framed(0x50, len, body);
}

/// A message to bind a portal to a statement (`B`): the names of both, the formats of the
/// parameters, the parameters, and the formats of the results, each list behind the one before
/// it.
pub proof fn law_bind(len: Seq<u8>, portal: Seq<char>, statement: Seq<char>, rest: Seq<u8>)
    requires
        len.len() == 4,
        endable(portal),
        endable(statement),
    ensures
        ({
            let body = ended(portal) + ended(statement) + rest;
            let at = (ended(portal) + ended(statement)).len() as int;
            let r = c2s::message(framed(0x42, len, body));
            match c2s::codes_at(body, at) {
                Err(e) => r == Err::<PgMsgView, Seq<char>>(e),
                Ok((formats, at2)) => match c2s::values_at(body, at2) {
                    Err(e) => r == Err::<PgMsgView, Seq<char>>(e),
                    Ok((values, at3)) => match c2s::codes_at(body, at3) {
                        Err(e) => r == Err::<PgMsgView, Seq<char>>(e),
                        Ok((results, _)) => r == Ok::<PgMsgView, Seq<char>>(
                            PgMsgView::Bind {
                                portal,
                                statement,
                                parameter_format_codes: formats,
                                parameters_src: body,
                                parameters: values,
                                result_format_codes: results,
                            },
                        ),
                    },
                },
            }
        }),
{
    let body = ended(portal) + ended(statement) + rest;
    assert(body =~= ended(portal) + (ended(statement) + rest));
    lemma_ended(portal, ended(statement) + rest);
    lemma_ended(statement, rest);
    assert(body.skip(encode_utf8(portal).len() as int + 1) =~= ended(statement) + rest);
    lemma_framed(0x42, len, body);
}

/// A message to call a function (`F`): its number in four bytes, the formats of the arguments,
/// the arguments, and the format of the result in two bytes.
pub proof fn law_function_call(len: Seq<u8>, body: Seq<u8>)
    requires
        len.len() == 4,
    ensures
        ({
            let r = c2s::message(framed(0x46, len, body));
            &&& body.len() < 4 ==> r is Err
            &&& body.len() >= 4 ==> match c2s::codes_at(body, 4) {
                Err(e) => r == Err::<PgMsgView, Seq<char>>(e),
                Ok((formats, at2)) => match c2s::values_at(body, at2) {
                    Err(e) => r == Err::<PgMsgView, Seq<char>>(e),
                    Ok((values, at3)) => if at3 + 2 > body.len() {
                        r is Err
                    } else {
                        &&& r matches Ok(
                            PgMsgView::FunctionCall {
                                object_id,
                                argument_format_codes,
                                arguments_src,
                                arguments,
                                result_format_code,
                            },
                        )
                        &&& object_id == number_32(body, 0)
                        &&& argument_format_codes == formats
                        &&& arguments_src == body
                        &&& arguments == values
                        &&& at3 >= 0 ==> (result_format_code - number_16(body, at3)) % 0x1_0000
                            == 0
                    },
                },
            }
        }),
{
    lemma_framed(0x46, len, body);
    if body.len() >= 4 {
        if let Ok((formats, at2)) = c2s::codes_at(body, 4) {
            if let Ok((values, at3)) = c2s::values_at(body, at2) {
                if at3 + 2 <= body.len() && at3 >= 0 {
                    let s = body.skip(at3);
                    assert(s[0] == body[at3] && s[1] == body[at3 + 1]);
                }
            }
        }
    }
}

/// The messages without type byte, told by the code behind their length: requests for TLS and
/// for GSSAPI encryption, for a cancellation, and the startup of version 3; others are not
/// read.
pub proof fn law_openings(frame: Seq<u8>)
    requires
        frame.len() >= 8,
        frame[0] == 0,
    ensures
        ({
            let code = number_32(frame, 4);
            let r = c2s::message(frame);
            &&& code == 80877103 ==> r == Ok::<PgMsgView, Seq<char>>(PgMsgView::SSLRequest)
            &&& code == 80877104 ==> r == Ok::<PgMsgView, Seq<char>>(PgMsgView::GSSENCRequest)
            &&& code == 80877102 && frame.len() < 16 ==> r is Err
            &&& code == 80877102 && frame.len() >= 16 ==> {
                &&& r matches Ok(PgMsgView::CancelRequest { process_id, secret_key })
                &&& process_id == number_32(frame, 8)
                &&& secret_key == number_32(frame, 12)
            }
            &&& frame[4] == 0 && frame[5] == 3 ==> match c2s::startup_params_from(frame.skip(8), 0) {
                Ok(params) => r == Ok::<PgMsgView, Seq<char>>(
                    PgMsgView::StartupMessage {
                        version: code as u32,
                        parameters_src: frame.skip(8),
                        params,
                    },
                ),
                Err(e) => r == Err::<PgMsgView, Seq<char>>(e),
            }
            &&& code != 80877103 && code != 80877104 && code != 80877102 && !(frame[4] == 0
                && frame[5] == 3) ==> r is Err
        }),
{
    let body = frame.skip(4);
    assert(body[0] == frame[4] && body[1] == frame[5] && body[2] == frame[6] && body[3]
        == frame[7]);
    assert(body.skip(4) =~= frame.skip(8));
    if frame.len() >= 16 {
        let (a, b) = (body.skip(4), body.skip(8));
        assert(a[0] == frame[8] && a[1] == frame[9] && a[2] == frame[10] && a[3] == frame[11]);
        assert(b[0] == frame[12] && b[1] == frame[13] && b[2] == frame[14] && b[3] == frame[15]);
    }
}

/// What is too short for its header is not read.
pub proof fn law_short_frames(frame: Seq<u8>)
    ensures
        frame.len() < 4 ==> c2s::message(frame) is Err,
        frame.len() >= 4 && frame[0] == 0 && frame.len() < 8 ==> c2s::message(frame) is Err,
        frame.len() == 4 && frame[0] != 0 ==> c2s::message(frame) is Err,
{
}

} // verus!
