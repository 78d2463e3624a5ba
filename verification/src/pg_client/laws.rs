//! What a client encodes is read back.
use vstd::prelude::*;
use vstd::utf8::*;

use crate::pg_client::proto;
use crate::proto::c2s;
use crate::proto::c2s::PgMsgView;
use crate::proto::tags;
use crate::utils::parse;
use crate::utils::wire;

verus! {

/// Whether a text can stand in front of a zero byte that ends it.
pub open spec fn terminable(s: Seq<char>) -> bool {
    !encode_utf8(s).contains(0u8)
}

/// A text with a zero byte behind it is read back, whatever follows.
pub(crate) proof fn lemma_cstr_read_back(s: Seq<char>, rest: Seq<u8>)
    requires
        terminable(s),
    ensures
        parse::c_string(proto::cstr_bytes(s) + rest) == Ok::<(Seq<char>, int), Seq<char>>(
            (s, encode_utf8(s).len() as int + 1),
        ),
{
    let b = proto::cstr_bytes(s) + rest;
    let n = encode_utf8(s).len() as int;
    b.index_of_first_ensures(0u8);
    assert(b[n] == 0);
    assert forall|i: int| 0 <= i < n implies b[i] != 0 by {
        assert(b[i] == encode_utf8(s)[i]);
    }
    assert(b.take(n) =~= encode_utf8(s));
    encode_utf8_valid_utf8(s);
    encode_utf8_decode_utf8(s);
}

/// A message with a password is read back as that password.
pub proof fn law_password_read_back(pass: Seq<char>)
    requires
        terminable(pass),
        4 + encode_utf8(pass).len() + 1 <= i32::MAX,
    ensures
        c2s::message(proto::password_bytes(pass)) == Ok::<PgMsgView, Seq<char>>(
            PgMsgView::PasswordMessage(pass),
        ),
{
    let frame = proto::password_bytes(pass);
    assert(frame.skip(5) =~= proto::cstr_bytes(pass) + Seq::<u8>::empty());
    assert(frame[0] == tags::F_PASSWORD_MESSAGE);
    lemma_cstr_read_back(pass, Seq::empty());
}

/// Parameters start with the first of them.
proof fn lemma_param_bytes_first(params: Seq<(Seq<char>, Seq<char>)>)
    requires
        params.len() > 0,
    ensures
        proto::param_bytes(params) == proto::cstr_bytes(params[0].0) + (proto::cstr_bytes(
            params[0].1,
        ) + proto::param_bytes(params.drop_first())),
    decreases params.len(),
{
    let rest = params.drop_first();
    let prev = params.drop_last();
    if params.len() == 1 {
        assert(prev =~= Seq::empty());
        assert(rest =~= Seq::empty());
        assert(proto::param_bytes(params) =~= proto::cstr_bytes(params[0].0) + (
        proto::cstr_bytes(params[0].1) + proto::param_bytes(rest)));
    } else {
        lemma_param_bytes_first(prev);
        assert(prev.drop_first() =~= rest.drop_last());
        assert(rest.last() == params.last());
        assert(proto::param_bytes(params) =~= proto::cstr_bytes(params[0].0) + (
        proto::cstr_bytes(params[0].1) + proto::param_bytes(rest)));
    }
}

/// Parameters that were encoded are read back.
#[verifier::rlimit(50)]
proof fn lemma_params_read_back(b: Seq<u8>, at: int, params: Seq<(Seq<char>, Seq<char>)>)
    requires
        0 <= at <= b.len() <= usize::MAX,
        b.skip(at) == proto::param_bytes(params) + seq![0u8],
        forall|i: int|
            #![trigger params[i]]
            0 <= i < params.len() ==> params[i].0.len() > 0 && terminable(params[i].0)
                && terminable(params[i].1),
    ensures
        c2s::startup_params_from(b, at) matches Ok(found) && found.len() == params.len() && forall|
            i: int,
        |
            #![trigger found[i]]
            0 <= i < params.len() ==> c2s::param_texts(b, found[i]) == Some(params[i]),
    decreases params.len(),
{
    let own = b.skip(at);
    assert(at < b.len()) by {
        assert(own.len() > 0);
    }
    if params.len() == 0 {
        assert(own =~= proto::cstr_bytes(Seq::empty()) + Seq::<u8>::empty());
        lemma_cstr_read_back(Seq::empty(), Seq::empty());
    } else {
        let (k, v) = params[0];
        let rest = params.drop_first();
        lemma_param_bytes_first(params);
        let tail = proto::param_bytes(rest) + seq![0u8];
        let after = proto::cstr_bytes(v) + tail;
        assert(own =~= proto::cstr_bytes(k) + after);
        lemma_cstr_read_back(k, after);
        lemma_cstr_read_back(v, tail);
        let n = encode_utf8(k).len() + 1;
        let m = encode_utf8(v).len() + 1;
        assert(own.skip(n as int) =~= after);
        assert(after.skip(m as int) =~= tail);
        assert(b.skip(at + n) =~= own.skip(n as int));
        assert(b.skip(at + n + m) =~= b.skip(at + n).skip(m as int));
        assert forall|i: int| #![trigger rest[i]] 0 <= i < rest.len() implies rest[i].0.len() > 0
            && terminable(rest[i].0) && terminable(rest[i].1) by {
            assert(rest[i] == params[i + 1]);
        }
        lemma_params_read_back(b, at + n + m, rest);
        let found = c2s::startup_params_from(b, at)->Ok_0;
        let more = c2s::startup_params_from(b, at + n + m)->Ok_0;
        assert(b.subrange(at, at + n - 1) =~= encode_utf8(k));
        assert(b.subrange(at + n, at + n + m - 1) =~= encode_utf8(v));
        encode_utf8_valid_utf8(k);
        encode_utf8_valid_utf8(v);
        encode_utf8_decode_utf8(k);
        encode_utf8_decode_utf8(v);
        assert(found.len() == params.len());
        assert forall|i: int| #![trigger found[i]] 0 <= i < params.len() implies c2s::param_texts(
            b,
            found[i],
        ) == Some(params[i]) by {
            if i > 0 {
                assert(found[i] == more[i - 1]);
                assert(rest[i - 1] == params[i]);
            }
        }
    }
}

/// A startup message is read back as its parameters, in order. (Its length is
/// below the sixteen millions from which on its first byte is not zero.)
pub proof fn law_startup_read_back(params: Seq<(Seq<char>, Seq<char>)>)
    requires
        forall|i: int|
            #![trigger params[i]]
            0 <= i < params.len() ==> params[i].0.len() > 0 && terminable(params[i].0)
                && terminable(params[i].1),
        4 + proto::startup_body(params).len() < 0x100_0000,
    ensures
        c2s::message(proto::startup_bytes(params)) matches Ok(
            PgMsgView::StartupMessage { version, parameters_src, params: found },
        ) && version == tags::F_PROTO_VERSION && found.len() == params.len() && forall|i: int|
            #![trigger found[i]]
            0 <= i < params.len() ==> c2s::param_texts(parameters_src, found[i]) == Some(params[i]),
{
    let frame = proto::startup_bytes(params);
    let body = proto::startup_body(params);
    let src = proto::param_bytes(params) + seq![0u8];
    assert(frame.skip(4) =~= body);
    assert(body =~= wire::be32_bytes(tags::F_PROTO_VERSION) + src);
    wire::lemma_be32_read_back(tags::F_PROTO_VERSION, src);
    assert(body.skip(4) =~= src);
    assert(src.skip(0) =~= src);
    assert(frame[0] == wire::be32_bytes((4 + body.len()) as u32)[0]);
    lemma_params_read_back(src, 0, params);
}

} // verus!
