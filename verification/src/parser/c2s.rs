//! The messages that a PostgreSQL client sends, with lists that are read lazily.
use vstd::prelude::*;

use crate::proto::c2s;
use crate::proto::c2s::PgMsgView;
use crate::proto::tags;
use crate::utils::parse;
use crate::utils::parse::{
    bytes_at, bytes_from, read_c_string, read_i16, read_i32, read_u16, read_u32,
};

verus! {

/// A client message that borrows everything from its frame.
#[allow(inconsistent_fields)]
pub enum PgC2S<'a> {
    SSLRequest,
    GSSENCRequest,
    StartupMessage { version: u32, parameters: RawParams<'a> },
    CancelRequest { process_id: u32, secret_key: u32 },
    Bind {
        portal: &'a str,
        statement: &'a str,
        parameter_format_codes: Codes<'a>,
        parameters: Values<'a>,
        result_format_codes: Codes<'a>,
    },
    Close { target_type: u8, name: &'a str },
    Describe { target_type: u8, name: &'a str },
    Execute { portal: &'a str, max_rows: i32 },
    Flush,
    FunctionCall {
        object_id: u32,
        argument_format_codes: Codes<'a>,
        arguments: Values<'a>,
        result_format_code: i16,
    },
    Parse { name: &'a str, query: &'a str, parameter_type_oids: Oids<'a> },
    PasswordMessage(&'a str),
    Query(&'a str),
    Sync,
    Terminate,
    CopyData(&'a [u8]),
    CopyDone,
    CopyFail(&'a str),
    Unknown { tag: u8, payload: &'a [u8] },
}

/// What a client message says: numbers, texts and the bytes of values. The
/// parameters of a startup message stay as they are in the frame.
#[verifier::ext_equal]
#[allow(inconsistent_fields)]
pub enum PgC2SView {
    SSLRequest,
    GSSENCRequest,
    StartupMessage { version: u32, parameters: Seq<u8> },
    CancelRequest { process_id: u32, secret_key: u32 },
    Bind {
        portal: Seq<char>,
        statement: Seq<char>,
        parameter_format_codes: Seq<i16>,
        parameters: Seq<Option<Seq<u8>>>,
        result_format_codes: Seq<i16>,
    },
    Close { target_type: u8, name: Seq<char> },
    Describe { target_type: u8, name: Seq<char> },
    Execute { portal: Seq<char>, max_rows: i32 },
    Flush,
    FunctionCall {
        object_id: u32,
        argument_format_codes: Seq<i16>,
        arguments: Seq<Option<Seq<u8>>>,
        result_format_code: i16,
    },
    Parse { name: Seq<char>, query: Seq<char>, parameter_type_oids: Seq<u32> },
    PasswordMessage(Seq<char>),
    Query(Seq<char>),
    Sync,
    Terminate,
    CopyData(Seq<u8>),
    CopyDone,
    CopyFail(Seq<char>),
    Unknown { tag: u8, payload: Seq<u8> },
}

impl<'a> View for PgC2S<'a> {
    type V = PgC2SView;

    open spec fn view(&self) -> PgC2SView {
        match *self {
            PgC2S::SSLRequest => PgC2SView::SSLRequest,
            PgC2S::GSSENCRequest => PgC2SView::GSSENCRequest,
            PgC2S::StartupMessage { version, parameters } => PgC2SView::StartupMessage {
                version,
                parameters: parameters@,
            },
            PgC2S::CancelRequest { process_id, secret_key } => PgC2SView::CancelRequest {
                process_id,
                secret_key,
            },
            PgC2S::Bind {
                portal,
                statement,
                parameter_format_codes,
                parameters,
                result_format_codes,
            } => PgC2SView::Bind {
                portal: portal@,
                statement: statement@,
                parameter_format_codes: parameter_format_codes@,
                parameters: parameters@,
                result_format_codes: result_format_codes@,
            },
            PgC2S::Close { target_type, name } => PgC2SView::Close { target_type, name: name@ },
            PgC2S::Describe { target_type, name } => PgC2SView::Describe {
                target_type,
                name: name@,
            },
            PgC2S::Execute { portal, max_rows } => PgC2SView::Execute { portal: portal@, max_rows },
            PgC2S::Flush => PgC2SView::Flush,
            PgC2S::FunctionCall {
                object_id,
                argument_format_codes,
                arguments,
                result_format_code,
            } => PgC2SView::FunctionCall {
                object_id,
                argument_format_codes: argument_format_codes@,
                arguments: arguments@,
                result_format_code,
            },
            PgC2S::Parse { name, query, parameter_type_oids } => PgC2SView::Parse {
                name: name@,
                query: query@,
                parameter_type_oids: parameter_type_oids@,
            },
            PgC2S::PasswordMessage(p) => PgC2SView::PasswordMessage(p@),
            PgC2S::Query(q) => PgC2SView::Query(q@),
            PgC2S::Sync => PgC2SView::Sync,
            PgC2S::Terminate => PgC2SView::Terminate,
            PgC2S::CopyData(d) => PgC2SView::CopyData(d@),
            PgC2S::CopyDone => PgC2SView::CopyDone,
            PgC2S::CopyFail(m) => PgC2SView::CopyFail(m@),
            PgC2S::Unknown { tag, payload } => PgC2SView::Unknown { tag, payload: payload@ },
        }
    }
}

/// The bytes of values that are given by offset and length.
pub open spec fn value_list(src: Seq<u8>, values: Seq<Option<(usize, usize)>>) -> Seq<
    Option<Seq<u8>>,
> {
    Seq::new(values.len(), |i: int| c2s::value_bytes(src, values[i]))
}

/// A message with the bytes of its values in place of their offsets.
pub open spec fn resolved(m: PgMsgView) -> PgC2SView {
    match m {
        PgMsgView::SSLRequest => PgC2SView::SSLRequest,
        PgMsgView::GSSENCRequest => PgC2SView::GSSENCRequest,
        PgMsgView::StartupMessage { version, parameters_src, .. } => PgC2SView::StartupMessage {
            version,
            parameters: parameters_src,
        },
        PgMsgView::CancelRequest { process_id, secret_key } => PgC2SView::CancelRequest {
            process_id,
            secret_key,
        },
        PgMsgView::Bind {
            portal,
            statement,
            parameter_format_codes,
            parameters_src,
            parameters,
            result_format_codes,
        } => PgC2SView::Bind {
            portal,
            statement,
            parameter_format_codes,
            parameters: value_list(parameters_src, parameters),
            result_format_codes,
        },
        PgMsgView::Close { target_type, name } => PgC2SView::Close { target_type, name },
        PgMsgView::Describe { target_type, name } => PgC2SView::Describe { target_type, name },
        PgMsgView::Execute { portal, max_rows } => PgC2SView::Execute { portal, max_rows },
        PgMsgView::Flush => PgC2SView::Flush,
        PgMsgView::FunctionCall {
            object_id,
            argument_format_codes,
            arguments_src,
            arguments,
            result_format_code,
        } => PgC2SView::FunctionCall {
            object_id,
            argument_format_codes,
            arguments: value_list(arguments_src, arguments),
            result_format_code,
        },
        PgMsgView::Parse { name, query, parameter_type_oids } => PgC2SView::Parse {
            name,
            query,
            parameter_type_oids,
        },
        PgMsgView::PasswordMessage(p) => PgC2SView::PasswordMessage(p),
        PgMsgView::Query(q) => PgC2SView::Query(q),
        PgMsgView::Sync => PgC2SView::Sync,
        PgMsgView::Terminate => PgC2SView::Terminate,
        PgMsgView::CopyData(d) => PgC2SView::CopyData(d),
        PgMsgView::CopyDone => PgC2SView::CopyDone,
        PgMsgView::CopyFail(m) => PgC2SView::CopyFail(m),
        PgMsgView::Unknown { tag, payload } => PgC2SView::Unknown { tag, payload },
    }
}

/// A message without a type byte, read from what follows the length. The
/// parameters of a startup message are not looked at.
pub open spec fn untagged_message(payload: Seq<u8>) -> Result<PgC2SView, Seq<char>> {
    let code = parse::be32(payload);
    if payload.len() < 4 {
        Err("Truncated startup header"@)
    } else if code == tags::F_CANCEL_REQUEST {
        if payload.len() < 12 {
            Err("Incomplete CancelRequest"@)
        } else {
            Ok(
                PgC2SView::CancelRequest {
                    process_id: parse::be32(payload.skip(4)) as u32,
                    secret_key: parse::be32(payload.skip(8)) as u32,
                },
            )
        }
    } else if code == tags::F_SSL_REQUEST {
        Ok(PgC2SView::SSLRequest)
    } else if code == tags::F_GSS_REQUEST {
        Ok(PgC2SView::GSSENCRequest)
    } else if code / 0x1_0000 == 3 {
        Ok(PgC2SView::StartupMessage { version: code as u32, parameters: payload.skip(4) })
    } else {
        Err("Unknown headerless protocol version"@)
    }
}

/// The message with the type byte `tag` (zero where there is none) and the
/// given payload, or why there is none.
pub open spec fn c2s_message(tag: u8, payload: Seq<u8>) -> Result<PgC2SView, Seq<char>> {
    if tag == 0 {
        untagged_message(payload)
    } else {
        match c2s::tagged(tag, payload) {
            Ok(m) => Ok(resolved(m)),
            Err(e) => Err(e),
        }
    }
}

/// One step through the parameters of a startup message: the pair that the
/// bytes start with, if any, and the bytes that are left. Where a name has no
/// readable value after it, the name is still stepped over.
pub open spec fn next_param(b: Seq<u8>) -> (Option<(Seq<char>, Seq<char>)>, Seq<u8>) {
    if b.len() == 0 {
        (None, b)
    } else {
        match parse::c_string(b) {
            Err(_) => (None, b),
            Ok((name, n)) => if name.len() == 0 {
                (None, b)
            } else {
                match parse::c_string(b.skip(n)) {
                    Err(_) => (None, b.skip(n)),
                    Ok((value, m)) => (Some((name, value)), b.skip(n).skip(m)),
                }
            },
        }
    }
}

/// The parameters that the steps of `next_param` give, up to the first step
/// that gives none.
pub open spec fn raw_params(b: Seq<u8>) -> Seq<(Seq<char>, Seq<char>)>
    decreases b.len(),
{
    match next_param(b) {
        (Some(p), rest) => {
            proof {
                lemma_next_param_shorter(b);
            }
            seq![p] + raw_params(rest)
        },
        (None, _) => Seq::empty(),
    }
}

/// A step that gives a parameter leaves fewer bytes.
pub proof fn lemma_next_param_shorter(b: Seq<u8>)
    ensures
        next_param(b).0 is Some ==> next_param(b).1.len() < b.len(),
{
    b.index_of_first_ensures(0u8);
    if let Ok((_, n)) = parse::c_string(b) {
        b.skip(n).index_of_first_ensures(0u8);
    }
}

/// The parameters of a startup message, as they stand in the frame.
#[derive(Debug, Clone, Copy)]
pub struct RawParams<'a>(&'a [u8]);

impl<'a> View for RawParams<'a> {
    type V = Seq<u8>;

    closed spec fn view(&self) -> Seq<u8> {
        self.0@
    }
}

impl<'a> RawParams<'a> {
    /// A walk over the parameters.
    pub fn iter(&self) -> (r: RawParamsIter<'a>)
        ensures
            r@ == self@,
    {
        RawParamsIter(self.0)
    }
}

/// A walk over the parameters of a startup message. Its view is the bytes that
/// are left.
pub struct RawParamsIter<'a>(&'a [u8]);

impl<'a> View for RawParamsIter<'a> {
    type V = Seq<u8>;

    closed spec fn view(&self) -> Seq<u8> {
        self.0@
    }
}

impl<'a> RawParamsIter<'a> {
    /// The next parameter.
    pub fn next(&mut self) -> (r: Option<(&'a str, &'a str)>)
        ensures
            final(self)@ == next_param(old(self)@).1,
            match next_param(old(self)@).0 {
                Some((k, v)) => r matches Some((k2, v2)) && k2@ == k && v2@ == v,
                None => r is None,
            },
    {
        if self.0.is_empty() {
            return None;
        }
        let (k, len) = match read_c_string(self.0) {
            Ok(found) => found,
            Err(_) => return None,
        };
        if k.is_empty() {
            return None;
        }
        self.0 = bytes_from(self.0, len);
        let (v, len) = match read_c_string(self.0) {
            Ok(found) => found,
            Err(_) => return None,
        };
        self.0 = bytes_from(self.0, len);
        Some((k, v))
    }
}

/// The 16-bit numbers that bytes stand for, two bytes each.
pub open spec fn code_list(b: Seq<u8>) -> Seq<i16> {
    Seq::new(b.len() / 2, |i: int| parse::signed16(parse::be16(b.skip(2 * i))) as i16)
}

/// A list of 16-bit numbers, as it stands in the frame.
#[derive(Debug, Clone, Copy)]
pub struct Codes<'a>(&'a [u8]);

impl<'a> View for Codes<'a> {
    type V = Seq<i16>;

    closed spec fn view(&self) -> Seq<i16> {
        code_list(self.0@)
    }
}

impl<'a> Codes<'a> {
    /// Reads a counted list at `idx`, and moves `idx` behind it.
    fn parse(payload: &'a [u8], idx: &mut usize) -> (r: Result<Self, &'static str>)
        requires
            *old(idx) <= payload@.len(),
        ensures
            match c2s::codes_at(payload@, *old(idx) as int) {
                Ok((codes, end)) => r matches Ok(c) && c@ == codes && *final(idx) == end && end
                    <= payload@.len(),
                Err(e) => r matches Err(e2) && e2@ == e,
            },
    {
        let start: usize = *idx;
        let rest = bytes_from(payload, start);
        if rest.len() < 2 {
            return Err("Truncated: missing element count");
        }
        let total: usize = read_u16(rest) as usize * 2;
        if rest.len() - 2 < total {
            return Err("Truncated: elements out of bounds");
        }
        let list = bytes_at(rest, 2, total);
        *idx = start + 2 + total;
        proof {
            let codes = c2s::codes_at(payload@, start as int)->Ok_0.0;
            assert forall|i: int| 0 <= i < codes.len() implies code_list(list@)[i] == codes[i] by {
                assert(list@.skip(2 * i)[0] == payload@.skip(start + 2 + 2 * i)[0]);
                assert(list@.skip(2 * i)[1] == payload@.skip(start + 2 + 2 * i)[1]);
            }
            assert(code_list(list@) =~= codes);
        }
        Ok(Codes(list))
    }

    /// The numbers in the list.
    pub fn iter(&self) -> (r: Vec<i16>)
        ensures
            r@ == self@,
    {
        let s = self.0;
        let mut items: Vec<i16> = Vec::new();
        let mut i: usize = 0;
        while i < s.len() / 2
            invariant
                s == self.0,
                i <= s.len() / 2,
                items@ =~= self@.take(i as int),
            decreases s.len() - i,
        {
            let pair = bytes_at(s, 2 * i, 2);
            assert(pair@[0] == s@.skip(2 * i)[0] && pair@[1] == s@.skip(2 * i)[1]);
            items.push(read_i16(pair));
            i += 1;
        }
        assert(items@ =~= self@);
        items
    }
}

/// The 32-bit numbers that bytes stand for, four bytes each.
pub open spec fn oid_list(b: Seq<u8>) -> Seq<u32> {
    Seq::new(b.len() / 4, |i: int| parse::be32(b.skip(4 * i)) as u32)
}

/// A list of 32-bit numbers, as it stands in the frame.
#[derive(Debug, Clone, Copy)]
pub struct Oids<'a>(&'a [u8]);

impl<'a> View for Oids<'a> {
    type V = Seq<u32>;

    closed spec fn view(&self) -> Seq<u32> {
        oid_list(self.0@)
    }
}

impl<'a> Oids<'a> {
    /// Reads a counted list at `idx`, and moves `idx` behind it.
    fn parse(payload: &'a [u8], idx: &mut usize) -> (r: Result<Self, &'static str>)
        requires
            *old(idx) <= payload@.len(),
        ensures
            match c2s::oids_at(payload@, *old(idx) as int) {
                Ok((oids, end)) => r matches Ok(o) && o@ == oids && *final(idx) == end && end
                    <= payload@.len(),
                Err(e) => r matches Err(e2) && e2@ == e,
            },
    {
        let start: usize = *idx;
        let rest = bytes_from(payload, start);
        if rest.len() < 2 {
            return Err("Truncated: missing element count");
        }
        let total: usize = read_u16(rest) as usize * 4;
        if rest.len() - 2 < total {
            return Err("Truncated: elements out of bounds");
        }
        let list = bytes_at(rest, 2, total);
        *idx = start + 2 + total;
        proof {
            let oids = c2s::oids_at(payload@, start as int)->Ok_0.0;
            assert forall|i: int| 0 <= i < oids.len() implies oid_list(list@)[i] == oids[i] by {
                let (own, whole) = (list@.skip(4 * i), payload@.skip(start + 2 + 4 * i));
                assert(own[0] == whole[0] && own[1] == whole[1]);
                assert(own[2] == whole[2] && own[3] == whole[3]);
            }
            assert(oid_list(list@) =~= oids);
        }
        Ok(Oids(list))
    }

    /// The numbers in the list.
    pub fn iter(&self) -> (r: Vec<u32>)
        ensures
            r@ == self@,
    {
        let s = self.0;
        let mut items: Vec<u32> = Vec::new();
        let mut i: usize = 0;
        while i < s.len() / 4
            invariant
                s == self.0,
                i <= s.len() / 4,
                items@ =~= self@.take(i as int),
            decreases s.len() - i,
        {
            let four = bytes_at(s, 4 * i, 4);
            let ghost own = s@.skip(4 * i);
            assert(four@[0] == own[0] && four@[1] == own[1]);
            assert(four@[2] == own[2] && four@[3] == own[3]);
            items.push(read_u32(four));
            i += 1;
        }
        assert(items@ =~= self@);
        items
    }
}

/// Whether `count` values stand at the start of the bytes, each with its
/// length in front of it.
pub open spec fn values_fit(b: Seq<u8>, count: nat) -> bool
    decreases count,
{
    count == 0 || {
        let len = parse::signed32(parse::be32(b));
        &&& b.len() >= 4
        &&& len >= -1
        &&& len >= 0 ==> 4 + len <= b.len()
        &&& values_fit(after_value(b), (count - 1) as nat)
    }
}

/// The value that the bytes start with.
pub open spec fn first_value(b: Seq<u8>) -> Option<Seq<u8>> {
    let len = parse::signed32(parse::be32(b));
    if len == -1 {
        None
    } else {
        Some(b.subrange(4, 4 + len))
    }
}

/// What follows the value that the bytes start with.
pub open spec fn after_value(b: Seq<u8>) -> Seq<u8> {
    let len = parse::signed32(parse::be32(b));
    if len == -1 {
        b.skip(4)
    } else {
        b.skip(4).skip(len)
    }
}

/// The `count` values at the start of the bytes.
pub open spec fn first_values(b: Seq<u8>, count: nat) -> Seq<Option<Seq<u8>>>
    decreases count,
{
    if count == 0 {
        Seq::empty()
    } else {
        seq![first_value(b)] + first_values(after_value(b), (count - 1) as nat)
    }
}

/// A list of values that was read is found again in its own bytes.
proof fn lemma_values_found(b: Seq<u8>, at: int, end: int, count: nat)
    requires
        0 <= at <= b.len() <= usize::MAX,
        c2s::values_from(b, at, count) matches Ok((_, e)) && e == end,
    ensures
        at <= end <= b.len(),
        values_fit(b.subrange(at, end), count),
        first_values(b.subrange(at, end), count) == value_list(
            b,
            c2s::values_from(b, at, count)->Ok_0.0,
        ),
    decreases count,
{
    let values = c2s::values_from(b, at, count)->Ok_0.0;
    if count > 0 {
        let len = parse::signed32(parse::be32(b.skip(at)));
        let next = if len == -1 {
            at + 4
        } else {
            at + 4 + len
        };
        lemma_values_found(b, next, end, (count - 1) as nat);
        let own = b.subrange(at, end);
        let whole = b.skip(at);
        assert(own[0] == whole[0] && own[1] == whole[1]);
        assert(own[2] == whole[2] && own[3] == whole[3]);
        assert(after_value(own) =~= b.subrange(next, end));
        if len >= 0 {
            assert(own.subrange(4, 4 + len) =~= b.subrange(at + 4, at + 4 + len));
        }
        let rest = c2s::values_from(b, next, (count - 1) as nat)->Ok_0.0;
        assert(value_list(b, values) =~= seq![c2s::value_bytes(b, values[0])] + value_list(
            b,
            rest,
        ));
    } else {
        assert(value_list(b, values) =~= Seq::empty());
    }
}

/// How many bytes values take, each with its length in front of it.
pub open spec fn values_len(values: Seq<Option<Seq<u8>>>) -> int
    decreases values.len(),
{
    if values.len() == 0 {
        0
    } else {
        4 + (match values[0] {
            Some(bytes) => bytes.len() as int,
            None => 0,
        }) + values_len(values.drop_first())
    }
}

/// Values that were read from `at` on: how many there are, where they end, and the
/// length in front of each.
proof fn lemma_values_len(b: Seq<u8>, at: int, count: nat)
    requires
        0 <= at <= b.len() <= usize::MAX,
        c2s::values_from(b, at, count) is Ok,
    ensures
        ({
            let (values, end) = c2s::values_from(b, at, count)->Ok_0;
            let list = value_list(b, values);
            &&& list.len() == count
            &&& end == at + values_len(list)
            &&& forall|i: int|
                #![trigger list[i]]
                0 <= i < count ==> {
                    let len = parse::signed32(parse::be32(b.skip(at + values_len(list.take(i)))));
                    match list[i] {
                        Some(bytes) => bytes.len() == len,
                        None => len == -1,
                    }
                }
        }),
    decreases count,
{
    let (values, end) = c2s::values_from(b, at, count)->Ok_0;
    let list = value_list(b, values);
    if count > 0 {
        let len = parse::signed32(parse::be32(b.skip(at)));
        let next = if len == -1 {
            at + 4
        } else {
            at + 4 + len
        };
        lemma_values_len(b, next, (count - 1) as nat);
        let rest = value_list(b, c2s::values_from(b, next, (count - 1) as nat)->Ok_0.0);
        assert(list.drop_first() =~= rest);
        assert forall|i: int| #![trigger list[i]] 0 <= i < count implies {
            let len = parse::signed32(parse::be32(b.skip(at + values_len(list.take(i)))));
            match list[i] {
                Some(bytes) => bytes.len() == len,
                None => len == -1,
            }
        } by {
            if i > 0 {
                assert(rest[i - 1] == list[i]);
                assert(list.take(i).drop_first() =~= rest.take(i - 1));
                assert(list.take(i)[0] == list[0]);
            }
        }
    }
}

/// A counted list of values takes two bytes for the count, and for each value four for
/// its length and the bytes of the value. It has as many values as the count says, and
/// in front of each stands its length, or -1 where there is no value.
pub proof fn law_values_len(b: Seq<u8>, at: int)
    requires
        0 <= at <= b.len() <= usize::MAX,
        c2s::values_at(b, at) is Ok,
    ensures
        ({
            let (values, end) = c2s::values_at(b, at)->Ok_0;
            let list = value_list(b, values);
            &&& list.len() == parse::be16(b.skip(at))
            &&& end - at == 2 + values_len(list)
            &&& forall|i: int|
                #![trigger list[i]]
                0 <= i < list.len() ==> {
                    let len = parse::signed32(
                        parse::be32(b.skip(at + 2 + values_len(list.take(i)))),
                    );
                    match list[i] {
                        Some(bytes) => bytes.len() == len,
                        None => len == -1,
                    }
                }
        }),
{
    lemma_values_len(b, at + 2, parse::be16(b.skip(at)) as nat);
}

/// A counted list of values, as it stands in the frame.
#[derive(Debug, Clone, Copy)]
pub struct Values<'a>(&'a [u8]);

impl<'a> View for Values<'a> {
    type V = Seq<Option<Seq<u8>>>;

    closed spec fn view(&self) -> Seq<Option<Seq<u8>>> {
        first_values(self.0@.skip(2), parse::be16(self.0@) as nat)
    }
}

impl<'a> Values<'a> {
    /// The bytes hold the count and as many values.
    #[verifier::type_invariant]
    spec fn counted(self) -> bool {
        &&& self.0@.len() >= 2
        &&& values_fit(self.0@.skip(2), parse::be16(self.0@) as nat)
    }

    /// Reads a counted list at `idx`, and moves `idx` behind it.
    fn parse(payload: &'a [u8], idx: &mut usize) -> (r: Result<Self, &'static str>)
        requires
            *old(idx) <= payload@.len(),
        ensures
            match c2s::values_at(payload@, *old(idx) as int) {
                Ok((values, end)) => r matches Ok(v) && v@ == value_list(payload@, values)
                    && *final(idx) == end && end <= payload@.len(),
                Err(e) => r matches Err(e2) && e2@ == e,
            },
    {
        let start: usize = *idx;
        let rest = bytes_from(payload, start);
        if rest.len() < 2 {
            return Err("Truncated: missing value count");
        }
        let count: u16 = read_u16(rest);
        let mut at: usize = start + 2;
        let mut left: u16 = count;
        let ghost all = c2s::values_from(payload@, start + 2, count as nat);
        while left > 0
            invariant
                start + 2 <= at <= payload@.len() == payload.len(),
                left <= count,
                all matches Err(e) ==> c2s::values_from(payload@, at as int, left as nat) == Err::<
                    (Seq<Option<(usize, usize)>>, int),
                    Seq<char>,
                >(e),
                all matches Ok((_, end)) ==> (c2s::values_from(
                    payload@,
                    at as int,
                    left as nat,
                ) matches Ok((_, end2)) && end2 == end),
                c2s::values_at(payload@, start as int) == all,
                *old(idx) == start,
            decreases left,
        {
            let rest = bytes_from(payload, at);
            if rest.len() < 4 {
                return Err("Truncated: missing value length");
            }
            let len: i32 = read_i32(rest);
            at += 4;
            if len < -1 {
                return Err("Invalid value length");
            } else if len >= 0 {
                if payload.len() - at < len as usize {
                    return Err("Truncated: value out of bounds");
                }
                at += len as usize;
            }
            left -= 1;
        }
        *idx = at;
        let list = bytes_at(payload, start, at - start);
        proof {
            lemma_values_found(payload@, start + 2, at as int, count as nat);
            assert(list@.skip(2) =~= payload@.subrange(start + 2, at as int));
            assert(list@[0] == payload@.skip(start as int)[0]);
            assert(list@[1] == payload@.skip(start as int)[1]);
        }
        Ok(Values(list))
    }

    /// A walk over the values.
    pub fn iter(&self) -> (r: ValuesIter<'a>)
        ensures
            r@ == self@,
    {
        proof {
            use_type_invariant(self);
        }
        ValuesIter { buf: bytes_from(self.0, 2), remaining: read_u16(self.0) as usize }
    }
}

/// A walk over values. Its view is the values that are left.
pub struct ValuesIter<'a> {
    buf: &'a [u8],
    remaining: usize,
}

impl<'a> View for ValuesIter<'a> {
    type V = Seq<Option<Seq<u8>>>;

    closed spec fn view(&self) -> Seq<Option<Seq<u8>>> {
        first_values(self.buf@, self.remaining as nat)
    }
}

impl<'a> ValuesIter<'a> {
    /// The values that remain are all there.
    #[verifier::type_invariant]
    spec fn complete(self) -> bool {
        values_fit(self.buf@, self.remaining as nat)
    }

    /// The next value.
    pub fn next(&mut self) -> (r: Option<Option<&'a [u8]>>)
        ensures
            match r {
                Some(value) => old(self)@.len() > 0 && final(self)@ == old(self)@.drop_first() && (
                match value {
                    Some(bytes) => old(self)@[0] == Some(bytes@),
                    None => old(self)@[0] is None,
                }),
                None => old(self)@.len() == 0 && final(self)@ == old(self)@,
            },
    {
        proof {
            use_type_invariant(&*self);
        }
        if self.remaining == 0 {
            return None;
        }
        let len: i32 = read_i32(self.buf);
        let rest = bytes_from(self.buf, 4);
        let remaining: usize = self.remaining - 1;
        let ghost before = self@;
        assert(before.drop_first() =~= first_values(after_value(self.buf@), remaining as nat));
        if len == -1 {
            *self = ValuesIter { buf: rest, remaining };
            Some(None)
        } else {
            let value = bytes_at(rest, 0, len as usize);
            assert(value@ =~= self.buf@.subrange(4, 4 + len));
            *self = ValuesIter { buf: bytes_from(rest, len as usize), remaining };
            Some(Some(value))
        }
    }
}

/// Reads a message without a type byte from what follows its length.
fn parse_untagged<'a>(payload: &'a [u8]) -> (r: Result<PgC2S<'a>, &'static str>)
    ensures
        match untagged_message(payload@) {
            Ok(m) => r matches Ok(m2) && m2@ == m,
            Err(e) => r matches Err(e2) && e2@ == e,
        },
{
    if payload.len() < 4 {
        return Err("Truncated startup header");
    }
    let code: u32 = read_u32(payload);
    if code == tags::F_CANCEL_REQUEST {
        if payload.len() < 12 {
            return Err("Incomplete CancelRequest");
        }
        Ok(
            PgC2S::CancelRequest {
                process_id: read_u32(bytes_from(payload, 4)),
                secret_key: read_u32(bytes_from(payload, 8)),
            },
        )
    } else if code == tags::F_SSL_REQUEST {
        Ok(PgC2S::SSLRequest)
    } else if code == tags::F_GSS_REQUEST {
        Ok(PgC2S::GSSENCRequest)
    } else if code / 0x1_0000 == 3 {
        Ok(
            PgC2S::StartupMessage {
                version: code,
                parameters: RawParams(bytes_from(payload, 4)),
            },
        )
    } else {
        Err("Unknown headerless protocol version")
    }
}

/// Reads a Bind message.
fn parse_bind<'a>(payload: &'a [u8]) -> (r: Result<PgC2S<'a>, &'static str>)
    ensures
        match c2s::bind_body(payload@) {
            Ok(m) => r matches Ok(m2) && m2@ == resolved(m),
            Err(e) => r matches Err(e2) && e2@ == e,
        },
{
    let (portal, n) = read_c_string(payload)?;
    let (statement, m) = read_c_string(bytes_from(payload, n))?;
    let mut idx: usize = n + m;
    let parameter_format_codes = Codes::parse(payload, &mut idx)?;
    let parameters = Values::parse(payload, &mut idx)?;
    let result_format_codes = Codes::parse(payload, &mut idx)?;
    Ok(
        PgC2S::Bind {
            portal,
            statement,
            parameter_format_codes,
            parameters,
            result_format_codes,
        },
    )
}

/// Reads a FunctionCall message.
fn parse_function_call<'a>(payload: &'a [u8]) -> (r: Result<PgC2S<'a>, &'static str>)
    ensures
        match c2s::function_call_body(payload@) {
            Ok(m) => r matches Ok(m2) && m2@ == resolved(m),
            Err(e) => r matches Err(e2) && e2@ == e,
        },
{
    if payload.len() < 4 {
        return Err("Truncated FunctionCall: missing object id");
    }
    let object_id: u32 = read_u32(payload);
    let mut idx: usize = 4;
    let argument_format_codes = Codes::parse(payload, &mut idx)?;
    let arguments = Values::parse(payload, &mut idx)?;
    if payload.len() - idx < 2 {
        return Err("Truncated FunctionCall: missing result format code");
    }
    let result_format_code: i16 = read_i16(bytes_from(payload, idx));
    Ok(PgC2S::FunctionCall { object_id, argument_format_codes, arguments, result_format_code })
}

/// Reads the message with the type byte `tag` (zero where there is none).
pub fn parse_pg_message<'a>(tag: u8, payload: &'a [u8]) -> (r: Result<PgC2S<'a>, &'static str>)
    ensures
        match c2s_message(tag, payload@) {
            Ok(m) => r matches Ok(m2) && m2@ == m,
            Err(e) => r matches Err(e2) && e2@ == e,
        },
{
    if tag == 0 {
        return parse_untagged(payload);
    }
    if tag == tags::F_QUERY {
        let (query, _) = read_c_string(payload)?;
        Ok(PgC2S::Query(query))
    } else if tag == tags::F_PARSE {
        let (name, n) = read_c_string(payload)?;
        let (query, m) = read_c_string(bytes_from(payload, n))?;
        let mut idx: usize = n + m;
        let parameter_type_oids = Oids::parse(payload, &mut idx)?;
        Ok(PgC2S::Parse { name, query, parameter_type_oids })
    } else if tag == tags::F_BIND {
        parse_bind(payload)
    } else if tag == tags::F_EXECUTE {
        let (portal, len) = read_c_string(payload)?;
        if payload.len() - len < 4 {
            return Err("Truncated Execute: missing max_rows");
        }
        let max_rows: i32 = read_i32(bytes_from(payload, len));
        Ok(PgC2S::Execute { portal, max_rows })
    } else if tag == tags::F_FUNCTION_CALL {
        parse_function_call(payload)
    } else if tag == tags::F_DESCRIBE {
        if payload.is_empty() {
            return Err("Truncated Describe: missing target_type");
        }
        let (name, _) = read_c_string(bytes_from(payload, 1))?;
        Ok(PgC2S::Describe { target_type: payload[0], name })
    } else if tag == tags::F_CLOSE {
        if payload.is_empty() {
            return Err("Truncated Close: missing target_type");
        }
        let (name, _) = read_c_string(bytes_from(payload, 1))?;
        Ok(PgC2S::Close { target_type: payload[0], name })
    } else if tag == tags::F_SYNC {
        Ok(PgC2S::Sync)
    } else if tag == tags::F_FLUSH {
        Ok(PgC2S::Flush)
    } else if tag == tags::F_TERMINATE {
        Ok(PgC2S::Terminate)
    } else if tag == tags::F_COPY_DATA {
        Ok(PgC2S::CopyData(payload))
    } else if tag == tags::F_COPY_DONE {
        Ok(PgC2S::CopyDone)
    } else if tag == tags::F_COPY_FAIL {
        let (msg, _) = read_c_string(payload)?;
        Ok(PgC2S::CopyFail(msg))
    } else if tag == tags::F_PASSWORD_MESSAGE {
        let (pass, _) = read_c_string(payload)?;
        Ok(PgC2S::PasswordMessage(pass))
    } else {
        Ok(PgC2S::Unknown { tag, payload })
    }
}

/// The parameters of a startup message whose parameters are all readable are
/// walked one by one, in order, as they were read.
proof fn lemma_raw_params_read(b: Seq<u8>, at: int)
    requires
        0 <= at <= b.len() <= usize::MAX,
        c2s::startup_params_from(b, at) is Ok,
    ensures
        ({
            let params = c2s::startup_params_from(b, at)->Ok_0;
            raw_params(b.skip(at)) =~= Seq::new(
                params.len(),
                |i: int| c2s::param_texts(b, params[i])->Some_0,
            )
        }),
    decreases b.len() - at,
{
    let params = c2s::startup_params_from(b, at)->Ok_0;
    if at < b.len() {
        let own = b.skip(at);
        own.index_of_first_ensures(0u8);
        if let Ok((name, n)) = parse::c_string(own) {
            if name.len() > 0 {
                assert(own.skip(n) =~= b.skip(at + n));
                b.skip(at + n).index_of_first_ensures(0u8);
                if let Ok((value, m)) = parse::c_string(b.skip(at + n)) {
                    lemma_raw_params_read(b, at + n + m);
                    assert(own.skip(n).skip(m) =~= b.skip(at + n + m));
                    assert(own.take(n - 1) =~= b.subrange(at, at + n - 1));
                    assert(b.skip(at + n).take(m - 1) =~= b.subrange(at + n, at + n + m - 1));
                    assert(c2s::param_texts(b, params[0]) == Some((name, value)));
                    let rest = c2s::startup_params_from(b, at + n + m)->Ok_0;
                    assert(params =~= seq![params[0]] + rest);
                }
            }
        }
    }
}

/// Both readings of a frame agree: where a whole frame holds a message, its
/// type byte and payload hold the same message, and the parameters of a startup
/// message are walked as they were read.
pub proof fn law_readings_agree(frame: Seq<u8>)
    requires
        frame.len() <= usize::MAX,
    ensures
        c2s::message(frame) matches Ok(m) ==> c2s_message(
            frame[0],
            if frame[0] == 0 {
                frame.skip(4)
            } else {
                frame.skip(5)
            },
        ) == Ok::<PgC2SView, Seq<char>>(resolved(m)),
        c2s::message(frame) matches Ok(
            PgMsgView::StartupMessage { parameters_src, params, .. },
        ) ==> raw_params(parameters_src) == Seq::new(
            params.len(),
            |i: int| c2s::param_texts(parameters_src, params[i])->Some_0,
        ),
{
    if let Ok(PgMsgView::StartupMessage { parameters_src, params, .. }) = c2s::message(frame) {
        lemma_raw_params_read(parameters_src, 0);
        assert(parameters_src.skip(0) =~= parameters_src);
    }
}

} // verus!
