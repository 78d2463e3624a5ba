//! The messages that a PostgreSQL client sends, read from whole frames.
use vstd::prelude::*;
use vstd::utf8::*;

use crate::proto::tags;
use crate::utils::parse;
use crate::utils::parse::{bytes_at, bytes_from, read_c_string, read_i16, read_i32, read_u16, read_u32, utf8_text};

verus! {

/// A client message. Lists and texts are borrowed from the frame and from the
/// parser that read it; a value is given by its offset and length in the body.
pub enum PgMsg<'a> {
    SSLRequest,
    GSSENCRequest,
    StartupMessage {
        version: u32,
        parameters_src: &'a [u8],
        params: &'a [(usize, usize, usize, usize)],
    },
    CancelRequest { process_id: u32, secret_key: u32 },
    Bind {
        portal: &'a str,
        statement: &'a str,
        parameter_format_codes: &'a [i16],
        parameters_src: &'a [u8],
        parameters: &'a [Option<(usize, usize)>],
        result_format_codes: &'a [i16],
    },
    Close { target_type: u8, name: &'a str },
    Describe { target_type: u8, name: &'a str },
    Execute { portal: &'a str, max_rows: i32 },
    Flush,
    FunctionCall {
        object_id: u32,
        argument_format_codes: &'a [i16],
        arguments_src: &'a [u8],
        arguments: &'a [Option<(usize, usize)>],
        result_format_code: i16,
    },
    Parse { name: &'a str, query: &'a str, parameter_type_oids: &'a [u32] },
    PasswordMessage(&'a str),
    Query(&'a str),
    Sync,
    Terminate,
    CopyData(&'a [u8]),
    CopyDone,
    CopyFail(&'a str),
    Unknown { tag: u8, payload: &'a [u8] },
}

/// What a client message says.
#[verifier::ext_equal]
pub enum PgMsgView {
    SSLRequest,
    GSSENCRequest,
    StartupMessage {
        version: u32,
        parameters_src: Seq<u8>,
        params: Seq<(usize, usize, usize, usize)>,
    },
    CancelRequest { process_id: u32, secret_key: u32 },
    Bind {
        portal: Seq<char>,
        statement: Seq<char>,
        parameter_format_codes: Seq<i16>,
        parameters_src: Seq<u8>,
        parameters: Seq<Option<(usize, usize)>>,
        result_format_codes: Seq<i16>,
    },
    Close { target_type: u8, name: Seq<char> },
    Describe { target_type: u8, name: Seq<char> },
    Execute { portal: Seq<char>, max_rows: i32 },
    Flush,
    FunctionCall {
        object_id: u32,
        argument_format_codes: Seq<i16>,
        arguments_src: Seq<u8>,
        arguments: Seq<Option<(usize, usize)>>,
        result_format_code: i16,
    },
    Parse { name: Seq<char>, query: Seq<char>, parameter_type_oids: Seq<u32> },
    PasswordMessage(Seq<char>),
    Query(Seq<char>),
    Sync,
    Terminate,
    CopyData(Seq<u8>),
    CopyDone,
    CopyFail(Seq<char>),
    Unknown { tag: u8, payload: Seq<u8> },
}

impl<'a> View for PgMsg<'a> {
    type V = PgMsgView;

    open spec fn view(&self) -> PgMsgView {
        match *self {
            PgMsg::SSLRequest => PgMsgView::SSLRequest,
            PgMsg::GSSENCRequest => PgMsgView::GSSENCRequest,
            PgMsg::StartupMessage { version, parameters_src, params } => PgMsgView::StartupMessage {
                version,
                parameters_src: parameters_src@,
                params: params@,
            },
            PgMsg::CancelRequest { process_id, secret_key } => PgMsgView::CancelRequest {
                process_id,
                secret_key,
            },
            PgMsg::Bind {
                portal,
                statement,
                parameter_format_codes,
                parameters_src,
                parameters,
                result_format_codes,
            } => PgMsgView::Bind {
                portal: portal@,
                statement: statement@,
                parameter_format_codes: parameter_format_codes@,
                parameters_src: parameters_src@,
                parameters: parameters@,
                result_format_codes: result_format_codes@,
            },
            PgMsg::Close { target_type, name } => PgMsgView::Close { target_type, name: name@ },
            PgMsg::Describe { target_type, name } => PgMsgView::Describe {
                target_type,
                name: name@,
            },
            PgMsg::Execute { portal, max_rows } => PgMsgView::Execute { portal: portal@, max_rows },
            PgMsg::Flush => PgMsgView::Flush,
            PgMsg::FunctionCall {
                object_id,
                argument_format_codes,
                arguments_src,
                arguments,
                result_format_code,
            } => PgMsgView::FunctionCall {
                object_id,
                argument_format_codes: argument_format_codes@,
                arguments_src: arguments_src@,
                arguments: arguments@,
                result_format_code,
            },
            PgMsg::Parse { name, query, parameter_type_oids } => PgMsgView::Parse {
                name: name@,
                query: query@,
                parameter_type_oids: parameter_type_oids@,
            },
            PgMsg::PasswordMessage(p) => PgMsgView::PasswordMessage(p@),
            PgMsg::Query(q) => PgMsgView::Query(q@),
            PgMsg::Sync => PgMsgView::Sync,
            PgMsg::Terminate => PgMsgView::Terminate,
            PgMsg::CopyData(d) => PgMsgView::CopyData(d@),
            PgMsg::CopyDone => PgMsgView::CopyDone,
            PgMsg::CopyFail(m) => PgMsgView::CopyFail(m@),
            PgMsg::Unknown { tag, payload } => PgMsgView::Unknown { tag, payload: payload@ },
        }
    }
}

impl PgMsgView {
    /// Whether every offset and length lies within the bytes that it refers to.
    pub open spec fn wf(self) -> bool {
        match self {
            PgMsgView::StartupMessage { parameters_src, params, .. } => forall|i: int|
                #![trigger params[i]]
                0 <= i < params.len() ==> {
                    &&& params[i].0 + params[i].1 <= parameters_src.len()
                    &&& params[i].2 + params[i].3 <= parameters_src.len()
                },
            PgMsgView::Bind { parameters_src, parameters, .. } => values_inside(
                parameters_src,
                parameters,
            ),
            PgMsgView::FunctionCall { arguments_src, arguments, .. } => values_inside(
                arguments_src,
                arguments,
            ),
            _ => true,
        }
    }
}

/// Whether every value lies within `src`.
pub open spec fn values_inside(src: Seq<u8>, values: Seq<Option<(usize, usize)>>) -> bool {
    forall|i: int|
        #![trigger values[i]]
        0 <= i < values.len() ==> (values[i] matches Some((off, len)) ==> off + len <= src.len())
}

/// The bytes of a value.
pub open spec fn value_bytes(src: Seq<u8>, value: Option<(usize, usize)>) -> Option<Seq<u8>> {
    match value {
        Some((off, len)) => Some(src.subrange(off as int, off + len)),
        None => None,
    }
}

/// A name and its value in a startup message, where both are UTF-8.
pub open spec fn param_texts(src: Seq<u8>, p: (usize, usize, usize, usize)) -> Option<
    (Seq<char>, Seq<char>),
> {
    let k = src.subrange(p.0 as int, p.0 + p.1);
    let v = src.subrange(p.2 as int, p.2 + p.3);
    if valid_utf8(k) && valid_utf8(v) {
        Some((decode_utf8(k), decode_utf8(v)))
    } else {
        None
    }
}

impl<'a> PgMsg<'a> {
    /// The bytes of parameter `idx` of a Bind message. There are none where the
    /// parameter is null, or where the message is another.
    pub fn bind_param(&self, idx: usize) -> (r: Option<&'a [u8]>)
        requires
            self@.wf(),
            self@ matches PgMsgView::Bind { parameters, .. } ==> idx < parameters.len(),
        ensures
            match self@ {
                PgMsgView::Bind { parameters_src, parameters, .. } => match value_bytes(
                    parameters_src,
                    parameters[idx as int],
                ) {
                    Some(bytes) => r matches Some(s) && s@ == bytes,
                    None => r is None,
                },
                _ => r is None,
            },
    {
        match self {
            PgMsg::Bind { parameters_src, parameters, .. } => match parameters[idx] {
                Some((off, len)) => Some(bytes_at(parameters_src, off, len)),
                None => None,
            },
            _ => None,
        }
    }

    /// Name and value `i` of a startup message. There are none where one of them
    /// is not UTF-8, or where the message is another.
    pub fn startup_param(&self, i: usize) -> (r: Option<(&'a str, &'a str)>)
        requires
            self@.wf(),
            self@ matches PgMsgView::StartupMessage { params, .. } ==> i < params.len(),
        ensures
            match self@ {
                PgMsgView::StartupMessage { parameters_src, params, .. } => match param_texts(
                    parameters_src,
                    params[i as int],
                ) {
                    Some((k, v)) => r matches Some((k2, v2)) && k2@ == k && v2@ == v,
                    None => r is None,
                },
                _ => r is None,
            },
    {
        match self {
            PgMsg::StartupMessage { parameters_src, params, .. } => {
                let (ko, kl, vo, vl) = params[i];
                let k = utf8_text(bytes_at(parameters_src, ko, kl))?;
                let v = utf8_text(bytes_at(parameters_src, vo, vl))?;
                Some((k, v))
            },
            _ => None,
        }
    }
}

/// A counted list of 16-bit numbers at `at`, and where it ends.
pub open spec fn codes_at(b: Seq<u8>, at: int) -> Result<(Seq<i16>, int), Seq<char>> {
    if at + 2 > b.len() {
        Err("Truncated: missing element count"@)
    } else {
        let count = parse::be16(b.skip(at));
        if at + 2 + 2 * count > b.len() {
            Err("Truncated: elements out of bounds"@)
        } else {
            Ok(
                (
                    Seq::new(
                        count as nat,
                        |i: int| parse::signed16(parse::be16(b.skip(at + 2 + 2 * i))) as i16,
                    ),
                    at + 2 + 2 * count,
                ),
            )
        }
    }
}

/// A counted list of 32-bit numbers at `at`, and where it ends.
pub open spec fn oids_at(b: Seq<u8>, at: int) -> Result<(Seq<u32>, int), Seq<char>> {
    if at + 2 > b.len() {
        Err("Truncated: missing element count"@)
    } else {
        let count = parse::be16(b.skip(at));
        if at + 2 + 4 * count > b.len() {
            Err("Truncated: elements out of bounds"@)
        } else {
            Ok(
                (
                    Seq::new(count as nat, |i: int| parse::be32(b.skip(at + 2 + 4 * i)) as u32),
                    at + 2 + 4 * count,
                ),
            )
        }
    }
}

/// `count` values from `at` on, each with its length in front of it, where
/// the length -1 stands for no value; and where they end.
pub open spec fn values_from(b: Seq<u8>, at: int, count: nat) -> Result<
    (Seq<Option<(usize, usize)>>, int),
    Seq<char>,
>
    decreases count,
{
    if count == 0 {
        Ok((Seq::empty(), at))
    } else if at + 4 > b.len() {
        Err("Truncated: missing value length"@)
    } else {
        let len = parse::signed32(parse::be32(b.skip(at)));
        if len < -1 {
            Err("Invalid value length"@)
        } else if len >= 0 && at + 4 + len > b.len() {
            Err("Truncated: value out of bounds"@)
        } else {
            let (value, next) = if len == -1 {
                (None, at + 4)
            } else {
                (Some(((at + 4) as usize, len as usize)), at + 4 + len)
            };
            match values_from(b, next, (count - 1) as nat) {
                Ok((rest, end)) => Ok((seq![value] + rest, end)),
                Err(e) => Err(e),
            }
        }
    }
}

/// A counted list of values at `at`, and where it ends.
pub open spec fn values_at(b: Seq<u8>, at: int) -> Result<
    (Seq<Option<(usize, usize)>>, int),
    Seq<char>,
> {
    if at + 2 > b.len() {
        Err("Truncated: missing value count"@)
    } else {
        values_from(b, at + 2, parse::be16(b.skip(at)) as nat)
    }
}

/// The name and value pairs of a startup message from `at` on, up to an empty
/// name or the end of the bytes: offset and length of each name and value.
pub open spec fn startup_params_from(b: Seq<u8>, at: int) -> Result<
    Seq<(usize, usize, usize, usize)>,
    Seq<char>,
>
    decreases b.len() - at,
    when 0 <= at
{
    if at >= b.len() {
        Ok(Seq::empty())
    } else {
        match parse::c_string(b.skip(at)) {
            Err(e) => Err(e),
            Ok((name, name_len)) => if name.len() == 0 {
                Ok(Seq::empty())
            } else {
                match parse::c_string(b.skip(at + name_len)) {
                    Err(e) => Err(e),
                    Ok((_, value_len)) => {
                        proof {
                            b.skip(at).index_of_first_ensures(0u8);
                            b.skip(at + name_len).index_of_first_ensures(0u8);
                        }
                        match startup_params_from(b, at + name_len + value_len) {
                            Err(e) => Err(e),
                            Ok(rest) => Ok(
                                seq![
                                    (
                                        at as usize,
                                        (name_len - 1) as usize,
                                        (at + name_len) as usize,
                                        (value_len - 1) as usize,
                                    ),
                                ] + rest,
                            ),
                        }
                    },
                }
            },
        }
    }
}

/// The messages that have no type byte: what follows the length of the frame.
pub open spec fn headerless(body: Seq<u8>) -> Result<PgMsgView, Seq<char>> {
    let code = parse::be32(body);
    if code == tags::F_CANCEL_REQUEST {
        if body.len() < 12 {
            Err("Incomplete CancelRequest"@)
        } else {
            Ok(
                PgMsgView::CancelRequest {
                    process_id: parse::be32(body.skip(4)) as u32,
                    secret_key: parse::be32(body.skip(8)) as u32,
                },
            )
        }
    } else if code == tags::F_SSL_REQUEST {
        Ok(PgMsgView::SSLRequest)
    } else if code == tags::F_GSS_REQUEST {
        Ok(PgMsgView::GSSENCRequest)
    } else if code / 0x1_0000 == 3 {
        match startup_params_from(body.skip(4), 0) {
            Err(e) => Err(e),
            Ok(params) => Ok(
                PgMsgView::StartupMessage {
                    version: code as u32,
                    parameters_src: body.skip(4),
                    params,
                },
            ),
        }
    } else {
        Err("Unknown headerless protocol version"@)
    }
}

/// A message that consists of one string.
pub open spec fn one_string(body: Seq<u8>, f: spec_fn(Seq<char>) -> PgMsgView) -> Result<
    PgMsgView,
    Seq<char>,
> {
    match parse::c_string(body) {
        Err(e) => Err(e),
        Ok((s, _)) => Ok(f(s)),
    }
}

/// The body of a Parse message: two strings and a list of type numbers.
pub open spec fn parse_body(body: Seq<u8>) -> Result<PgMsgView, Seq<char>> {
    match parse::c_string(body) {
        Err(e) => Err(e),
        Ok((name, n)) => match parse::c_string(body.skip(n)) {
            Err(e) => Err(e),
            Ok((query, m)) => match oids_at(body, n + m) {
                Err(e) => Err(e),
                Ok((oids, _)) => Ok(
                    PgMsgView::Parse { name, query, parameter_type_oids: oids },
                ),
            },
        },
    }
}

/// What follows the two strings of a Bind message: the format codes of the
/// parameters, the parameters, and the format codes of the results.
pub open spec fn bind_lists(body: Seq<u8>, at: int) -> Result<
    (Seq<i16>, Seq<Option<(usize, usize)>>, Seq<i16>),
    Seq<char>,
> {
    match codes_at(body, at) {
        Err(e) => Err(e),
        Ok((formats, at2)) => match values_at(body, at2) {
            Err(e) => Err(e),
            Ok((values, at3)) => match codes_at(body, at3) {
                Err(e) => Err(e),
                Ok((results, _)) => Ok((formats, values, results)),
            },
        },
    }
}

/// The body of a Bind message.
pub open spec fn bind_body(body: Seq<u8>) -> Result<PgMsgView, Seq<char>> {
    match parse::c_string(body) {
        Err(e) => Err(e),
        Ok((portal, n)) => match parse::c_string(body.skip(n)) {
            Err(e) => Err(e),
            Ok((statement, m)) => match bind_lists(body, n + m) {
                Err(e) => Err(e),
                Ok((formats, values, results)) => Ok(
                    PgMsgView::Bind {
                        portal,
                        statement,
                        parameter_format_codes: formats,
                        parameters_src: body,
                        parameters: values,
                        result_format_codes: results,
                    },
                ),
            },
        },
    }
}

/// The body of an Execute message.
pub open spec fn execute_body(body: Seq<u8>) -> Result<PgMsgView, Seq<char>> {
    match parse::c_string(body) {
        Err(e) => Err(e),
        Ok((portal, n)) => if n + 4 > body.len() {
            Err("Truncated Execute: missing max_rows"@)
        } else {
            Ok(
                PgMsgView::Execute {
                    portal,
                    max_rows: parse::signed32(parse::be32(body.skip(n))) as i32,
                },
            )
        },
    }
}

/// The body of a FunctionCall message.
pub open spec fn function_call_body(body: Seq<u8>) -> Result<PgMsgView, Seq<char>> {
    if body.len() < 4 {
        Err("Truncated FunctionCall: missing object id"@)
    } else {
        match codes_at(body, 4) {
            Err(e) => Err(e),
            Ok((formats, at2)) => match values_at(body, at2) {
                Err(e) => Err(e),
                Ok((values, at3)) => if at3 + 2 > body.len() {
                    Err("Truncated FunctionCall: missing result format code"@)
                } else {
                    Ok(
                        PgMsgView::FunctionCall {
                            object_id: parse::be32(body) as u32,
                            argument_format_codes: formats,
                            arguments_src: body,
                            arguments: values,
                            result_format_code: parse::signed16(
                                parse::be16(body.skip(at3)),
                            ) as i16,
                        },
                    )
                },
            },
        }
    }
}

/// A message with the type byte `tag`, read from what follows the length.
pub open spec fn tagged(tag: u8, body: Seq<u8>) -> Result<PgMsgView, Seq<char>> {
    if tag == tags::F_QUERY {
        one_string(body, |s| PgMsgView::Query(s))
    } else if tag == tags::F_PARSE {
        parse_body(body)
    } else if tag == tags::F_BIND {
        bind_body(body)
    } else if tag == tags::F_EXECUTE {
        execute_body(body)
    } else if tag == tags::F_FUNCTION_CALL {
        function_call_body(body)
    } else if tag == tags::F_DESCRIBE {
        if body.len() == 0 {
            Err("Truncated Describe: missing target_type"@)
        } else {
            one_string(
                body.skip(1),
                |s| PgMsgView::Describe { target_type: body[0], name: s },
            )
        }
    } else if tag == tags::F_CLOSE {
        if body.len() == 0 {
            Err("Truncated Close: missing target_type"@)
        } else {
            one_string(body.skip(1), |s| PgMsgView::Close { target_type: body[0], name: s })
        }
    } else if tag == tags::F_SYNC {
        Ok(PgMsgView::Sync)
    } else if tag == tags::F_FLUSH {
        Ok(PgMsgView::Flush)
    } else if tag == tags::F_TERMINATE {
        Ok(PgMsgView::Terminate)
    } else if tag == tags::F_COPY_DATA {
        Ok(PgMsgView::CopyData(body))
    } else if tag == tags::F_COPY_DONE {
        Ok(PgMsgView::CopyDone)
    } else if tag == tags::F_COPY_FAIL {
        one_string(body, |s| PgMsgView::CopyFail(s))
    } else if tag == tags::F_PASSWORD_MESSAGE {
        one_string(body, |s| PgMsgView::PasswordMessage(s))
    } else {
        Ok(PgMsgView::Unknown { tag, payload: body })
    }
}

/// The message that a whole frame holds, or why it holds none. A frame whose
/// first byte is zero has no type byte: that byte belongs to the length.
pub open spec fn message(frame: Seq<u8>) -> Result<PgMsgView, Seq<char>> {
    if frame.len() < 4 {
        Err("Truncated frame"@)
    } else if frame[0] == 0 {
        if frame.len() < 8 {
            Err("Truncated startup header"@)
        } else {
            headerless(frame.skip(4))
        }
    } else if frame.len() < 5 {
        Err("Truncated frame"@)
    } else {
        tagged(frame[0], frame.skip(5))
    }
}

/// Values that were read lie within the bytes that they were read from.
proof fn lemma_values_inside(b: Seq<u8>, at: int, count: nat)
    requires
        0 <= at <= b.len() <= usize::MAX,
    ensures
        values_from(b, at, count) matches Ok((values, end)) ==> values_inside(b, values) && at
            <= end <= b.len() && values.len() == count,
    decreases count,
{
    if count > 0 && at + 4 <= b.len() {
        let len = parse::signed32(parse::be32(b.skip(at)));
        let next = if len == -1 {
            at + 4
        } else {
            at + 4 + len
        };
        if len >= -1 && next <= b.len() {
            lemma_values_inside(b, next, (count - 1) as nat);
        }
    }
}

/// Startup parameters that were read lie within the bytes that they were read
/// from, and are UTF-8.
proof fn lemma_startup_inside(b: Seq<u8>, at: int)
    requires
        0 <= at,
        b.len() <= usize::MAX,
    ensures
        startup_params_from(b, at) matches Ok(params) ==> forall|i: int|
            #![trigger params[i]]
            0 <= i < params.len() ==> {
                &&& params[i].0 + params[i].1 <= b.len()
                &&& params[i].2 + params[i].3 <= b.len()
                &&& param_texts(b, params[i]) is Some
            },
    decreases b.len() - at,
{
    if at < b.len() {
        b.skip(at).index_of_first_ensures(0u8);
        if let Ok((name, n)) = parse::c_string(b.skip(at)) {
            if name.len() > 0 {
                b.skip(at + n).index_of_first_ensures(0u8);
                if let Ok((value, m)) = parse::c_string(b.skip(at + n)) {
                    lemma_startup_inside(b, at + n + m);
                    assert(b.skip(at).take(n - 1) =~= b.subrange(at, at + n - 1));
                    assert(b.skip(at + n).take(m - 1) =~= b.subrange(at + n, at + n + m - 1));
                }
            }
        }
    }
}

/// Whatever a frame is read as refers to bytes of that frame only, and the
/// parameters of a startup message are all text.
pub proof fn law_message_wf(frame: Seq<u8>)
    requires
        frame.len() <= usize::MAX,
    ensures
        message(frame) matches Ok(m) ==> m.wf(),
        message(frame) matches Ok(
            PgMsgView::StartupMessage { parameters_src, params, .. },
        ) ==> forall|i: int|
            0 <= i < params.len() ==> param_texts(parameters_src, #[trigger] params[i]) is Some,
{
    if frame.len() >= 8 && frame[0] == 0 {
        lemma_startup_inside(frame.skip(8), 0);
        assert(frame.skip(4).skip(4) =~= frame.skip(8));
    }
    if frame.len() >= 5 && frame[0] != 0 {
        let body = frame.skip(5);
        if frame[0] == tags::F_FUNCTION_CALL {
            if let Ok((_, at)) = codes_at(body, 4) {
                if at + 2 <= body.len() {
                    lemma_values_inside(body, at + 2, parse::be16(body.skip(at)) as nat);
                }
            }
        } else if frame[0] == tags::F_BIND {
            body.index_of_first_ensures(0u8);
            if let Ok((_, n)) = parse::c_string(body) {
                body.skip(n).index_of_first_ensures(0u8);
                if let Ok((_, m)) = parse::c_string(body.skip(n)) {
                    if let Ok((_, at)) = codes_at(body, n + m) {
                        if at + 2 <= body.len() {
                            lemma_values_inside(body, at + 2, parse::be16(body.skip(at)) as nat);
                        }
                    }
                }
            }
        }
    }
}

/// Reads client messages. It keeps the lists of the message read last, so that
/// reading many messages allocates little.
pub struct PgMsgParser {
    pub parameter_format_codes: Vec<i16>,
    pub parameters: Vec<Option<(usize, usize)>>,
    pub result_format_codes: Vec<i16>,
    pub argument_format_codes: Vec<i16>,
    pub arguments: Vec<Option<(usize, usize)>>,
    pub parameter_type_oids: Vec<u32>,
    pub startup_params: Vec<(usize, usize, usize, usize)>,
}

impl PgMsgParser {
    /// Whether every list is empty.
    pub open spec fn is_clear(&self) -> bool {
        &&& self.parameter_format_codes@.len() == 0
        &&& self.parameters@.len() == 0
        &&& self.result_format_codes@.len() == 0
        &&& self.argument_format_codes@.len() == 0
        &&& self.arguments@.len() == 0
        &&& self.parameter_type_oids@.len() == 0
        &&& self.startup_params@.len() == 0
    }

    /// Whether the lists are those of the message `m`, and the others empty.
    pub open spec fn holds(&self, m: PgMsgView) -> bool {
        &&& self.startup_params@ =~= match m {
            PgMsgView::StartupMessage { params, .. } => params,
            _ => Seq::empty(),
        }
        &&& self.parameter_type_oids@ =~= match m {
            PgMsgView::Parse { parameter_type_oids, .. } => parameter_type_oids,
            _ => Seq::empty(),
        }
        &&& self.parameter_format_codes@ =~= match m {
            PgMsgView::Bind { parameter_format_codes, .. } => parameter_format_codes,
            _ => Seq::empty(),
        }
        &&& self.parameters@ =~= match m {
            PgMsgView::Bind { parameters, .. } => parameters,
            _ => Seq::empty(),
        }
        &&& self.result_format_codes@ =~= match m {
            PgMsgView::Bind { result_format_codes, .. } => result_format_codes,
            _ => Seq::empty(),
        }
        &&& self.argument_format_codes@ =~= match m {
            PgMsgView::FunctionCall { argument_format_codes, .. } => argument_format_codes,
            _ => Seq::empty(),
        }
        &&& self.arguments@ =~= match m {
            PgMsgView::FunctionCall { arguments, .. } => arguments,
            _ => Seq::empty(),
        }
    }

    /// A parser without lists.
    pub fn new() -> (r: Self)
        ensures
            r.is_clear(),
    {
        PgMsgParser {
            parameter_format_codes: Vec::new(),
            parameters: Vec::new(),
            result_format_codes: Vec::new(),
            argument_format_codes: Vec::new(),
            arguments: Vec::new(),
            parameter_type_oids: Vec::new(),
            startup_params: Vec::new(),
        }
    }

    fn clear(&mut self)
        ensures
            final(self).is_clear(),
    {
        self.parameter_format_codes.clear();
        self.parameters.clear();
        self.result_format_codes.clear();
        self.argument_format_codes.clear();
        self.arguments.clear();
        self.parameter_type_oids.clear();
        self.startup_params.clear();
    }

    /// Appends the numbers of the counted list at `idx`, and moves `idx` behind
    /// the list.
    fn read_codes(payload: &[u8], idx: &mut usize, out: &mut Vec<i16>) -> (r: Result<
        (),
        &'static str,
    >)
        requires
            *old(idx) <= payload@.len(),
        ensures
            match codes_at(payload@, *old(idx) as int) {
                Ok((codes, end)) => r is Ok && *final(idx) == end && end <= payload@.len()
                    && final(out)@ == old(out)@ + codes,
                Err(e) => r matches Err(e2) && e2@ == e,
            },
    {
        if payload.len() - *idx < 2 {
            return Err("Truncated: missing element count");
        }
        let at: usize = *idx;
        let count: usize = read_u16(bytes_from(payload, at)) as usize;
        let start: usize = at + 2;
        if payload.len() - start < count * 2 {
            return Err("Truncated: elements out of bounds");
        }
        let ghost all = codes_at(payload@, at as int)->Ok_0.0;
        let mut i: usize = 0;
        assert(out@ =~= old(out)@ + all.take(0));
        while i < count
            invariant
                i <= count <= 0xffff,
                start + 2 * count <= payload@.len(),
                payload@.len() <= usize::MAX,
                all.len() == count,
                forall|k: int|
                    0 <= k < count ==> #[trigger] all[k] == parse::signed16(
                        parse::be16(payload@.skip(start + 2 * k)),
                    ) as i16,
                out@ == old(out)@ + all.take(i as int),
            decreases count - i,
        {
            let off: usize = start + i * 2;
            out.push(read_i16(bytes_from(payload, off)));
            assert(all.take(i + 1) =~= all.take(i as int).push(all[i as int]));
            assert(out@ =~= old(out)@ + all.take(i + 1));
            i += 1;
        }
        assert(all.take(i as int) =~= all);
        *idx = start + count * 2;
        Ok(())
    }

    /// Appends the numbers of the counted list at `idx`, and moves `idx` behind
    /// the list.
    fn read_oids(payload: &[u8], idx: &mut usize, out: &mut Vec<u32>) -> (r: Result<
        (),
        &'static str,
    >)
        requires
            *old(idx) <= payload@.len(),
        ensures
            match oids_at(payload@, *old(idx) as int) {
                Ok((oids, end)) => r is Ok && *final(idx) == end && end <= payload@.len()
                    && final(out)@ == old(out)@ + oids,
                Err(e) => r matches Err(e2) && e2@ == e,
            },
    {
        if payload.len() - *idx < 2 {
            return Err("Truncated: missing element count");
        }
        let at: usize = *idx;
        let count: usize = read_u16(bytes_from(payload, at)) as usize;
        let start: usize = at + 2;
        if payload.len() - start < count * 4 {
            return Err("Truncated: elements out of bounds");
        }
        let ghost all = oids_at(payload@, at as int)->Ok_0.0;
        let mut i: usize = 0;
        assert(out@ =~= old(out)@ + all.take(0));
        while i < count
            invariant
                i <= count <= 0xffff,
                start + 4 * count <= payload@.len(),
                payload@.len() <= usize::MAX,
                all.len() == count,
                forall|k: int|
                    0 <= k < count ==> #[trigger] all[k] == parse::be32(
                        payload@.skip(start + 4 * k),
                    ) as u32,
                out@ == old(out)@ + all.take(i as int),
            decreases count - i,
        {
            let off: usize = start + i * 4;
            out.push(read_u32(bytes_from(payload, off)));
            assert(all.take(i + 1) =~= all.take(i as int).push(all[i as int]));
            assert(out@ =~= old(out)@ + all.take(i + 1));
            i += 1;
        }
        assert(all.take(i as int) =~= all);
        *idx = start + count * 4;
        Ok(())
    }

    /// Appends the values of the counted list at `idx`, and moves `idx` behind
    /// the list.
    fn read_values(
        payload: &[u8],
        idx: &mut usize,
        out: &mut Vec<Option<(usize, usize)>>,
    ) -> (r: Result<(), &'static str>)
        requires
            *old(idx) <= payload@.len(),
        ensures
            match values_at(payload@, *old(idx) as int) {
                Ok((values, end)) => r is Ok && *final(idx) == end && end <= payload@.len()
                    && final(out)@ == old(out)@ + values,
                Err(e) => r matches Err(e2) && e2@ == e,
            },
    {
        if payload.len() - *idx < 2 {
            return Err("Truncated: missing value count");
        }
        let at: usize = *idx;
        let count: usize = read_u16(bytes_from(payload, at)) as usize;
        *idx = at + 2;
        let ghost all = values_from(payload@, at + 2, count as nat);
        let ghost mut done = Seq::<Option<(usize, usize)>>::empty();
        let mut i: usize = 0;
        assert(all matches Ok((v, _)) ==> done + v =~= v);
        while i < count
            invariant
                i <= count,
                *idx <= payload@.len(),
                payload@.len() <= usize::MAX,
                all == values_at(payload@, *old(idx) as int),
                out@ == old(out)@ + done,
                match values_from(payload@, *idx as int, (count - i) as nat) {
                    Ok((rest, end)) => all == Ok::<_, Seq<char>>((done + rest, end)),
                    Err(e) => all == Err::<(Seq<Option<(usize, usize)>>, int), _>(e),
                },
            decreases count - i,
        {
            if payload.len() - *idx < 4 {
                return Err("Truncated: missing value length");
            }
            let here: usize = *idx;
            let len: i32 = read_i32(bytes_from(payload, here));
            *idx = here + 4;
            if len < -1 {
                return Err("Invalid value length");
            }
            let ghost before = done;
            if len == -1 {
                out.push(None);
                proof {
                    done = done.push(None);
                }
            } else {
                let ulen: usize = len as usize;
                if payload.len() - *idx < ulen {
                    return Err("Truncated: value out of bounds");
                }
                out.push(Some((*idx, ulen)));
                proof {
                    done = done.push(Some((*idx, ulen)));
                }
                *idx = *idx + ulen;
            }
            i += 1;
            proof {
                assert(out@ =~= old(out)@ + done);
                match values_from(payload@, *idx as int, (count - i) as nat) {
                    Ok((rest, _)) => {
                        assert(before + (seq![done.last()] + rest) =~= done + rest);
                    },
                    Err(_) => {},
                }
            }
        }
        assert(all matches Ok((v, _)) ==> done =~= v);
        Ok(())
    }

    /// Appends the name and value pairs of a startup message.
    fn read_startup_params(
        payload: &[u8],
        out: &mut Vec<(usize, usize, usize, usize)>,
    ) -> (r: Result<(), &'static str>)
        ensures
            match startup_params_from(payload@, 0) {
                Ok(params) => r is Ok && final(out)@ == old(out)@ + params,
                Err(e) => r matches Err(e2) && e2@ == e,
            },
    {
        let ghost all = startup_params_from(payload@, 0);
        let ghost mut done = Seq::<(usize, usize, usize, usize)>::empty();
        let mut off: usize = 0;
        assert(all matches Ok(v) ==> done + v =~= v);
        assert(out@ =~= old(out)@ + done);
        while off < payload.len()
            invariant
                off <= payload@.len(),
                all == startup_params_from(payload@, 0),
                out@ == old(out)@ + done,
                match startup_params_from(payload@, off as int) {
                    Ok(rest) => all == Ok::<_, Seq<char>>(done + rest),
                    Err(e) => all == Err::<Seq<(usize, usize, usize, usize)>, _>(e),
                },
            ensures
                all matches Ok(v) && out@ == old(out)@ + v,
            decreases payload@.len() - off,
        {
            let (k, klen) = read_c_string(bytes_from(payload, off))?;
            if k.is_empty() {
                assert(done + Seq::empty() =~= done);
                break;
            }
            let k_off: usize = off;
            off = off + klen;
            let (_v, vlen) = read_c_string(bytes_from(payload, off))?;
            let v_off: usize = off;
            off = off + vlen;
            let ghost before = done;
            out.push((k_off, klen - 1, v_off, vlen - 1));
            proof {
                done = done.push((k_off, (klen - 1) as usize, v_off, (vlen - 1) as usize));
                assert(out@ =~= old(out)@ + done);
                match startup_params_from(payload@, off as int) {
                    Ok(rest) => {
                        assert(before + (seq![done.last()] + rest) =~= done + rest);
                    },
                    Err(_) => {},
                }
            }
        }
        Ok(())
    }

    /// Reads a message that has no type byte from what follows its length.
    fn parse_headerless<'a>(&'a mut self, body: &'a [u8]) -> (r: Result<PgMsg<'a>, &'static str>)
        requires
            old(self).is_clear(),
            body@.len() >= 4,
        ensures
            match headerless(body@) {
                Ok(m) => r matches Ok(m2) && m2@ == m && final(self).holds(m),
                Err(e) => r matches Err(e2) && e2@ == e,
            },
    {
        let code_or_ver: u32 = read_u32(body);
        if code_or_ver == tags::F_CANCEL_REQUEST {
            if body.len() < 12 {
                return Err("Incomplete CancelRequest");
            }
            return Ok(
                PgMsg::CancelRequest {
                    process_id: read_u32(bytes_from(body, 4)),
                    secret_key: read_u32(bytes_from(body, 8)),
                },
            );
        }
        if code_or_ver == tags::F_SSL_REQUEST {
            return Ok(PgMsg::SSLRequest);
        }
        if code_or_ver == tags::F_GSS_REQUEST {
            return Ok(PgMsg::GSSENCRequest);
        }
        if code_or_ver / 0x1_0000 == 3 {
            let params_src = bytes_from(body, 4);
            Self::read_startup_params(params_src, &mut self.startup_params)?;
            assert(self.startup_params@ =~= startup_params_from(params_src@, 0)->Ok_0);
            return Ok(
                PgMsg::StartupMessage {
                    version: code_or_ver,
                    parameters_src: params_src,
                    params: self.startup_params.as_slice(),
                },
            );
        }
        Err("Unknown headerless protocol version")
    }

    fn parse_parse<'a>(&'a mut self, body: &'a [u8]) -> (r: Result<PgMsg<'a>, &'static str>)
        requires
            old(self).is_clear(),
        ensures
            match parse_body(body@) {
                Ok(m) => r matches Ok(m2) && m2@ == m && final(self).holds(m),
                Err(e) => r matches Err(e2) && e2@ == e,
            },
    {
        let (name, len) = read_c_string(body)?;
        let mut idx: usize = len;
        let (query, len2) = read_c_string(bytes_from(body, idx))?;
        idx = idx + len2;
        Self::read_oids(body, &mut idx, &mut self.parameter_type_oids)?;
        assert(self.parameter_type_oids@ =~= oids_at(body@, len + len2)->Ok_0.0);
        Ok(
            PgMsg::Parse {
                name,
                query,
                parameter_type_oids: self.parameter_type_oids.as_slice(),
            },
        )
    }

    fn parse_bind<'a>(&'a mut self, body: &'a [u8]) -> (r: Result<PgMsg<'a>, &'static str>)
        requires
            old(self).is_clear(),
        ensures
            match bind_body(body@) {
                Ok(m) => r matches Ok(m2) && m2@ == m && final(self).holds(m),
                Err(e) => r matches Err(e2) && e2@ == e,
            },
    {
        let (portal, len) = read_c_string(body)?;
        let mut idx: usize = len;
        let (statement, len2) = read_c_string(bytes_from(body, idx))?;
        idx = idx + len2;
        Self::read_codes(body, &mut idx, &mut self.parameter_format_codes)?;
        let ghost at2 = idx;
        assert(self.parameter_format_codes@ =~= codes_at(body@, len + len2)->Ok_0.0);
        Self::read_values(body, &mut idx, &mut self.parameters)?;
        let ghost at3 = idx;
        assert(self.parameters@ =~= values_at(body@, at2 as int)->Ok_0.0);
        Self::read_codes(body, &mut idx, &mut self.result_format_codes)?;
        assert(self.result_format_codes@ =~= codes_at(body@, at3 as int)->Ok_0.0);
        Ok(
            PgMsg::Bind {
                portal,
                statement,
                parameter_format_codes: self.parameter_format_codes.as_slice(),
                parameters_src: body,
                parameters: self.parameters.as_slice(),
                result_format_codes: self.result_format_codes.as_slice(),
            },
        )
    }

    fn parse_function_call<'a>(&'a mut self, body: &'a [u8]) -> (r: Result<
        PgMsg<'a>,
        &'static str,
    >)
        requires
            old(self).is_clear(),
        ensures
            match function_call_body(body@) {
                Ok(m) => r matches Ok(m2) && m2@ == m && final(self).holds(m),
                Err(e) => r matches Err(e2) && e2@ == e,
            },
    {
        if body.len() < 4 {
            return Err("Truncated FunctionCall: missing object id");
        }
        let object_id: u32 = read_u32(body);
        let mut idx: usize = 4;
        Self::read_codes(body, &mut idx, &mut self.argument_format_codes)?;
        let ghost at2 = idx;
        assert(self.argument_format_codes@ =~= codes_at(body@, 4)->Ok_0.0);
        Self::read_values(body, &mut idx, &mut self.arguments)?;
        assert(self.arguments@ =~= values_at(body@, at2 as int)->Ok_0.0);
        if body.len() - idx < 2 {
            return Err("Truncated FunctionCall: missing result format code");
        }
        let result_format_code: i16 = read_i16(bytes_from(body, idx));
        Ok(
            PgMsg::FunctionCall {
                object_id,
                argument_format_codes: self.argument_format_codes.as_slice(),
                arguments_src: body,
                arguments: self.arguments.as_slice(),
                result_format_code,
            },
        )
    }

    /// Reads the message that a whole frame holds.
    pub fn parse<'a>(&'a mut self, payload: &'a [u8]) -> (r: Result<PgMsg<'a>, &'static str>)
        ensures
            match message(payload@) {
                Ok(m) => r matches Ok(m2) && m2@ == m && m.wf() && final(self).holds(m),
                Err(e) => r matches Err(e2) && e2@ == e,
            },
    {
        let len: usize = payload.len();
        proof {
            law_message_wf(payload@);
        }
        self.clear();
        if len < 4 {
            return Err("Truncated frame");
        }
        let tag: u8 = payload[0];
        if tag == 0 {
            if payload.len() < 8 {
                return Err("Truncated startup header");
            }
            let body = bytes_from(payload, 4);
            return self.parse_headerless(body);
        }
        if payload.len() < 5 {
            return Err("Truncated frame");
        }
        let body = bytes_from(payload, 5);
        if tag == tags::F_QUERY {
            let (query, _) = read_c_string(body)?;
            Ok(PgMsg::Query(query))
        } else if tag == tags::F_PARSE {
            self.parse_parse(body)
        } else if tag == tags::F_BIND {
            self.parse_bind(body)
        } else if tag == tags::F_EXECUTE {
            let (portal, len) = read_c_string(body)?;
            if body.len() - len < 4 {
                return Err("Truncated Execute: missing max_rows");
            }
            let max_rows: i32 = read_i32(bytes_from(body, len));
            Ok(PgMsg::Execute { portal, max_rows })
        } else if tag == tags::F_FUNCTION_CALL {
            self.parse_function_call(body)
        } else if tag == tags::F_DESCRIBE {
            if body.is_empty() {
                return Err("Truncated Describe: missing target_type");
            }
            let target_type: u8 = body[0];
            let (name, _) = read_c_string(bytes_from(body, 1))?;
            Ok(PgMsg::Describe { target_type, name })
        } else if tag == tags::F_CLOSE {
            if body.is_empty() {
                return Err("Truncated Close: missing target_type");
            }
            let target_type: u8 = body[0];
            let (name, _) = read_c_string(bytes_from(body, 1))?;
            Ok(PgMsg::Close { target_type, name })
        } else if tag == tags::F_SYNC {
            Ok(PgMsg::Sync)
        } else if tag == tags::F_FLUSH {
            Ok(PgMsg::Flush)
        } else if tag == tags::F_TERMINATE {
            Ok(PgMsg::Terminate)
        } else if tag == tags::F_COPY_DATA {
            Ok(PgMsg::CopyData(body))
        } else if tag == tags::F_COPY_DONE {
            Ok(PgMsg::CopyDone)
        } else if tag == tags::F_COPY_FAIL {
            let (msg, _) = read_c_string(body)?;
            Ok(PgMsg::CopyFail(msg))
        } else if tag == tags::F_PASSWORD_MESSAGE {
            let (pass, _) = read_c_string(body)?;
            Ok(PgMsg::PasswordMessage(pass))
        } else {
            Ok(PgMsg::Unknown { tag, payload: body })
        }
    }
}

} // verus!
