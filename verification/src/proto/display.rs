//! Client messages as text: the name of the message and its parts, with commas
//! between them.
use vstd::prelude::*;
use vstd::string::*;

use crate::proto::c2s;
use crate::proto::c2s::{PgMsg, PgMsgView};
use crate::utils::parse::bytes_at;
use crate::utils::text;
use crate::utils::text::{
    push_decimal, push_signed, write_escaped_bytes, write_i16_slice, write_u32_slice,
};

verus! {

/// A value: its bytes in quotes and escaped, or `None`.
pub open spec fn value_text(value: Option<Seq<u8>>) -> Seq<char> {
    match value {
        Some(bytes) => seq!['"'] + text::escaped(bytes) + seq!['"'],
        None => "None"@,
    }
}

/// The texts of values.
pub open spec fn value_texts(src: Seq<u8>, values: Seq<Option<(usize, usize)>>) -> Seq<Seq<char>> {
    Seq::new(values.len(), |i: int| value_text(c2s::value_bytes(src, values[i])))
}

/// A parameter of a startup message: name and value with a colon between them,
/// or nothing where one of them is not UTF-8.
pub open spec fn param_text(src: Seq<u8>, p: (usize, usize, usize, usize)) -> Seq<char> {
    match c2s::param_texts(src, p) {
        Some((k, v)) => k + seq![':'] + v,
        None => Seq::empty(),
    }
}

/// The texts of the parameters of a startup message.
pub open spec fn startup_texts(src: Seq<u8>, params: Seq<(usize, usize, usize, usize)>) -> Seq<
    Seq<char>,
> {
    Seq::new(params.len(), |i: int| param_text(src, params[i]))
}

/// A message as text.
pub open spec fn message_text(m: PgMsgView) -> Seq<char> {
    match m {
        PgMsgView::SSLRequest => "SSLRequest"@,
        PgMsgView::GSSENCRequest => "GSSENCRequest"@,
        PgMsgView::StartupMessage { version, parameters_src, params } => "StartupMessage,"@
            + text::decimal(version as nat) + ","@ + text::joined(
            startup_texts(parameters_src, params),
            ',',
        ),
        PgMsgView::CancelRequest { process_id, secret_key } => "CancelRequest,"@ + text::decimal(
            process_id as nat,
        ) + ","@ + text::decimal(secret_key as nat),
        PgMsgView::Bind {
            portal,
            statement,
            parameter_format_codes,
            parameters_src,
            parameters,
            result_format_codes,
        } => "Bind,\""@ + portal + "\",\""@ + statement + "\","@ + text::bracketed(
            text::i16_texts(parameter_format_codes),
        ) + ","@ + text::bracketed(value_texts(parameters_src, parameters)) + ","@
            + text::bracketed(text::i16_texts(result_format_codes)),
        PgMsgView::Close { target_type, name } => "Close,"@ + seq![target_type as char] + ",\""@
            + name + "\""@,
        PgMsgView::Describe { target_type, name } => "Describe,"@ + seq![target_type as char]
            + ",\""@ + name + "\""@,
        PgMsgView::Execute { portal, max_rows } => "Execute,\""@ + portal + "\","@
            + text::signed_decimal(max_rows as int),
        PgMsgView::Flush => "Flush"@,
        PgMsgView::FunctionCall {
            object_id,
            argument_format_codes,
            arguments_src,
            arguments,
            result_format_code,
        } => "FunctionCall,"@ + text::decimal(object_id as nat) + ","@ + text::bracketed(
            text::i16_texts(argument_format_codes),
        ) + ","@ + text::bracketed(value_texts(arguments_src, arguments)) + ","@
            + text::signed_decimal(result_format_code as int),
        PgMsgView::Parse { name, query, parameter_type_oids } => "Parse,\""@ + name + "\",\""@
            + query + "\","@ + text::bracketed(text::u32_texts(parameter_type_oids)),
        PgMsgView::PasswordMessage(p) => "PasswordMessage,\""@ + p + "\""@,
        PgMsgView::Query(q) => "Query,\""@ + q + "\""@,
        PgMsgView::Sync => "Sync"@,
        PgMsgView::Terminate => "Terminate"@,
        PgMsgView::CopyData(bytes) => "CopyData,"@ + text::decimal(bytes.len()),
        PgMsgView::CopyDone => "CopyDone"@,
        PgMsgView::CopyFail(msg) => "CopyFail,\""@ + msg + "\""@,
        PgMsgView::Unknown { tag, payload } => "Unknown,"@ + seq![tag as char] + ","@
            + text::escaped(payload),
    }
}

/// Appends one value.
pub fn write_value(w: &mut String, value: Option<&[u8]>)
    ensures
        final(w)@ == old(w)@ + value_text(
            match value {
                Some(b) => Some(b@),
                None => None,
            },
        ),
{
    match value {
        Some(bytes) => {
            w.push('"');
            write_escaped_bytes(w, bytes);
            w.push('"');
            assert(final(w)@ =~= old(w)@ + value_text(Some(bytes@)));
        },
        None => {
            w.append("None");
        },
    }
}

/// Appends values between brackets, with semicolons between them.
fn write_value_list(w: &mut String, src: &[u8], values: &[Option<(usize, usize)>])
    requires
        c2s::values_inside(src@, values@),
    ensures
        final(w)@ == old(w)@ + text::bracketed(value_texts(src@, values@)),
{
    let ghost start = w@;
    let ghost texts = value_texts(src@, values@);
    w.push('[');
    let mut i: usize = 0;
    assert(texts.take(0) =~= Seq::empty());
    assert(w@ =~= start + (seq!['['] + text::joined(texts.take(0), ';')));
    while i < values.len()
        invariant
            i <= values@.len(),
            texts == value_texts(src@, values@),
            c2s::values_inside(src@, values@),
            w@ == start + (seq!['['] + text::joined(texts.take(i as int), ';')),
        decreases values@.len() - i,
    {
        if i > 0 {
            w.push(';');
        }
        match values[i] {
            Some((off, len)) => write_value(w, Some(bytes_at(src, off, len))),
            None => write_value(w, None),
        }
        proof {
            text::lemma_joined_push(texts.take(i as int), texts[i as int], ';');
            assert(texts.take(i as int).push(texts[i as int]) =~= texts.take(i + 1));
            assert(w@ =~= start + (seq!['['] + text::joined(texts.take(i + 1), ';')));
        }
        i += 1;
    }
    w.push(']');
    assert(texts.take(i as int) =~= texts);
    assert(w@ =~= start + text::bracketed(texts));
}

impl<'a> PgMsg<'a> {
    /// Appends the parameters of a startup message.
    fn write_startup(&self, w: &mut String, count: usize)
        requires
            self@.wf(),
            self@ matches PgMsgView::StartupMessage { params, .. } && params.len() == count,
        ensures
            self@ matches PgMsgView::StartupMessage { parameters_src, params, .. } ==> final(w)@
                == old(w)@ + text::joined(startup_texts(parameters_src, params), ','),
    {
        let ghost start = w@;
        let ghost texts = startup_texts(self@->StartupMessage_parameters_src, self@->params);
        let mut i: usize = 0;
        assert(texts.take(0) =~= Seq::empty());
        assert(w@ =~= start + text::joined(texts.take(0), ','));
        while i < count
            invariant
                i <= count,
                self@.wf(),
                self@ is StartupMessage,
                self@->params.len() == count,
                texts == startup_texts(self@->StartupMessage_parameters_src, self@->params),
                w@ == start + text::joined(texts.take(i as int), ','),
            decreases count - i,
        {
            if i > 0 {
                w.push(',');
            }
            match self.startup_param(i) {
                Some((k, v)) => {
                    w.append(k);
                    w.push(':');
                    w.append(v);
                },
                None => {},
            }
            proof {
                text::lemma_joined_push(texts.take(i as int), texts[i as int], ',');
                assert(texts.take(i as int).push(texts[i as int]) =~= texts.take(i + 1));
                assert(w@ =~= start + text::joined(texts.take(i + 1), ','));
            }
            i += 1;
        }
        assert(texts.take(i as int) =~= texts);
    }

    /// Appends the message as text.
    pub fn write(&self, w: &mut String)
        requires
            self@.wf(),
        ensures
            final(w)@ == old(w)@ + message_text(self@),
    {
        match self {
            PgMsg::SSLRequest => w.append("SSLRequest"),
            PgMsg::GSSENCRequest => w.append("GSSENCRequest"),
            PgMsg::StartupMessage { version, params, .. } => {
                w.append("StartupMessage,");
                push_decimal(w, *version as u64);
                w.append(",");
                self.write_startup(w, params.len());
            },
            PgMsg::CancelRequest { process_id, secret_key } => {
                w.append("CancelRequest,");
                push_decimal(w, *process_id as u64);
                w.append(",");
                push_decimal(w, *secret_key as u64);
            },
            PgMsg::Bind {
                portal,
                statement,
                parameter_format_codes,
                parameters_src,
                parameters,
                result_format_codes,
            } => {
                w.append("Bind,\"");
                w.append(portal);
                w.append("\",\"");
                w.append(statement);
                w.append("\",");
                write_i16_slice(w, parameter_format_codes);
                w.append(",");
                write_value_list(w, parameters_src, parameters);
                w.append(",");
                write_i16_slice(w, result_format_codes);
            },
            PgMsg::Close { target_type, name } => {
                w.append("Close,");
                w.push(*target_type as char);
                w.append(",\"");
                w.append(name);
                w.append("\"");
            },
            PgMsg::Describe { target_type, name } => {
                w.append("Describe,");
                w.push(*target_type as char);
                w.append(",\"");
                w.append(name);
                w.append("\"");
            },
            PgMsg::Execute { portal, max_rows } => {
                w.append("Execute,\"");
                w.append(portal);
                w.append("\",");
                push_signed(w, *max_rows as i64);
            },
            PgMsg::Flush => w.append("Flush"),
            PgMsg::FunctionCall {
                object_id,
                argument_format_codes,
                arguments_src,
                arguments,
                result_format_code,
            } => {
                w.append("FunctionCall,");
                push_decimal(w, *object_id as u64);
                w.append(",");
                write_i16_slice(w, argument_format_codes);
                w.append(",");
                write_value_list(w, arguments_src, arguments);
                w.append(",");
                push_signed(w, *result_format_code as i64);
            },
            PgMsg::Parse { name, query, parameter_type_oids } => {
                w.append("Parse,\"");
                w.append(name);
                w.append("\",\"");
                w.append(query);
                w.append("\",");
                write_u32_slice(w, parameter_type_oids);
            },
            PgMsg::PasswordMessage(p) => {
                w.append("PasswordMessage,\"");
                w.append(p);
                w.append("\"");
            },
            PgMsg::Query(query) => {
                w.append("Query,\"");
                w.append(query);
                w.append("\"");
            },
            PgMsg::Sync => w.append("Sync"),
            PgMsg::Terminate => w.append("Terminate"),
            PgMsg::CopyData(bytes) => {
                w.append("CopyData,");
                push_decimal(w, bytes.len() as u64);
            },
            PgMsg::CopyDone => w.append("CopyDone"),
            PgMsg::CopyFail(msg) => {
                w.append("CopyFail,\"");
                w.append(msg);
                w.append("\"");
            },
            PgMsg::Unknown { tag, payload } => {
                w.append("Unknown,");
                w.push(*tag as char);
                w.append(",");
                write_escaped_bytes(w, payload);
            },
        }
        assert(final(w)@ =~= old(w)@ + message_text(self@));
    }

    /// The message as text.
    pub fn to_text(&self) -> (r: String)
        requires
            self@.wf(),
        ensures
            r@ == message_text(self@),
    {
        let mut w = String::new();
        self.write(&mut w);
        assert(w@ =~= message_text(self@));
        w
    }
}

} // verus!
