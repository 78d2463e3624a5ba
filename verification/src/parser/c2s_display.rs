//! Client messages as text, and frames that hold none.
use vstd::prelude::*;
use vstd::string::*;

use crate::parser::c2s;
use crate::parser::c2s::{parse_pg_message, Codes, PgC2S, PgC2SView, Values};
use crate::proto;
use crate::proto::c2s::PgMsgView;
use crate::proto::display;
use crate::proto::display::write_value;
use crate::utils::text;
use crate::utils::text::{
    push_decimal, push_signed, write_escaped_bytes, write_i16_slice, write_u32_slice,
};

verus! {

/// The type byte of a frame (zero where there is none) and its payload.
pub struct TagFrame<'a>(pub u8, pub &'a [u8]);

/// A frame as text: its message, or the type byte, what is wrong and the
/// payload in escaped form.
pub open spec fn frame_text(tag: u8, payload: Seq<u8>) -> Seq<char> {
    match c2s::c2s_message(tag, payload) {
        Ok(m) => c2s_text(m),
        Err(e) => text::decimal(tag as nat) + ",(\""@ + e + "\"),\""@ + text::escaped(payload)
            + seq!['"'],
    }
}

/// The texts of values.
pub open spec fn value_texts(values: Seq<Option<Seq<u8>>>) -> Seq<Seq<char>> {
    Seq::new(values.len(), |i: int| display::value_text(values[i]))
}

/// The texts of the parameters of a startup message: name and value with a
/// colon between them.
pub open spec fn param_texts(params: Seq<(Seq<char>, Seq<char>)>) -> Seq<Seq<char>> {
    Seq::new(params.len(), |i: int| params[i].0 + seq![':'] + params[i].1)
}

/// A message as text.
pub open spec fn c2s_text(m: PgC2SView) -> Seq<char> {
    match m {
        PgC2SView::SSLRequest => "SSLRequest"@,
        PgC2SView::GSSENCRequest => "GSSENCRequest"@,
        PgC2SView::StartupMessage { version, parameters } => "StartupMessage,"@ + text::decimal(
            version as nat,
        ) + ","@ + text::joined(param_texts(c2s::raw_params(parameters)), ','),
        PgC2SView::CancelRequest { process_id, secret_key } => "CancelRequest,"@ + text::decimal(
            process_id as nat,
        ) + ","@ + text::decimal(secret_key as nat),
        PgC2SView::Bind {
            portal,
            statement,
            parameter_format_codes,
            parameters,
            result_format_codes,
        } => "Bind,\""@ + portal + "\",\""@ + statement + "\","@ + text::bracketed(
            text::i16_texts(parameter_format_codes),
        ) + ","@ + text::bracketed(value_texts(parameters)) + ","@ + text::bracketed(
            text::i16_texts(result_format_codes),
        ),
        PgC2SView::Close { target_type, name } => "Close,"@ + seq![target_type as char] + ",\""@
            + name + "\""@,
        PgC2SView::Describe { target_type, name } => "Describe,"@ + seq![target_type as char]
            + ",\""@ + name + "\""@,
        PgC2SView::Execute { portal, max_rows } => "Execute,\""@ + portal + "\","@
            + text::signed_decimal(max_rows as int),
        PgC2SView::Flush => "Flush"@,
        PgC2SView::FunctionCall {
            object_id,
            argument_format_codes,
            arguments,
            result_format_code,
        } => "FunctionCall,"@ + text::decimal(object_id as nat) + ","@ + text::bracketed(
            text::i16_texts(argument_format_codes),
        ) + ","@ + text::bracketed(value_texts(arguments)) + ","@ + text::signed_decimal(
            result_format_code as int,
        ),
        PgC2SView::Parse { name, query, parameter_type_oids } => "Parse,\""@ + name + "\",\""@
            + query + "\","@ + text::bracketed(text::u32_texts(parameter_type_oids)),
        PgC2SView::PasswordMessage(p) => "PasswordMessage,\""@ + p + "\""@,
        PgC2SView::Query(q) => "Query,\""@ + q + "\""@,
        PgC2SView::Sync => "Sync"@,
        PgC2SView::Terminate => "Terminate"@,
        PgC2SView::CopyData(bytes) => "CopyData,"@ + text::decimal(bytes.len()),
        PgC2SView::CopyDone => "CopyDone"@,
        PgC2SView::CopyFail(msg) => "CopyFail,\""@ + msg + "\""@,
        PgC2SView::Unknown { tag, payload } => "Unknown,"@ + seq![tag as char] + ","@
            + text::escaped(payload),
    }
}

impl<'a> TagFrame<'a> {
    /// Appends the frame as text.
    pub fn write(&self, w: &mut String)
        ensures
            final(w)@ == old(w)@ + frame_text(self.0, self.1@),
    {
        match parse_pg_message(self.0, self.1) {
            Ok(msg) => msg.write(w),
            Err(e) => {
                push_decimal(w, self.0 as u64);
                w.append(",(\"");
                w.append(e);
                w.append("\"),\"");
                write_escaped_bytes(w, self.1);
                w.push('"');
                assert(final(w)@ =~= old(w)@ + frame_text(self.0, self.1@));
            },
        }
    }

    /// The frame as text.
    pub fn to_text(&self) -> (r: String)
        ensures
            r@ == frame_text(self.0, self.1@),
    {
        let mut w = String::new();
        self.write(&mut w);
        assert(w@ =~= frame_text(self.0, self.1@));
        w
    }
}

impl<'a> PgC2S<'a> {
    /// Appends a Bind message as text.
    fn write_bind(&self, w: &mut String)
        requires
            self is Bind,
        ensures
            final(w)@ == old(w)@ + c2s_text(self@),
    {
        if let PgC2S::Bind {
            portal,
            statement,
            parameter_format_codes,
            parameters,
            result_format_codes,
        } = self {
            w.append("Bind,\"");
            w.append(portal);
            w.append("\",\"");
            w.append(statement);
            w.append("\",");
            write_codes(w, parameter_format_codes);
            w.append(",");
            write_values(w, parameters);
            w.append(",");
            write_codes(w, result_format_codes);
            assert(final(w)@ =~= old(w)@ + c2s_text(self@));
        }
    }

    /// Appends a startup message as text.
    fn write_startup(&self, w: &mut String)
        requires
            self is StartupMessage,
        ensures
            final(w)@ == old(w)@ + c2s_text(self@),
    {
        if let PgC2S::StartupMessage { version, parameters } = self {
            w.append("StartupMessage,");
            push_decimal(w, *version as u64);
            w.append(",");
            let ghost start = w@;
            let ghost params = c2s::raw_params(parameters@);
            let ghost texts = param_texts(params);
            let mut iter = parameters.iter();
            let mut first: bool = true;
            let ghost mut i: int = 0;
            proof {
                assert(texts.take(0) =~= Seq::empty());
                assert(params.skip(0) =~= params);
                assert(w@ =~= start + text::joined(texts.take(0), ','));
            }
            loop
                invariant_except_break
                    0 <= i <= params.len(),
                    first == (i == 0),
                    texts == param_texts(params),
                    c2s::raw_params(iter@) == params.skip(i),
                    w@ == start + text::joined(texts.take(i), ','),
                ensures
                    w@ == start + text::joined(texts, ','),
                decreases params.len() - i,
            {
                match iter.next() {
                    None => {
                        proof {
                            assert(params.skip(i).len() == 0);
                            assert(texts.take(i) =~= texts);
                        }
                        break;
                    },
                    Some((k, v)) => {
                        if first {
                            first = false;
                        } else {
                            w.append(",");
                        }
                        w.append(k);
                        w.append(":");
                        w.append(v);
                        proof {
                            assert(params.skip(i)[0] == (k@, v@));
                            assert(params.skip(i).skip(1) =~= params.skip(i + 1));
                            assert(c2s::raw_params(iter@) =~= params.skip(i).skip(1));
                            text::lemma_joined_push(texts.take(i), texts[i], ',');
                            assert(texts.take(i).push(texts[i]) =~= texts.take(i + 1));
                            assert(":"@ =~= seq![':']) by {
                                reveal_strlit(":");
                            }
                            assert(","@ =~= seq![',']) by {
                                reveal_strlit(",");
                            }
                            assert(w@ =~= start + text::joined(texts.take(i + 1), ','));
                            i = i + 1;
                        }
                    },
                }
            }
            assert(final(w)@ =~= old(w)@ + c2s_text(self@));
        }
    }

    /// Appends a FunctionCall message as text.
    fn write_function_call(&self, w: &mut String)
        requires
            self is FunctionCall,
        ensures
            final(w)@ == old(w)@ + c2s_text(self@),
    {
        if let PgC2S::FunctionCall {
            object_id,
            argument_format_codes,
            arguments,
            result_format_code,
        } = self {
            w.append("FunctionCall,");
            push_decimal(w, *object_id as u64);
            w.append(",");
            write_codes(w, argument_format_codes);
            w.append(",");
            write_values(w, arguments);
            w.append(",");
            push_signed(w, *result_format_code as i64);
            assert(final(w)@ =~= old(w)@ + c2s_text(self@));
        }
    }

    /// Appends the message as text.
    pub fn write(&self, w: &mut String)
        ensures
            final(w)@ == old(w)@ + c2s_text(self@),
    {
        match self {
            PgC2S::SSLRequest => w.append("SSLRequest"),
            PgC2S::GSSENCRequest => w.append("GSSENCRequest"),
            PgC2S::StartupMessage { .. } => self.write_startup(w),
            PgC2S::CancelRequest { process_id, secret_key } => {
                w.append("CancelRequest,");
                push_decimal(w, *process_id as u64);
                w.append(",");
                push_decimal(w, *secret_key as u64);
            },
            PgC2S::Bind { .. } => self.write_bind(w),
            PgC2S::Close { target_type, name } => {
                w.append("Close,");
                w.push(*target_type as char);
                w.append(",\"");
                w.append(name);
                w.append("\"");
            },
            PgC2S::Describe { target_type, name } => {
                w.append("Describe,");
                w.push(*target_type as char);
                w.append(",\"");
                w.append(name);
                w.append("\"");
            },
            PgC2S::Execute { portal, max_rows } => {
                w.append("Execute,\"");
                w.append(portal);
                w.append("\",");
                push_signed(w, *max_rows as i64);
            },
            PgC2S::Flush => w.append("Flush"),
            PgC2S::FunctionCall { .. } => self.write_function_call(w),
            PgC2S::Parse { name, query, parameter_type_oids } => {
                w.append("Parse,\"");
                w.append(name);
                w.append("\",\"");
                w.append(query);
                w.append("\",");
                let oids = parameter_type_oids.iter();
                write_u32_slice(w, oids.as_slice());
            },
            PgC2S::PasswordMessage(p) => {
                w.append("PasswordMessage,\"");
                w.append(p);
                w.append("\"");
            },
            PgC2S::Query(query) => {
                w.append("Query,\"");
                w.append(query);
                w.append("\"");
            },
            PgC2S::Sync => w.append("Sync"),
            PgC2S::Terminate => w.append("Terminate"),
            PgC2S::CopyData(bytes) => {
                w.append("CopyData,");
                push_decimal(w, bytes.len() as u64);
            },
            PgC2S::CopyDone => w.append("CopyDone"),
            PgC2S::CopyFail(msg) => {
                w.append("CopyFail,\"");
                w.append(msg);
                w.append("\"");
            },
            PgC2S::Unknown { tag, payload } => {
                w.append("Unknown,");
                w.push(*tag as char);
                w.append(",");
                write_escaped_bytes(w, payload);
            },
        }
        assert(final(w)@ =~= old(w)@ + c2s_text(self@));
    }

    /// The message as text.
    pub fn to_text(&self) -> (r: String)
        ensures
            r@ == c2s_text(self@),
    {
        let mut w = String::new();
        self.write(&mut w);
        assert(w@ =~= c2s_text(self@));
        w
    }
}

/// Appends numbers between brackets, with semicolons between them.
pub fn write_codes(w: &mut String, codes: &Codes<'_>)
    ensures
        final(w)@ == old(w)@ + text::bracketed(text::i16_texts(codes@)),
{
    let items = codes.iter();
    write_i16_slice(w, items.as_slice());
}

/// Appends values between brackets, with semicolons between them.
pub fn write_values(w: &mut String, vals: &Values<'_>)
    ensures
        final(w)@ == old(w)@ + text::bracketed(value_texts(vals@)),
{
    let ghost start = w@;
    let ghost values = vals@;
    let ghost texts = value_texts(values);
    w.push('[');
    let mut iter = vals.iter();
    let mut first: bool = true;
    let ghost mut i: int = 0;
    proof {
        assert(texts.take(0) =~= Seq::empty());
        assert(values.skip(0) =~= values);
        assert(w@ =~= start + (seq!['['] + text::joined(texts.take(0), ';')));
    }
    loop
        invariant_except_break
            0 <= i <= values.len(),
            first == (i == 0),
            texts == value_texts(values),
            iter@ == values.skip(i),
            w@ == start + (seq!['['] + text::joined(texts.take(i), ';')),
        ensures
            w@ == start + (seq!['['] + text::joined(texts, ';')),
        decreases values.len() - i,
    {
        match iter.next() {
            None => {
                assert(texts.take(i) =~= texts);
                break;
            },
            Some(v) => {
                if first {
                    first = false;
                } else {
                    w.push(';');
                }
                write_value(w, v);
                proof {
                    assert(values.skip(i)[0] == values[i]);
                    assert(values.skip(i).drop_first() =~= values.skip(i + 1));
                    text::lemma_joined_push(texts.take(i), texts[i], ';');
                    assert(texts.take(i).push(texts[i]) =~= texts.take(i + 1));
                    assert(w@ =~= start + (seq!['['] + text::joined(texts.take(i + 1), ';')));
                    i = i + 1;
                }
            },
        }
    }
    w.push(']');
    assert(w@ =~= start + text::bracketed(value_texts(vals@)));
}

/// Both readings of a frame print alike: what a whole frame holds has the same
/// text as what its type byte and payload hold.
pub proof fn law_readings_print_alike(frame: Seq<u8>)
    requires
        frame.len() <= usize::MAX,
    ensures
        proto::c2s::message(frame) matches Ok(m) ==> frame_text(
            frame[0],
            if frame[0] == 0 {
                frame.skip(4)
            } else {
                frame.skip(5)
            },
        ) == display::message_text(m),
{
    if let Ok(m) = proto::c2s::message(frame) {
        c2s::law_readings_agree(frame);
        proto::c2s::law_message_wf(frame);
        match m {
            PgMsgView::StartupMessage { parameters_src, params, .. } => {
                assert(param_texts(c2s::raw_params(parameters_src)) =~= display::startup_texts(
                    parameters_src,
                    params,
                ));
            },
            PgMsgView::Bind { parameters_src, parameters, .. } => {
                assert(value_texts(c2s::value_list(parameters_src, parameters))
                    =~= display::value_texts(parameters_src, parameters));
            },
            PgMsgView::FunctionCall { arguments_src, arguments, .. } => {
                assert(value_texts(c2s::value_list(arguments_src, arguments))
                    =~= display::value_texts(arguments_src, arguments));
            },
            _ => {},
        }
    }
}

} // verus!
