//! What the text of a message is made of.
use vstd::prelude::*;

use crate::parser::c2s;
use crate::parser::c2s_display;
use crate::proto::c2s::{param_texts, PgMsgView};
use crate::proto::display;
use crate::utils::text;

verus! {

/// Text between quotes.
pub open spec fn quoted(s: Seq<char>) -> Seq<char> {
    seq!['"'] + s + seq!['"']
}

/// Parts with commas between them.
pub open spec fn listed(parts: Seq<Seq<char>>) -> Seq<char> {
    text::joined(parts, ',')
}

/// Two parts.
proof fn lemma_two(a: Seq<char>, b: Seq<char>)
    ensures
        listed(seq![a, b]) == a + seq![','] + b,
{
    assert(seq![a, b].drop_last() =~= seq![a]);
    assert(listed(seq![a]) == a);
    assert(listed(seq![a, b]) =~= a + seq![','] + b);
}

/// Three parts.
proof fn lemma_three(a: Seq<char>, b: Seq<char>, c: Seq<char>)
    ensures
        listed(seq![a, b, c]) == a + seq![','] + b + seq![','] + c,
{
    lemma_two(a, b);
    assert(seq![a, b, c].drop_last() =~= seq![a, b]);
    assert(listed(seq![a, b, c]) =~= a + seq![','] + b + seq![','] + c);
}

/// Four parts.
proof fn lemma_four(a: Seq<char>, b: Seq<char>, c: Seq<char>, d: Seq<char>)
    ensures
        listed(seq![a, b, c, d]) == a + seq![','] + b + seq![','] + c + seq![','] + d,
{
    lemma_three(a, b, c);
    assert(seq![a, b, c, d].drop_last() =~= seq![a, b, c]);
    assert(listed(seq![a, b, c, d]) =~= a + seq![','] + b + seq![','] + c + seq![','] + d);
}

/// One more part.
proof fn lemma_more(parts: Seq<Seq<char>>, d: Seq<char>)
    requires
        parts.len() > 0,
    ensures
        listed(parts.push(d)) == listed(parts) + seq![','] + d,
{
    text::lemma_joined_push(parts, d, ',');
    assert(listed(parts.push(d)) =~= listed(parts) + seq![','] + d);
}

/// Numbers in brackets, in order.
pub proof fn law_number_texts(codes: Seq<i16>, oids: Seq<u32>)
    ensures
        text::i16_texts(codes) == codes.map_values(|c: i16| text::signed_decimal(c as int)),
        text::u32_texts(oids) == oids.map_values(|o: u32| text::decimal(o as nat)),
{
    assert(text::i16_texts(codes) =~= codes.map_values(|c: i16| text::signed_decimal(c as int)));
    assert(text::u32_texts(oids) =~= oids.map_values(|o: u32| text::decimal(o as nat)));
}

/// Values in order: the bytes between quotes, or `None`.
pub proof fn law_value_texts(src: Seq<u8>, places: Seq<Option<(usize, usize)>>)
    ensures
        display::value_texts(src, places).len() == places.len(),
        forall|i: int|
            0 <= i < places.len() ==> {
                &&& #[trigger] places[i] matches Some((off, len)) ==> display::value_texts(
                    src,
                    places,
                )[i] == quoted(text::escaped(src.subrange(off as int, off + len)))
                &&& places[i] is None ==> display::value_texts(src, places)[i] == seq![
                    'N',
                    'o',
                    'n',
                    'e',
                ]
            },
{
    reveal_strlit("None");
    assert("None"@ =~= seq!['N', 'o', 'n', 'e']);
}

/// Messages of a name alone.
pub proof fn law_bare_texts()
    ensures
        display::message_text(PgMsgView::SSLRequest) == "SSLRequest"@,
        display::message_text(PgMsgView::GSSENCRequest) == "GSSENCRequest"@,
        display::message_text(PgMsgView::Flush) == "Flush"@,
        display::message_text(PgMsgView::Sync) == "Sync"@,
        display::message_text(PgMsgView::Terminate) == "Terminate"@,
        display::message_text(PgMsgView::CopyDone) == "CopyDone"@,
{
}

/// Messages of a name and one text.
pub proof fn law_one_part_texts(s: Seq<char>, bytes: Seq<u8>)
    ensures
        display::message_text(PgMsgView::Query(s)) == listed(seq!["Query"@, quoted(s)]),
        display::message_text(PgMsgView::PasswordMessage(s)) == listed(
            seq!["PasswordMessage"@, quoted(s)],
        ),
        display::message_text(PgMsgView::CopyFail(s)) == listed(seq!["CopyFail"@, quoted(s)]),
        display::message_text(PgMsgView::CopyData(bytes)) == listed(
            seq!["CopyData"@, text::decimal(bytes.len())],
        ),
{
    lemma_two("Query"@, quoted(s));
    lemma_two("PasswordMessage"@, quoted(s));
    lemma_two("CopyFail"@, quoted(s));
    lemma_two("CopyData"@, text::decimal(bytes.len()));
    reveal_strlit("Query");
    reveal_strlit("Query,\"");
    reveal_strlit("PasswordMessage");
    reveal_strlit("PasswordMessage,\"");
    reveal_strlit("CopyFail");
    reveal_strlit("CopyFail,\"");
    reveal_strlit("CopyData");
    reveal_strlit("CopyData,");
    reveal_strlit("\"");
    assert("CopyData,"@ =~= "CopyData"@ + seq![',']);
    assert("Query,\""@ =~= "Query"@ + seq![','] + seq!['"']);
    assert("PasswordMessage,\""@ =~= "PasswordMessage"@ + seq![','] + seq!['"']);
    assert("CopyFail,\""@ =~= "CopyFail"@ + seq![','] + seq!['"']);
    assert("\""@ =~= seq!['"']);
    assert("Query"@ + seq![','] + seq!['"'] + s + seq!['"'] =~= "Query"@ + seq![','] + quoted(s));
    assert("PasswordMessage"@ + seq![','] + seq!['"'] + s + seq!['"'] =~= "PasswordMessage"@
        + seq![','] + quoted(s));
    assert("CopyFail"@ + seq![','] + seq!['"'] + s + seq!['"'] =~= "CopyFail"@ + seq![',']
        + quoted(s));
}

/// Messages that name a statement or a portal, and the two numbers of a request to cancel.
pub proof fn law_two_part_texts(
    kind: u8,
    name: Seq<char>,
    rows: i32,
    process_id: u32,
    secret_key: u32,
    payload: Seq<u8>,
)
    ensures
        display::message_text(PgMsgView::Close { target_type: kind, name }) == listed(
            seq!["Close"@, seq![kind as char], quoted(name)],
        ),
        display::message_text(PgMsgView::Describe { target_type: kind, name }) == listed(
            seq!["Describe"@, seq![kind as char], quoted(name)],
        ),
        display::message_text(PgMsgView::Execute { portal: name, max_rows: rows }) == listed(
            seq!["Execute"@, quoted(name), text::signed_decimal(rows as int)],
        ),
        display::message_text(PgMsgView::CancelRequest { process_id, secret_key }) == listed(
            seq![
                "CancelRequest"@,
                text::decimal(process_id as nat),
                text::decimal(secret_key as nat),
            ],
        ),
        display::message_text(PgMsgView::Unknown { tag: kind, payload }) == listed(
            seq!["Unknown"@, seq![kind as char], text::escaped(payload)],
        ),
{
    let k = seq![kind as char];
    lemma_three("Close"@, k, quoted(name));
    lemma_three("Describe"@, k, quoted(name));
    lemma_three("Execute"@, quoted(name), text::signed_decimal(rows as int));
    lemma_three(
        "CancelRequest"@,
        text::decimal(process_id as nat),
        text::decimal(secret_key as nat),
    );
    lemma_three("Unknown"@, k, text::escaped(payload));
    reveal_strlit("Close");
    reveal_strlit("Close,");
    reveal_strlit("Describe");
    reveal_strlit("Describe,");
    reveal_strlit("Execute");
    reveal_strlit("Execute,\"");
    reveal_strlit("CancelRequest");
    reveal_strlit("CancelRequest,");
    reveal_strlit("Unknown");
    reveal_strlit("Unknown,");
    reveal_strlit(",\"");
    reveal_strlit("\",");
    reveal_strlit("\"");
    reveal_strlit(",");
    assert("Close,"@ =~= "Close"@ + seq![',']);
    assert("Describe,"@ =~= "Describe"@ + seq![',']);
    assert("CancelRequest,"@ =~= "CancelRequest"@ + seq![',']);
    assert("Unknown,"@ =~= "Unknown"@ + seq![',']);
    assert("Execute,\""@ =~= "Execute"@ + seq![','] + seq!['"']);
    assert(",\""@ =~= seq![','] + seq!['"']);
    assert("\","@ =~= seq!['"'] + seq![',']);
    assert("\""@ =~= seq!['"']);
    assert(","@ =~= seq![',']);
    let rows_text = text::signed_decimal(rows as int);
    assert("Close"@ + seq![','] + k + ",\""@ + name + "\""@ =~= "Close"@ + seq![','] + k + seq![',']
        + quoted(name));
    assert("Describe"@ + seq![','] + k + ",\""@ + name + "\""@ =~= "Describe"@ + seq![','] + k
        + seq![','] + quoted(name));
    assert("Execute"@ + seq![','] + seq!['"'] + name + "\","@ + rows_text =~= "Execute"@ + seq![
        ',',
    ] + quoted(name) + seq![','] + rows_text);
}

/// The message that prepares a statement.
pub proof fn law_parse_text(name: Seq<char>, query: Seq<char>, parameter_type_oids: Seq<u32>)
    ensures
        display::message_text(PgMsgView::Parse { name, query, parameter_type_oids }) == listed(
            seq![
                "Parse"@,
                quoted(name),
                quoted(query),
                text::bracketed(text::u32_texts(parameter_type_oids)),
            ],
        ),
{
    let oids = text::bracketed(text::u32_texts(parameter_type_oids));
    lemma_four("Parse"@, quoted(name), quoted(query), oids);
    reveal_strlit("Parse");
    reveal_strlit("Parse,\"");
    reveal_strlit("\",\"");
    reveal_strlit("\",");
    assert("Parse,\""@ =~= "Parse"@ + seq![','] + seq!['"']);
    assert("\",\""@ =~= seq!['"'] + seq![','] + seq!['"']);
    assert("\","@ =~= seq!['"'] + seq![',']);
    assert("Parse,\""@ + name + "\",\""@ + query + "\","@ + oids =~= "Parse"@ + seq![','] + quoted(
        name,
    ) + seq![','] + quoted(query) + seq![','] + oids);
}

/// The message that binds values to a statement: the portal stands in front of the statement,
/// and the codes of the results come last.
pub proof fn law_bind_text(
    portal: Seq<char>,
    statement: Seq<char>,
    parameter_format_codes: Seq<i16>,
    parameters_src: Seq<u8>,
    parameters: Seq<Option<(usize, usize)>>,
    result_format_codes: Seq<i16>,
)
    ensures
        display::message_text(
            PgMsgView::Bind {
                portal,
                statement,
                parameter_format_codes,
                parameters_src,
                parameters,
                result_format_codes,
            },
        ) == listed(
            seq![
                "Bind"@,
                quoted(portal),
                quoted(statement),
                text::bracketed(text::i16_texts(parameter_format_codes)),
            ].push(text::bracketed(display::value_texts(parameters_src, parameters))).push(
                text::bracketed(text::i16_texts(result_format_codes)),
            ),
        ),
{
    let codes = text::bracketed(text::i16_texts(parameter_format_codes));
    let values = text::bracketed(display::value_texts(parameters_src, parameters));
    let results = text::bracketed(text::i16_texts(result_format_codes));
    let four = seq!["Bind"@, quoted(portal), quoted(statement), codes];
    lemma_four("Bind"@, quoted(portal), quoted(statement), codes);
    lemma_more(four, values);
    lemma_more(four.push(values), results);
    reveal_strlit("Bind");
    reveal_strlit("Bind,\"");
    reveal_strlit("\",\"");
    reveal_strlit("\",");
    reveal_strlit(",");
    assert("Bind,\""@ =~= "Bind"@ + seq![','] + seq!['"']);
    assert("\",\""@ =~= seq!['"'] + seq![','] + seq!['"']);
    assert("\","@ =~= seq!['"'] + seq![',']);
    assert(","@ =~= seq![',']);
    assert("Bind,\""@ + portal + "\",\""@ + statement + "\","@ + codes =~= "Bind"@ + seq![',']
        + quoted(portal) + seq![','] + quoted(statement) + seq![','] + codes);
}

/// The message that calls a function.
pub proof fn law_function_call_text(
    object_id: u32,
    argument_format_codes: Seq<i16>,
    arguments_src: Seq<u8>,
    arguments: Seq<Option<(usize, usize)>>,
    result_format_code: i16,
)
    ensures
        display::message_text(
            PgMsgView::FunctionCall {
                object_id,
                argument_format_codes,
                arguments_src,
                arguments,
                result_format_code,
            },
        ) == listed(
            seq![
                "FunctionCall"@,
                text::decimal(object_id as nat),
                text::bracketed(text::i16_texts(argument_format_codes)),
                text::bracketed(display::value_texts(arguments_src, arguments)),
            ].push(text::signed_decimal(result_format_code as int)),
        ),
{
    let id = text::decimal(object_id as nat);
    let codes = text::bracketed(text::i16_texts(argument_format_codes));
    let values = text::bracketed(display::value_texts(arguments_src, arguments));
    let result = text::signed_decimal(result_format_code as int);
    lemma_four("FunctionCall"@, id, codes, values);
    lemma_more(seq!["FunctionCall"@, id, codes, values], result);
    reveal_strlit("FunctionCall");
    reveal_strlit("FunctionCall,");
    reveal_strlit(",");
    assert("FunctionCall,"@ =~= "FunctionCall"@ + seq![',']);
    assert(","@ =~= seq![',']);
}

/// The message that opens a connection: its version, and name and value of each parameter with
/// a colon between them, in order.
pub proof fn law_startup_text(
    version: u32,
    parameters_src: Seq<u8>,
    params: Seq<(usize, usize, usize, usize)>,
    names: Seq<Seq<char>>,
    values: Seq<Seq<char>>,
)
    requires
        names.len() == params.len(),
        values.len() == params.len(),
        forall|i: int|
            0 <= i < params.len() ==> param_texts(parameters_src, #[trigger] params[i]) == Some((names[i], values[i])),
    ensures
        display::message_text(PgMsgView::StartupMessage { version, parameters_src, params })
            == listed(
            seq![
                "StartupMessage"@,
                text::decimal(version as nat),
                listed(Seq::new(params.len(), |i: int| names[i] + seq![':'] + values[i])),
            ],
        ),
{
    let texts = Seq::new(params.len(), |i: int| names[i] + seq![':'] + values[i]);
    assert(display::startup_texts(parameters_src, params) =~= texts);
    lemma_three("StartupMessage"@, text::decimal(version as nat), listed(texts));
    reveal_strlit("StartupMessage");
    reveal_strlit("StartupMessage,");
    reveal_strlit(",");
    assert("StartupMessage,"@ =~= "StartupMessage"@ + seq![',']);
    assert(","@ =~= seq![',']);
}

/// A payload that holds no message is printed with the number of its type, what is wrong with
/// it between brackets and quotes, and its bytes between quotes; one that holds a message is
/// printed as that message.
pub proof fn law_payload_text(tag: u8, payload: Seq<u8>)
    ensures
        c2s::c2s_message(tag, payload) matches Ok(m) ==> c2s_display::frame_text(tag, payload)
            == c2s_display::c2s_text(m),
        c2s::c2s_message(tag, payload) matches Err(e) ==> c2s_display::frame_text(tag, payload)
            == listed(
            seq![
                text::decimal(tag as nat),
                seq!['('] + quoted(e) + seq![')'],
                quoted(text::escaped(payload)),
            ],
        ),
{
    if let Err(e) = c2s::c2s_message(tag, payload) {
        let (t, p) = (text::decimal(tag as nat), text::escaped(payload));
        lemma_three(t, seq!['('] + quoted(e) + seq![')'], quoted(p));
        reveal_strlit(",(\"");
        reveal_strlit("\"),\"");
        assert(t + ",(\""@ + e + "\"),\""@ + p + seq!['"'] =~= t + seq![','] + (seq!['('] + quoted(
            e,
        ) + seq![')']) + seq![','] + quoted(p));
    }
}

} // verus!
