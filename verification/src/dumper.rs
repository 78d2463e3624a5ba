//! Frames of a capture as lines with the addresses of their clients.
use vstd::prelude::*;
use vstd::string::*;

use crate::parser::c2s;
use crate::parser::c2s::parse_pg_message;
use crate::parser::c2s_display;
use crate::utils::text;
use crate::utils::text::push_decimal;

verus! {

/// The line of a message: the address, the time, and the message.
pub open spec fn line(addr: Seq<char>, timestamp: u64, message: Seq<char>) -> Seq<char> {
    "["@ + addr + "] ("@ + text::decimal(timestamp as nat) + ") -> "@ + message + seq!['\n']
}

/// The line of the message in a frame with the given tag and payload, or what is
/// wrong with it.
pub fn dump_frame(addr: &str, timestamp: u64, tag: u8, payload: &[u8]) -> (r: Result<
    String,
    &'static str,
>)
    ensures
        match c2s::c2s_message(tag, payload@) {
            Ok(m) => r matches Ok(s) && s@ == line(addr@, timestamp, c2s_display::c2s_text(m)),
            Err(e) => r matches Err(e2) && e2@ == e,
        },
{
    let msg = parse_pg_message(tag, payload)?;
    let mut w = String::new();
    w.append("[");
    w.append(addr);
    w.append("] (");
    push_decimal(&mut w, timestamp);
    w.append(") -> ");
    msg.write(&mut w);
    w.push('\n');
    assert(w@ =~= line(addr@, timestamp, c2s_display::c2s_text(msg@)));
    Ok(w)
}

} // verus!
