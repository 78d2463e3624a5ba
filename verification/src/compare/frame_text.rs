//! Whole frames as text.
use vstd::prelude::*;
use vstd::string::*;

use crate::proto::c2s;
use crate::proto::c2s::PgMsgParser;
use crate::proto::display;
use crate::utils::text;
use crate::utils::text::write_escaped_bytes;

verus! {

/// A whole frame as text: its message, or what is wrong and its bytes in escaped
/// form.
pub open spec fn frame_text(frame: Seq<u8>) -> Seq<char> {
    match c2s::message(frame) {
        Ok(m) => display::message_text(m),
        Err(e) => seq!['('] + e + "),"@ + text::escaped(frame),
    }
}

/// Appends a whole frame as text.
pub fn write_frame(w: &mut String, parser: &mut PgMsgParser, frame: &[u8])
    ensures
        final(w)@ == old(w)@ + frame_text(frame@),
{
    match parser.parse(frame) {
        Ok(msg) => msg.write(w),
        Err(e) => {
            w.push('(');
            w.append(e);
            w.append("),");
            write_escaped_bytes(w, frame);
            assert(final(w)@ =~= old(w)@ + frame_text(frame@));
        },
    }
}

/// A whole frame as text.
pub fn display_frame(parser: &mut PgMsgParser, frame: &[u8]) -> (r: String)
    ensures
        r@ == frame_text(frame@),
{
    let mut w = String::new();
    write_frame(&mut w, parser, frame);
    assert(w@ =~= frame_text(frame@));
    w
}

/// A frame that holds a message is printed as that message; any other with what is wrong with
/// it in brackets, and then its bytes.
pub proof fn law_frame_text(frame: Seq<u8>)
    ensures
        c2s::message(frame) matches Ok(m) ==> frame_text(frame) == display::message_text(m),
        c2s::message(frame) matches Err(e) ==> frame_text(frame) == seq!['('] + e + seq![')', ',']
            + text::escaped(frame),
{
    reveal_strlit("),");
    assert("),"@ =~= seq![')', ',']);
}

} // verus!
