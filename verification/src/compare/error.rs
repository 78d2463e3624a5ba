//! Why two captures are not the same.
use vstd::prelude::*;
use vstd::string::*;

use crate::capture::frame_buffer::FrameInfo;
use crate::parser::c2s_display;
use crate::parser::c2s_display::TagFrame;
use crate::utils::addr::Addr;
use crate::utils::text;
use crate::utils::text::push_decimal;

verus! {

/// Why two captures are not the same.
#[derive(Debug)]
pub enum CompareError {
    /// Two frames are not the same: whose each is, where it lies, and its text.
    MismatchedFrames {
        addr1: Addr,
        info1: FrameInfo,
        content1: String,
        addr2: Addr,
        info2: FrameInfo,
        content2: String,
    },
}

/// Two frames that are not the same. `frame1` and `frame2` are their payloads.
pub fn format_frame_mismatch(
    addr1: Addr,
    info1: &FrameInfo,
    frame1: &[u8],
    addr2: Addr,
    info2: &FrameInfo,
    frame2: &[u8],
) -> (r: CompareError)
    ensures
        r matches CompareError::MismatchedFrames {
            addr1: a1,
            info1: i1,
            content1: c1,
            addr2: a2,
            info2: i2,
            content2: c2,
        } && a1 == addr1 && i1 == *info1 && c1@ == c2s_display::frame_text(info1.tag, frame1@)
            && a2 == addr2 && i2 == *info2 && c2@ == c2s_display::frame_text(info2.tag, frame2@),
{
    CompareError::MismatchedFrames {
        addr1,
        info1: *info1,
        content1: TagFrame(info1.tag, frame1).to_text(),
        addr2,
        info2: *info2,
        content2: TagFrame(info2.tag, frame2).to_text(),
    }
}

/// Whose a frame is, and where it starts and ends.
pub open spec fn where_text(addr: Seq<char>, f: FrameInfo) -> Seq<char> {
    addr + " at "@ + text::decimal(f.offset as nat) + ":"@ + text::decimal(
        (f.offset + f.len) as nat,
    )
}

/// The text of an error, given the texts of the two addresses.
pub open spec fn error_text(e: CompareError, addr1: Seq<char>, addr2: Seq<char>) -> Seq<char> {
    match e {
        CompareError::MismatchedFrames { info1, content1, info2, content2, .. } => {
            "Compare failed: Frame contents do not match\n"@ + where_text(addr1, info1) + " <-> "@
                + where_text(addr2, info2) + "\nFirst frame:\n"@ + content1@
                + "\nSecond frame:\n"@ + content2@ + "\n                    "@
        },
    }
}

/// Appends whose a frame is, and where it starts and ends.
fn push_where(w: &mut String, addr: &str, f: &FrameInfo)
    requires
        f.offset + f.len <= usize::MAX,
    ensures
        final(w)@ == old(w)@ + where_text(addr@, *f),
{
    w.append(addr);
    w.append(" at ");
    push_decimal(w, f.offset as u64);
    w.append(":");
    push_decimal(w, (f.offset + f.len) as u64);
    assert(final(w)@ =~= old(w)@ + where_text(addr@, *f));
}

impl CompareError {
    /// The frames lie within a stream that can be addressed.
    pub open spec fn wf(self) -> bool {
        match self {
            CompareError::MismatchedFrames { info1, info2, .. } => info1.offset + info1.len
                <= usize::MAX && info2.offset + info2.len <= usize::MAX,
        }
    }

    /// The error as text, given the texts of the two addresses.
    pub fn to_text(&self, addr1: &str, addr2: &str) -> (r: String)
        requires
            self.wf(),
        ensures
            r@ == error_text(*self, addr1@, addr2@),
    {
        match self {
            CompareError::MismatchedFrames { info1, content1, info2, content2, .. } => {
                let mut w = String::new();
                w.append("Compare failed: Frame contents do not match\n");
                push_where(&mut w, addr1, info1);
                w.append(" <-> ");
                push_where(&mut w, addr2, info2);
                w.append("\nFirst frame:\n");
                w.append(content1.as_str());
                w.append("\nSecond frame:\n");
                w.append(content2.as_str());
                w.append("\n                    ");
                assert(w@ =~= error_text(*self, addr1@, addr2@));
                w
            },
        }
    }
}

/// The text of an error has a line on what is wrong, one on whose the two frames are and where
/// each lies, from its first byte to behind its last, and both frames, each below a line on
/// which it is; and blanks.
pub proof fn law_error_text(
    addr1: Addr,
    info1: FrameInfo,
    content1: String,
    addr2: Addr,
    info2: FrameInfo,
    content2: String,
    text1: Seq<char>,
    text2: Seq<char>,
)
    ensures
        error_text(
            CompareError::MismatchedFrames { addr1, info1, content1, addr2, info2, content2 },
            text1,
            text2,
        ) == text::joined(
            seq![
                "Compare failed: Frame contents do not match"@,
                text1 + " at "@ + text::decimal(info1.offset as nat) + ":"@ + text::decimal(
                    (info1.offset + info1.len) as nat,
                ) + " <-> "@ + text2 + " at "@ + text::decimal(info2.offset as nat) + ":"@
                    + text::decimal((info2.offset + info2.len) as nat),
                "First frame:"@,
                content1@,
            ].push("Second frame:"@).push(content2@).push("                    "@),
            '\n',
        ),
{
    let places = where_text(text1, info1) + " <-> "@ + where_text(text2, info2);
    let told = "Compare failed: Frame contents do not match"@;
    let placed = text1 + " at "@ + text::decimal(info1.offset as nat) + ":"@ + text::decimal(
        (info1.offset + info1.len) as nat,
    ) + " <-> "@ + text2 + " at "@ + text::decimal(info2.offset as nat) + ":"@ + text::decimal(
        (info2.offset + info2.len) as nat,
    );
    assert(places =~= placed);
    let lines = Seq::<Seq<char>>::empty();
    text::lemma_joined_push(lines, told, '\n');
    let lines1 = lines.push(told);
    text::lemma_joined_push(lines1, placed, '\n');
    let lines2 = lines1.push(placed);
    text::lemma_joined_push(lines2, "First frame:"@, '\n');
    let lines3 = lines2.push("First frame:"@);
    text::lemma_joined_push(lines3, content1@, '\n');
    let lines4 = lines3.push(content1@);
    assert(lines4 =~= seq![told, placed, "First frame:"@, content1@]);
    text::lemma_joined_push(lines4, "Second frame:"@, '\n');
    let lines5 = lines4.push("Second frame:"@);
    text::lemma_joined_push(lines5, content2@, '\n');
    let lines6 = lines5.push(content2@);
    text::lemma_joined_push(lines6, "                    "@, '\n');
    reveal_strlit("Compare failed: Frame contents do not match");
    reveal_strlit("Compare failed: Frame contents do not match\n");
    reveal_strlit("\nFirst frame:\n");
    reveal_strlit("First frame:");
    reveal_strlit("\nSecond frame:\n");
    reveal_strlit("Second frame:");
    reveal_strlit("\n                    ");
    reveal_strlit("                    ");
    assert("Compare failed: Frame contents do not match\n"@ =~= told.push('\n'));
    assert("\nFirst frame:\n"@ =~= seq!['\n'] + "First frame:"@ + seq!['\n']);
    assert("\nSecond frame:\n"@ =~= seq!['\n'] + "Second frame:"@ + seq!['\n']);
    assert("\n                    "@ =~= seq!['\n'] + "                    "@);
    let half = told.push('\n') + placed + "\nFirst frame:\n"@ + content1@;
    assert(half =~= text::joined(lines4, '\n'));
    assert(half + "\nSecond frame:\n"@ + content2@ + "\n                    "@ =~= text::joined(
        lines6.push("                    "@),
        '\n',
    ));
}

} // verus!
