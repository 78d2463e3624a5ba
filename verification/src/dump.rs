//! Captured frames as lines of text.
use std::collections::HashMap;

use vstd::prelude::*;
use vstd::string::*;

use crate::capture::frame_buffer::{FrameBuffer, FrameBufferView, FrameInfo};
use crate::capture::reader::{CaptureData, ClientId};
use crate::compare::frame_text;
use crate::compare::frame_text::write_frame;
use crate::proto::c2s::PgMsgParser;
use crate::utils::maps::{hash_put, hash_take};
use crate::utils::text;
use crate::utils::text::push_decimal;

verus! {

/// The line of a frame: the time, the client, and the message, or what is wrong with
/// it and its bytes.
pub open spec fn line(time: Seq<char>, id: ClientId, frame: Seq<u8>) -> Seq<char> {
    time + ","@ + text::decimal(id as nat) + ","@ + frame_text::frame_text(frame) + seq!['\n']
}

/// The lines of the frames of a buffer.
pub open spec fn lines(
    time: Seq<char>,
    id: ClientId,
    v: FrameBufferView,
    frames: Seq<FrameInfo>,
) -> Seq<char>
    decreases frames.len(),
{
    if frames.len() == 0 {
        Seq::empty()
    } else {
        line(time, id, v.frame_bytes(frames[0])) + lines(time, id, v, frames.drop_first())
    }
}

/// Appends the line of a frame.
pub fn write_line(w: &mut String, parser: &mut PgMsgParser, time: &str, id: ClientId, frame: &[u8])
    ensures
        final(w)@ == old(w)@ + line(time@, id, frame@),
{
    w.append(time);
    w.append(",");
    push_decimal(w, id as u64);
    w.append(",");
    write_frame(w, parser, frame);
    w.push('\n');
    assert(w@ =~= old(w)@ + line(time@, id, frame@));
}

/// Cuts what clients sent into frames, and prints them.
pub struct Dumper {
    frame_buffers: HashMap<u32, FrameBuffer>,
    parser: PgMsgParser,
}

impl View for Dumper {
    /// What came of each client.
    type V = Map<ClientId, FrameBufferView>;

    closed spec fn view(&self) -> Map<ClientId, FrameBufferView> {
        self.frame_buffers@.map_values(|b: FrameBuffer| b@)
    }
}

/// The buffer of a client, or a fresh one.
pub open spec fn buffer_of(m: Map<ClientId, FrameBufferView>, id: ClientId) -> FrameBufferView {
    if m.contains_key(id) {
        m[id]
    } else {
        FrameBufferView::fresh(id)
    }
}

impl Dumper {
    /// The buffers are sound.
    pub open spec fn wf(self) -> bool {
        forall|id: ClientId|
            #![trigger self@[id]]
            self@.contains_key(id) ==> self@[id].wf()
    }

    /// Nothing came.
    pub fn new() -> (r: Self)
        ensures
            r.wf(),
            r@ == Map::<ClientId, FrameBufferView>::empty(),
    {
        broadcast use vstd::std_specs::hash::group_hash_axioms;

        let r = Dumper { frame_buffers: HashMap::new(), parser: PgMsgParser::new() };
        assert(r@ =~= Map::empty());
        r
    }

    /// Whether the buffer of a client has room for more bytes.
    pub fn has_room(&self, id: ClientId, n: usize) -> (r: bool)
        requires
            self.wf(),
        ensures
            r == (buffer_of(self@, id).end() + n <= usize::MAX),
    {
        broadcast use vstd::std_specs::hash::group_hash_axioms;

        match self.frame_buffers.get(&id) {
            Some(b) => {
                assert(self@[id] == b@);
                b.has_room(n)
            },
            None => true,
        }
    }

    /// Takes in bytes of a client, and gives the lines of the frames that they
    /// complete, all with the given text of their time.
    pub fn on_data(&mut self, data: &CaptureData<'_>, time: &str) -> (r: String)
        requires
            old(self).wf(),
            buffer_of(old(self)@, data.id).end() + data.buf@.len() <= usize::MAX,
        ensures
            final(self).wf(),
            ({
                let v = buffer_of(old(self)@, data.id).captured(
                    data.connect,
                    data.ts,
                    data.buf@,
                );
                &&& r@ == lines(time@, data.id, v, v.frames)
                &&& final(self)@ == old(self)@.insert(
                    data.id,
                    FrameBufferView { frames: Seq::empty(), ..v },
                )
            }),
    {
        let ghost before = self@;
        let mut buf = match hash_take(&mut self.frame_buffers, data.id) {
            Some(b) => {
                assert(before[data.id] == b@);
                b
            },
            None => FrameBuffer::new(data.id),
        };
        assert(buf@ == buffer_of(before, data.id));
        buf.on_capture(data);
        let ghost v = buf@;
        let ghost kept = self.frame_buffers@;
        let mut w = String::new();
        let ghost mut i: int = 0;
        let ghost all = lines(time@, data.id, v, v.frames);
        proof {
            assert(v.frames.skip(0) =~= v.frames);
            assert(w@ + all =~= all);
        }
        loop
            invariant_except_break
                0 <= i <= v.frames.len(),
                self.frame_buffers@ == kept,
                buf@ == (FrameBufferView { frames: v.frames.skip(i), ..v }),
                buf@.wf(),
                all == w@ + lines(time@, data.id, v, v.frames.skip(i)),
            ensures
                self.frame_buffers@ == kept,
                buf@ == (FrameBufferView { frames: Seq::empty(), ..v }),
                buf@.wf(),
                all == w@,
            decreases v.frames.len() - i,
        {
            let ghost rest = v.frames.skip(i);
            let info = match buf.pop_frame() {
                Some(info) => info,
                None => {
                    proof {
                        assert(rest =~= Seq::empty());
                        assert(w@ + lines(time@, data.id, v, rest) =~= w@);
                    }
                    break;
                },
            };
            let ghost sofar = w@;
            assert(rest.drop_first() =~= v.frames.skip(i + 1));
            let frame = buf.read_frame(&info);
            write_line(&mut w, &mut self.parser, time, data.id, frame);
            proof {
                assert(frame@ == v.frame_bytes(rest[0]));
                assert(sofar + lines(time@, data.id, v, rest) =~= w@ + lines(
                    time@,
                    data.id,
                    v,
                    rest.drop_first(),
                ));
                i = i + 1;
            }
        }
        let ghost done = buf@;
        hash_put(&mut self.frame_buffers, data.id, buf);
        assert(self@ =~= before.insert(data.id, done));
        w
    }
}

/// The bytes of a frame, as they stand in the stream of the client.
pub open spec fn bytes_at_frame(v: FrameBufferView, f: FrameInfo) -> Seq<u8> {
    v.data.subrange(f.offset - v.start, f.offset - v.start + f.len)
}

/// Each frame has a line of its own, in order: the time, the number of the client and the
/// message, with commas between them, and the end of the line.
pub proof fn law_lines(time: Seq<char>, id: ClientId, v: FrameBufferView, frames: Seq<FrameInfo>)
    ensures
        lines(time, id, v, frames) == frames.map_values(
            |f: FrameInfo|
                time + seq![','] + text::decimal(id as nat) + seq![','] + frame_text::frame_text(
                    bytes_at_frame(v, f),
                ) + seq!['\n'],
        ).flatten(),
    decreases frames.len(),
{
    let one = |f: FrameInfo|
        time + seq![','] + text::decimal(id as nat) + seq![','] + frame_text::frame_text(
            bytes_at_frame(v, f),
        ) + seq!['\n'];
    reveal_strlit(",");
    assert(","@ =~= seq![',']);
    if frames.len() > 0 {
        law_lines(time, id, v, frames.drop_first());
        assert(frames.map_values(one).drop_first() =~= frames.drop_first().map_values(one));
    }
}

/// What came of one client does not change what came of another.
pub proof fn law_buffers_apart(
    m: Map<ClientId, FrameBufferView>,
    id: ClientId,
    other: ClientId,
    v: FrameBufferView,
)
    ensures
        m.contains_key(id) ==> buffer_of(m, id) == m[id],
        !m.contains_key(id) ==> buffer_of(m, id) == FrameBufferView::fresh(id),
        id != other ==> buffer_of(m.insert(id, v), other) == buffer_of(m, other),
{
}

} // verus!
