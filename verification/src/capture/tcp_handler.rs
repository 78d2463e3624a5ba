//! The client side of one TCP connection: segments in, stream out.
use std::collections::BTreeMap;

use vstd::prelude::*;

use crate::capture::frame_buffer;
use crate::capture::frame_buffer::{FrameBuffer, FrameBufferView, FrameInfo};
use crate::capture::held;

verus! {

/// A segment: its number, whether it opens the connection, and its bytes.
pub struct TcpSegment<'a> {
    pub sequence_number: u32,
    pub syn: bool,
    pub payload: &'a [u8],
}

/// What a handler knows of its connection.
#[verifier::ext_equal]
pub struct TcpHandlerView {
    pub buf: FrameBufferView,
    pub next_seq: Option<u32>,
    pub reorder: Map<u32, Seq<u8>>,
    pub packet_count: usize,
    pub reorder_count: usize,
}

impl TcpHandlerView {
    /// A connection of which nothing came yet.
    pub open spec fn fresh() -> TcpHandlerView {
        TcpHandlerView {
            buf: FrameBufferView::fresh(0),
            next_seq: None,
            reorder: Map::empty(),
            packet_count: 0,
            reorder_count: 0,
        }
    }

    /// With a connection that is opened by the segment with number `syn_seq`.
    pub open spec fn opened(self, syn_seq: u32) -> TcpHandlerView {
        TcpHandlerView {
            next_seq: match self.next_seq {
                Some(n) => Some(n),
                None => Some(held::advanced(syn_seq, 1)),
            },
            buf: self.buf.connected(self.buf.connect_ts),
            ..self
        }
    }

    /// Whether a segment has bytes that come next.
    pub open spec fn in_order(self, seq: u32, payload: Seq<u8>) -> bool {
        held::in_order(self.next_seq, seq, payload)
    }

    /// The bytes that come next with a segment.
    pub open spec fn delivered(self, seq: u32, payload: Seq<u8>) -> Seq<u8> {
        held::sorted_in(self.next_seq, self.reorder, seq, payload).2
    }

    /// After a segment whose first byte has number `seq`: in order, it goes to the
    /// frame buffer, with what is let go by it; too early, it is held back and
    /// counted; and seen before, it changes nothing.
    pub open spec fn ingested(self, seq: u32, payload: Seq<u8>) -> TcpHandlerView {
        let (next_seq, reorder, bytes) = held::sorted_in(
            self.next_seq,
            self.reorder,
            seq,
            payload,
        );
        TcpHandlerView {
            buf: self.buf.extended(bytes),
            next_seq,
            reorder,
            reorder_count: if held::early(self.next_seq, seq, payload) {
                (self.reorder_count + 1) as usize
            } else {
                self.reorder_count
            },
            ..self
        }
    }

    /// With the frames that the bytes so far complete, without those of the start of
    /// the connection.
    pub open spec fn cut(self, ts: u64) -> TcpHandlerView {
        let v = self.buf.cut(ts);
        TcpHandlerView {
            buf: FrameBufferView { frames: frame_buffer::session_frames(v), ..v },
            ..self
        }
    }

    /// Ready for the bytes of a segment: with the connection opened, where the segment
    /// opens it; and the number of its first byte.
    pub open spec fn begun(self, seq: u32, syn: bool) -> (TcpHandlerView, u32) {
        if syn {
            (self.opened(seq), held::advanced(seq, 1))
        } else {
            (self, seq)
        }
    }

    /// After a segment, and whether it had bytes that came next.
    pub open spec fn processed(self, seq: u32, syn: bool, payload: Seq<u8>) -> (
        TcpHandlerView,
        bool,
    ) {
        let (v, first) = self.begun(seq, syn);
        let after = v.ingested(first, payload);
        let fed = v.in_order(first, payload);
        (
            if fed {
                TcpHandlerView { packet_count: (after.packet_count + 1) as usize, ..after }
            } else {
                after
            },
            fed,
        )
    }

    /// Whether there is room for a segment.
    pub open spec fn accepts(self, seq: u32, syn: bool, payload: Seq<u8>) -> bool {
        let (v, first) = self.begun(seq, syn);
        self.buf.wf() && v.has_room(first, payload)
    }

    /// Whether the frame buffer has room for what a segment delivers, and the
    /// counters for one more.
    pub open spec fn has_room(self, seq: u32, payload: Seq<u8>) -> bool {
        &&& self.buf.wf()
        &&& self.buf.end() + self.delivered(seq, payload).len() <= usize::MAX
        &&& self.packet_count < usize::MAX
        &&& self.reorder_count < usize::MAX
    }
}

/// Puts the segments of a connection in order, and hands them to a frame buffer.
pub struct TcpHandler {
    pub buf: FrameBuffer,
    next_seq: Option<u32>,
    reorder: BTreeMap<u32, Vec<u8>>,
    pub packet_count: usize,
    pub reorder_count: usize,
}

impl View for TcpHandler {
    type V = TcpHandlerView;

    closed spec fn view(&self) -> TcpHandlerView {
        TcpHandlerView {
            buf: self.buf@,
            next_seq: self.next_seq,
            reorder: held::bytes_of(self.reorder@),
            packet_count: self.packet_count,
            reorder_count: self.reorder_count,
        }
    }
}

impl Default for TcpHandler {
    fn default() -> (r: Self)
        ensures
            r@ == TcpHandlerView::fresh(),
            r@.buf.wf(),
    {
        let r = TcpHandler {
            buf: FrameBuffer::default(),
            next_seq: None,
            reorder: BTreeMap::new(),
            packet_count: 0,
            reorder_count: 0,
        };
        assert(r@.reorder =~= Map::empty());
        r
    }
}

impl TcpHandler {
    /// Notes the number of the segment that opens the connection.
    pub fn set_isn(&mut self, syn_seq: u32)
        requires
            old(self)@.buf.wf(),
        ensures
            final(self)@ == old(self)@.opened(syn_seq),
            final(self)@.buf.wf(),
    {
        if self.next_seq.is_none() {
            self.next_seq = Some(held::advance(syn_seq, 1));
        }
        self.buf.set_connected();
    }

    /// Whether there is room for a segment, with what is let go by it.
    pub fn has_room(&self, tcp: &TcpSegment<'_>) -> (r: bool)
        requires
            self@.buf.wf(),
        ensures
            r == self@.accepts(tcp.sequence_number, tcp.syn, tcp.payload@),
    {
        let first: u32 = if tcp.syn {
            held::advance(tcp.sequence_number, 1)
        } else {
            tcp.sequence_number
        };
        let next_seq: Option<u32> = match self.next_seq {
            Some(n) => Some(n),
            None => if tcp.syn {
                Some(first)
            } else {
                None
            },
        };
        let bytes: u128 = held::sorted_in_len(next_seq, &self.reorder, first, tcp.payload);
        bytes <= usize::MAX as u128 && self.buf.has_room(bytes as usize) && self.packet_count
            < usize::MAX && self.reorder_count < usize::MAX
    }

    /// Takes in a segment. The result says whether it had bytes that came next.
    pub fn process_packet(&mut self, tcp: &TcpSegment<'_>) -> (r: bool)
        requires
            old(self)@.accepts(tcp.sequence_number, tcp.syn, tcp.payload@),
        ensures
            (final(self)@, r) == old(self)@.processed(
                tcp.sequence_number,
                tcp.syn,
                tcp.payload@,
            ),
            final(self)@.buf.wf(),
    {
        let seq: u32 = tcp.sequence_number;
        let effective_seq: u32 = if tcp.syn {
            self.set_isn(seq);
            held::advance(seq, 1)
        } else {
            seq
        };
        if self.ingest(effective_seq, tcp.payload) {
            self.packet_count += 1;
            return true;
        }
        false
    }

    /// Takes in bytes whose first has number `seq`. The result says whether some
    /// of them came next.
    pub fn ingest(&mut self, seq: u32, payload: &[u8]) -> (r: bool)
        requires
            old(self)@.has_room(seq, payload@),
        ensures
            final(self)@ == old(self)@.ingested(seq, payload@),
            r == old(self)@.in_order(seq, payload@),
            final(self)@.buf.wf(),
    {
        proof {
            reveal(held::ahead);
        }
        let early: bool = !payload.is_empty() && match self.next_seq {
            Some(next) => held::distance(seq, next) > 0x8000_0000,
            None => false,
        };
        if early {
            self.reorder_count += 1;
        }
        let ghost before = self@;
        let bytes = held::sort_in(&mut self.next_seq, &mut self.reorder, seq, payload);
        assert(bytes@.len() > 0 ==> before.in_order(seq, payload@));
        self.buf.extend(bytes.as_slice());
        bytes.len() > 0
    }

    /// Queues the frames that the bytes so far complete, without those of the start
    /// of the connection. The result counts the frames that are queued.
    pub fn cut_frames(&mut self, ts: u64) -> (r: usize)
        requires
            old(self)@.buf.wf(),
        ensures
            final(self)@ == old(self)@.cut(ts),
            final(self)@.buf.wf(),
            r == final(self)@.buf.frames.len(),
    {
        self.buf.cut_frames(ts);
        let _ = self.buf.drop_startup_frames();
        self.buf.queued()
    }

    /// How many frames are queued.
    pub fn queued(&self) -> (r: usize)
        ensures
            r == self@.buf.frames.len(),
    {
        self.buf.queued()
    }

    /// The first queued frame.
    pub fn peek_frame(&self) -> (r: Option<FrameInfo>)
        requires
            self@.buf.wf(),
        ensures
            match r {
                Some(f) => self@.buf.frames.len() > 0 && f == self@.buf.frames[0]
                    && self@.buf.readable(f) && f.len >= 5,
                None => self@.buf.frames.len() == 0,
            },
    {
        self.buf.peek_frame()
    }

    /// The bytes of a frame.
    pub fn read_frame(&self, info: &FrameInfo) -> (r: &[u8])
        requires
            self@.buf.wf(),
            self@.buf.readable(*info),
        ensures
            r@ == self@.buf.frame_bytes(*info),
    {
        self.buf.read_frame(info)
    }

    /// Drops the first queued frame.
    pub fn next_frame(&mut self)
        requires
            old(self)@.buf.wf(),
            old(self)@.buf.frames.len() > 0,
        ensures
            final(self)@ == (TcpHandlerView {
                buf: FrameBufferView {
                    frames: old(self)@.buf.frames.drop_first(),
                    ..old(self)@.buf
                },
                ..old(self)@
            }),
            final(self)@.buf.wf(),
    {
        let _ = self.buf.pop_frame();
    }
}

} // verus!
