//! The bytes that one client sent, cut into frames.
use std::collections::VecDeque;

use vstd::prelude::*;
use vstd::std_specs::vecdeque::*;

use crate::capture::reader::{CaptureData, ClientId};
use crate::proto::tags;
use crate::utils::parse;
use crate::utils::parse::{bytes_from, read_u32};

verus! {

/// How many frames in a row must look right before a lost connection counts as
/// found again.
pub const RESYNC_CHAIN_LEN: usize = 3;

/// The largest length that a frame may give.
pub const MAX_FRAME_LEN: u32 = 10_000_000;

/// How many bytes in front of the first queued frame are kept.
pub const MAX_GARBAGE: usize = 65536;

/// What the next bytes of a connection should be.
#[derive(Debug, Clone, Copy, PartialEq, Eq, Structural)]
pub enum ConnState {
    Unknown,
    AwaitingStartup,
    Normal,
    CopyIn,
}

impl Default for ConnState {
    fn default() -> (r: Self)
        ensures
            r == ConnState::Unknown,
    {
        ConnState::Unknown
    }
}

/// A frame: where it starts in the stream of the client, how long it is, when it
/// came, and its type byte (zero where it has none).
#[derive(Debug, Clone, Copy)]
pub struct FrameInfo {
    pub offset: usize,
    pub len: usize,
    pub ts: u64,
    pub tag: u8,
}

/// A frame that was found, with the code that a frame without type byte has.
struct RawFrame {
    offset: usize,
    len: usize,
    tag: u8,
    code: Option<u32>,
}

/// What the bytes at some place are.
pub enum Cut {
    /// A frame of `len` bytes after `skip` bytes that belong to none.
    Frame { skip: int, len: int, tag: u8 },
    /// The start of a frame, it seems; more bytes will show.
    Wait,
    /// Not the start of a frame.
    Invalid,
}

/// Whether a client sends frames with this type byte.
pub open spec fn is_client_tag(tag: u8) -> bool {
    ||| tag == tags::F_QUERY
    ||| tag == tags::F_PARSE
    ||| tag == tags::F_BIND
    ||| tag == tags::F_DESCRIBE
    ||| tag == tags::F_EXECUTE
    ||| tag == tags::F_CLOSE
    ||| tag == tags::F_COPY_FAIL
    ||| tag == tags::F_COPY_DONE
    ||| tag == tags::F_PASSWORD_MESSAGE
    ||| tag == tags::F_SYNC
    ||| tag == tags::F_FLUSH
    ||| tag == tags::F_TERMINATE
}

/// The frame without type byte that the bytes start with: four bytes of length,
/// which count themselves, and the rest.
pub open spec fn startup_at(b: Seq<u8>) -> Cut {
    let len = parse::be32(b);
    if b.len() < 4 {
        Cut::Wait
    } else if b[0] != 0 || len < 8 || len > MAX_FRAME_LEN {
        Cut::Invalid
    } else if b.len() < len {
        Cut::Wait
    } else {
        Cut::Frame { skip: 0, len, tag: 0 }
    }
}

/// The frame with type byte that the bytes start with: the type byte, four bytes
/// of length, which count themselves, and the rest.
pub open spec fn tagged_at(b: Seq<u8>) -> Cut {
    let len = parse::be32(b.skip(1));
    if b.len() < 5 {
        Cut::Wait
    } else if !is_client_tag(b[0]) || len < 4 || len > MAX_FRAME_LEN {
        Cut::Invalid
    } else if b.len() < 1 + len {
        Cut::Wait
    } else {
        Cut::Frame { skip: 0, len: 1 + len, tag: b[0] }
    }
}

/// Whether the bytes start with `count` frames in a row.
pub open spec fn chain_at(b: Seq<u8>, count: nat) -> bool
    decreases count,
{
    count == 0 || (tagged_at(b) matches Cut::Frame { len, .. } && chain_at(
        b.skip(len),
        (count - 1) as nat,
    ))
}

/// The first place from which on frames follow each other.
pub open spec fn resync_at(b: Seq<u8>) -> Option<int>
    decreases b.len(),
{
    if b.len() == 0 {
        None
    } else if chain_at(b, RESYNC_CHAIN_LEN as nat) {
        Some(0)
    } else {
        match resync_at(b.skip(1)) {
            Some(k) => Some(k + 1),
            None => None,
        }
    }
}

/// What the bytes are to a connection in the given state.
#[verifier::opaque]
pub open spec fn cut_at(state: ConnState, b: Seq<u8>) -> Cut {
    match state {
        ConnState::AwaitingStartup => startup_at(b),
        ConnState::Normal | ConnState::CopyIn => tagged_at(b),
        ConnState::Unknown => match resync_at(b) {
            None => Cut::Wait,
            Some(k) => match tagged_at(b.skip(k)) {
                Cut::Frame { len, tag, .. } => Cut::Frame { skip: k, len, tag },
                _ => Cut::Wait,
            },
        },
    }
}

/// The state after a frame: `tag` is its type byte, and `b` starts with it.
#[verifier::opaque]
pub open spec fn state_after(state: ConnState, tag: u8, b: Seq<u8>) -> ConnState {
    match state {
        ConnState::AwaitingStartup => {
            let code = parse::be32(b.skip(4));
            if code == tags::F_SSL_REQUEST || code == tags::F_GSS_REQUEST {
                ConnState::AwaitingStartup
            } else {
                ConnState::Normal
            }
        },
        ConnState::Normal => if tag == tags::F_COPY_DATA {
            ConnState::CopyIn
        } else {
            ConnState::Normal
        },
        ConnState::CopyIn => if tag == tags::F_COPY_DONE || tag == tags::F_COPY_FAIL {
            ConnState::Normal
        } else {
            ConnState::CopyIn
        },
        ConnState::Unknown => ConnState::Normal,
    }
}

/// The frames in `b`, which stands at `at` in the stream; where the bytes start
/// that are in no frame yet; and the state there. Bytes that cannot start a
/// frame make the connection lost, and the search for frames goes on there.
pub open spec fn scan(state: ConnState, b: Seq<u8>, at: int, ts: u64) -> (
    Seq<FrameInfo>,
    int,
    ConnState,
)
    decreases
            b.len(),
            (if state == ConnState::Unknown {
                0nat
            } else {
                1nat
            }),
{
    if b.len() == 0 {
        (Seq::empty(), at, state)
    } else {
        match cut_at(state, b) {
            Cut::Wait => (Seq::empty(), at, state),
            Cut::Invalid => {
                proof {
                    lemma_cut(state, b);
                }
                scan(ConnState::Unknown, b, at, ts)
            },
            Cut::Frame { skip, len, tag } => {
                proof {
                    lemma_cut(state, b);
                }
                let next = state_after(state, tag, b.skip(skip));
                let (rest, end, last) = scan(next, b.skip(skip + len), at + skip + len, ts);
                let frame = FrameInfo { offset: (at + skip) as usize, len: len as usize, ts, tag };
                (seq![frame] + rest, end, last)
            },
        }
    }
}

/// The place that `resync_at` finds lies within the bytes.
proof fn lemma_resync(b: Seq<u8>)
    ensures
        resync_at(b) matches Some(k) ==> 0 <= k < b.len() && chain_at(
            b.skip(k),
            RESYNC_CHAIN_LEN as nat,
        ),
    decreases b.len(),
{
    if b.len() > 0 {
        if chain_at(b, RESYNC_CHAIN_LEN as nat) {
            assert(b.skip(0) =~= b);
        } else {
            lemma_resync(b.skip(1));
            if let Some(k) = resync_at(b.skip(1)) {
                assert(b.skip(1).skip(k) =~= b.skip(k + 1));
            }
        }
    }
}

/// A frame that is found lies within the bytes, and is not empty; a lost
/// connection is not lost again.
pub proof fn lemma_cut(state: ConnState, b: Seq<u8>)
    ensures
        cut_at(state, b) matches Cut::Frame { skip, len, tag } ==> {
            &&& 0 <= skip
            &&& 5 <= len
            &&& skip + len <= b.len()
            &&& state == ConnState::AwaitingStartup ==> len >= 8
            &&& state != ConnState::Unknown ==> skip == 0
        },
        state == ConnState::Unknown ==> !(cut_at(state, b) is Invalid),
{
    reveal(cut_at);
    lemma_resync(b);
}

/// What a frame buffer holds: a part of the stream of a client from `start` on,
/// the frames in it that nobody has taken yet, and the place `at` where the
/// bytes start that are in no frame yet.
#[verifier::ext_equal]
pub struct FrameBufferView {
    pub id: ClientId,
    pub state: ConnState,
    pub connect_ts: u64,
    pub frame_ts: Option<u64>,
    pub frames: Seq<FrameInfo>,
    pub data: Seq<u8>,
    pub start: int,
    pub at: int,
}

impl FrameBufferView {
    /// Nothing in it, for a client that nothing is known of.
    pub open spec fn fresh(id: ClientId) -> FrameBufferView {
        FrameBufferView {
            id,
            state: ConnState::Unknown,
            connect_ts: 0,
            frame_ts: None,
            frames: Seq::empty(),
            data: Seq::empty(),
            start: 0,
            at: 0,
        }
    }

    /// The place in the stream behind the last byte.
    pub open spec fn end(self) -> int {
        self.start + self.data.len()
    }

    /// Whether the bytes of a frame are there.
    pub open spec fn readable(self, f: FrameInfo) -> bool {
        self.start <= f.offset && f.offset + f.len <= self.end()
    }

    /// The bytes of a frame.
    pub open spec fn frame_bytes(self, f: FrameInfo) -> Seq<u8> {
        self.data.subrange(f.offset - self.start, f.offset - self.start + f.len)
    }

    /// The queued frames lie one behind the other in front of `at`.
    pub open spec fn wf(self) -> bool {
        &&& 0 <= self.start <= self.at <= self.end() <= usize::MAX
        &&& forall|i: int|
            #![trigger self.frames[i]]
            0 <= i < self.frames.len() ==> self.start <= self.frames[i].offset
                && self.frames[i].offset + self.frames[i].len <= self.at && self.frames[i].len >= 5
        &&& forall|i: int, j: int|
            #![trigger self.frames[i], self.frames[j]]
            0 <= i < j < self.frames.len() ==> self.frames[i].offset + self.frames[i].len
                <= self.frames[j].offset
    }

    /// Where the bytes start that are still needed.
    pub open spec fn needed_from(self) -> int {
        if self.frames.len() > 0 {
            self.frames[0].offset as int
        } else {
            self.at
        }
    }

    /// Without the bytes that are not needed, where these are many.
    pub open spec fn compacted(self) -> FrameBufferView {
        let garbage = self.needed_from() - self.start;
        if garbage > MAX_GARBAGE {
            FrameBufferView { data: self.data.skip(garbage), start: self.start + garbage, ..self }
        } else {
            self
        }
    }

    /// With a connection that starts at `ts`, where none was known of.
    pub open spec fn connected(self, ts: u64) -> FrameBufferView {
        if self.state == ConnState::Unknown {
            FrameBufferView { state: ConnState::AwaitingStartup, connect_ts: ts, ..self }
        } else {
            self
        }
    }

    /// With more bytes.
    pub open spec fn extended(self, buf: Seq<u8>) -> FrameBufferView {
        FrameBufferView { data: self.data + buf, ..self }
    }

    /// The time that the next frames get: that at which the bytes came that are
    /// in no frame yet.
    pub open spec fn next_ts(self, ts: u64) -> u64 {
        match self.frame_ts {
            Some(t) => t,
            None => ts,
        }
    }

    /// With the frames that the bytes so far complete.
    pub open spec fn cut(self, ts: u64) -> FrameBufferView {
        let (found, at, state) = scan(
            self.state,
            self.data.skip(self.at - self.start),
            self.at,
            self.next_ts(ts),
        );
        FrameBufferView {
            state,
            frames: self.frames + found,
            at,
            frame_ts: if at < self.end() {
                Some(ts)
            } else {
                None
            },
            ..self
        }
    }

    /// After bytes that were captured.
    #[verifier::opaque]
    pub open spec fn captured(self, connect: bool, ts: u64, buf: Seq<u8>) -> FrameBufferView {
        let v = if connect {
            self.connected(ts)
        } else {
            self
        };
        v.compacted().extended(buf).cut(ts)
    }
}

/// How many of the frames at the front have no type byte.
pub open spec fn startup_frames(frames: Seq<FrameInfo>) -> int
    decreases frames.len(),
{
    if frames.len() == 0 || frames[0].tag != 0 {
        0
    } else {
        1 + startup_frames(frames.drop_first())
    }
}

/// The frames behind those at the front without type byte.
pub open spec fn session_frames(v: FrameBufferView) -> Seq<FrameInfo> {
    v.frames.skip(startup_frames(v.frames))
}

/// The bytes that a client sent, as far as they are still needed, and the
/// frames in them.
pub struct FrameBuffer {
    pub id: ClientId,
    pub data: Vec<u8>,
    pub state: ConnState,
    pub connect_ts: u64,
    pub frame_ts: Option<u64>,
    pub frames: VecDeque<FrameInfo>,
    buf_offset: usize,
    frame_offset: usize,
}

impl View for FrameBuffer {
    type V = FrameBufferView;

    closed spec fn view(&self) -> FrameBufferView {
        FrameBufferView {
            id: self.id,
            state: self.state,
            connect_ts: self.connect_ts,
            frame_ts: self.frame_ts,
            frames: self.frames@,
            data: self.data@,
            start: self.buf_offset as int,
            at: self.frame_offset as int,
        }
    }
}

impl Default for FrameBuffer {
    fn default() -> (r: Self)
        ensures
            r@ == FrameBufferView::fresh(0),
            r@.wf(),
    {
        FrameBuffer::new(0)
    }
}

/// Whether a client sends frames with this type byte.
pub fn client_tag(tag: u8) -> (r: bool)
    ensures
        r == is_client_tag(tag),
{
    tag == tags::F_QUERY || tag == tags::F_PARSE || tag == tags::F_BIND || tag == tags::F_DESCRIBE
        || tag == tags::F_EXECUTE || tag == tags::F_CLOSE || tag == tags::F_COPY_FAIL || tag
        == tags::F_COPY_DONE || tag == tags::F_PASSWORD_MESSAGE || tag == tags::F_SYNC || tag
        == tags::F_FLUSH || tag == tags::F_TERMINATE
}

impl FrameBuffer {
    /// A buffer with nothing in it, for a client that nothing is known of.
    pub fn new(id: ClientId) -> (r: Self)
        ensures
            r@ == FrameBufferView::fresh(id),
            r@.wf(),
    {
        FrameBuffer {
            id,
            data: Vec::new(),
            state: ConnState::Unknown,
            connect_ts: 0,
            frame_ts: None,
            frames: VecDeque::new(),
            buf_offset: 0,
            frame_offset: 0,
        }
    }

    /// Takes in bytes that were captured, and queues the frames that they
    /// complete.
    pub fn on_capture(&mut self, data: &CaptureData<'_>)
        requires
            old(self)@.wf(),
            old(self)@.end() + data.buf@.len() <= usize::MAX,
        ensures
            final(self)@ == old(self)@.captured(data.connect, data.ts, data.buf@),
            final(self)@.wf(),
    {
        proof {
            reveal(FrameBufferView::captured);
        }
        if data.connect {
            self.mark_connection_start(data.ts);
        }
        self.compact_buffer();
        self.extend(data.buf);
        self.cut_frames(data.ts);
    }

    /// Takes in bytes without looking at them.
    pub fn extend(&mut self, payload: &[u8])
        requires
            old(self)@.wf(),
            old(self)@.end() + payload@.len() <= usize::MAX,
        ensures
            final(self)@ == old(self)@.extended(payload@),
            final(self)@.wf(),
    {
        let ghost before = self@;
        self.data.extend_from_slice(payload);
        assert(self@ =~= before.extended(payload@));
    }

    /// Notes that the connection starts here, where none was known of.
    pub fn mark_connection_start(&mut self, ts: u64)
        requires
            old(self)@.wf(),
        ensures
            final(self)@ == old(self)@.connected(ts),
            final(self)@.wf(),
    {
        let ghost before = self@;
        if self.state == ConnState::Unknown {
            self.state = ConnState::AwaitingStartup;
            self.connect_ts = ts;
        }
        assert(self@ =~= before.connected(ts));
    }

    /// Notes that the connection is known from its start, where none was known
    /// of.
    pub fn set_connected(&mut self)
        requires
            old(self)@.wf(),
        ensures
            final(self)@ == old(self)@.connected(old(self)@.connect_ts),
            final(self)@.wf(),
    {
        let ts: u64 = self.connect_ts;
        self.mark_connection_start(ts);
    }

    /// Queues the frames that the bytes so far complete.
    pub fn cut_frames(&mut self, ts: u64)
        requires
            old(self)@.wf(),
        ensures
            final(self)@ == old(self)@.cut(ts),
            final(self)@.wf(),
    {
        let ghost before = self@;
        let frame_ts: u64 = match self.frame_ts {
            Some(t) => t,
            None => ts,
        };
        let ghost all = scan(
            before.state,
            before.data.skip(before.at - before.start),
            before.at,
            frame_ts,
        );
        let ghost mut found: Seq<FrameInfo> = Seq::empty();
        assert(self.frames@ =~= before.frames + found);
        assert(all.0 =~= found + all.0);
        loop
            invariant
                self.data@ == before.data,
                self.buf_offset == before.start,
                self.id == before.id,
                self.connect_ts == before.connect_ts,
                self.frames@ == before.frames + found,
                before.wf(),
                self@.wf(),
                ({
                    let now = scan(
                        self.state,
                        self.data@.skip(self.frame_offset - self.buf_offset),
                        self.frame_offset as int,
                        frame_ts,
                    );
                    &&& all.0 == found + now.0
                    &&& all.1 == now.1
                    &&& all.2 == now.2
                }),
            ensures
                all.0 == found,
                all.1 == self.frame_offset,
                all.2 == self.state,
            decreases
                    self@.end() - self.frame_offset,
                    (if self.state == ConnState::Unknown {
                        0int
                    } else {
                        1int
                    }),
        {
            let ghost tail = self.data@.skip(self.frame_offset - self.buf_offset);
            proof {
                reveal(cut_at);
                reveal(state_after);
                lemma_cut(self.state, tail);
            }
            if self.frame_offset >= self.buf_offset + self.data.len() {
                assert(all.0 =~= found);
                break;
            }
            let parsed = match self.state {
                ConnState::AwaitingStartup => self.parse_startup(self.frame_offset),
                ConnState::Normal | ConnState::CopyIn => self.parse_tagged(self.frame_offset),
                ConnState::Unknown => Ok(self.resync(self.frame_offset)),
            };
            let raw = match parsed {
                Ok(Some(raw)) => raw,
                Ok(None) => {
                    assert(all.0 =~= found);
                    break;
                },
                Err(()) => {
                    let ghost held = self@;
                    self.state = ConnState::Unknown;
                    assert(self@ == (FrameBufferView { state: ConnState::Unknown, ..held }));
                    assert(self@.wf());
                    continue;
                },
            };
            let info = FrameInfo { offset: raw.offset, len: raw.len, ts: frame_ts, tag: raw.tag };
            proof {
                let k = raw.offset - self.frame_offset;
                assert(tail.skip(k + raw.len) =~= self.data@.skip(
                    raw.offset + raw.len - self.buf_offset,
                ));
                let next = scan(
                    state_after(self.state, raw.tag, tail.skip(k)),
                    tail.skip(k + raw.len),
                    raw.offset + raw.len,
                    frame_ts,
                );
                assert(found + (seq![info] + next.0) =~= found.push(info) + next.0);
                assert(before.frames + found.push(info) =~= (before.frames + found).push(info));
                found = found.push(info);
            }
            let ghost held = self@;
            self.advance_state(&raw);
            self.frame_offset = raw.offset + raw.len;
            self.frames.push_back(info);
            proof {
                assert(self@ == (FrameBufferView {
                    state: self.state,
                    frames: held.frames.push(info),
                    at: raw.offset + raw.len,
                    ..held
                }));
                assert(self@.wf());
            }
        }
        let ghost held = self@;
        if self.frame_offset < self.buf_offset + self.data.len() {
            self.frame_ts = Some(ts);
        } else {
            self.frame_ts = None;
        }
        proof {
            assert(self@ == (FrameBufferView { frame_ts: self.frame_ts, ..held }));
            assert(self@.wf());
        }
    }

    /// The bytes of a frame.
    pub fn read_frame(&self, info: &FrameInfo) -> (r: &[u8])
        requires
            self@.wf(),
            self@.readable(*info),
        ensures
            r@ == self@.frame_bytes(*info),
    {
        let start: usize = info.offset - self.buf_offset;
        &self.data.as_slice()[start..start + info.len]
    }

    /// What the next bytes should be.
    pub fn conn_state(&self) -> (r: ConnState)
        ensures
            r == self@.state,
    {
        self.state
    }

    /// Whose bytes these are.
    pub fn client_id(&self) -> (r: ClientId)
        ensures
            r == self@.id,
    {
        self.id
    }

    /// When the connection was started.
    pub fn connect_time(&self) -> (r: u64)
        ensures
            r == self@.connect_ts,
    {
        self.connect_ts
    }

    /// How many frames are queued.
    pub fn queued(&self) -> (r: usize)
        ensures
            r == self@.frames.len(),
    {
        self.frames.len()
    }

    /// Whether `n` more bytes can be taken in.
    pub fn has_room(&self, n: usize) -> (r: bool)
        requires
            self@.wf(),
        ensures
            r == (self@.end() + n <= usize::MAX),
    {
        n <= usize::MAX - (self.buf_offset + self.data.len())
    }

    /// The first queued frame.
    pub fn peek_frame(&self) -> (r: Option<FrameInfo>)
        requires
            self@.wf(),
        ensures
            match r {
                Some(f) => self@.frames.len() > 0 && f == self@.frames[0] && self@.readable(f)
                    && f.len >= 5,
                None => self@.frames.len() == 0,
            },
    {
        if self.frames.len() > 0 {
            Some(self.frames[0])
        } else {
            None
        }
    }

    /// Takes the first queued frame.
    pub fn pop_frame(&mut self) -> (r: Option<FrameInfo>)
        requires
            old(self)@.wf(),
        ensures
            final(self)@.wf(),
            match r {
                Some(f) => old(self)@.frames.len() > 0 && f == old(self)@.frames[0]
                    && final(self)@ == (FrameBufferView {
                    frames: old(self)@.frames.drop_first(),
                    ..old(self)@
                }) && final(self)@.readable(f),
                None => old(self)@.frames.len() == 0 && final(self)@ == old(self)@,
            },
    {
        let r = self.frames.pop_front();
        assert(r is Some ==> self@.frames =~= old(self)@.frames.drop_first());
        r
    }

    /// Drops the frames without type byte at the front of the queue. The result
    /// says whether there were any.
    pub fn drop_startup_frames(&mut self) -> (r: bool)
        requires
            old(self)@.wf(),
        ensures
            final(self)@ == (FrameBufferView { frames: session_frames(old(self)@), ..old(self)@ }),
            final(self)@.wf(),
            r == (startup_frames(old(self)@.frames) > 0),
    {
        let ghost start = self@;
        let ghost lead = startup_frames(start.frames);
        let ghost mut k: int = 0;
        proof {
            lemma_startup_frames(start.frames);
            assert(start.frames.skip(0) =~= start.frames);
            assert(start == (FrameBufferView { frames: start.frames.skip(0), ..start }));
        }
        let mut dropped: bool = false;
        while self.frames.len() > 0 && self.frames[0].tag == 0
            invariant
                0 <= k <= lead <= start.frames.len(),
                lead == startup_frames(start.frames),
                self@ == (FrameBufferView { frames: start.frames.skip(k), ..start }),
                self@.wf(),
                dropped == (k > 0),
                forall|i: int| 0 <= i < lead ==> (#[trigger] start.frames[i]).tag == 0,
                lead < start.frames.len() ==> start.frames[lead].tag != 0,
            decreases start.frames.len() - k,
        {
            let ghost before = self@.frames;
            assert(before[0] == start.frames[k]);
            let _ = self.pop_frame();
            dropped = true;
            assert(before.drop_first() =~= start.frames.skip(k + 1));
            proof {
                k = k + 1;
            }
        }
        proof {
            if k < lead {
                assert(self@.frames[0] == start.frames[k]);
            }
        }
        dropped
    }

    /// Lets go of the bytes that are not needed, where these are many.
    fn compact_buffer(&mut self)
        requires
            old(self)@.wf(),
        ensures
            final(self)@ == old(self)@.compacted(),
            final(self)@.wf(),
    {
        let offset: usize = if self.frames.len() > 0 {
            self.frames[0].offset
        } else {
            self.frame_offset
        };
        let garbage_size: usize = offset - self.buf_offset;
        if garbage_size > MAX_GARBAGE {
            let rest = self.data.split_off(garbage_size);
            assert(rest@ =~= old(self)@.data.skip(garbage_size as int));
            self.data = rest;
            self.buf_offset = offset;
        }
    }

    /// Moves to the state after a frame.
    fn advance_state(&mut self, raw: &RawFrame)
        requires
            old(self)@.wf(),
            old(self).buf_offset <= raw.offset,
            raw.offset + raw.len <= old(self)@.end(),
            old(self).state == ConnState::AwaitingStartup ==> raw.code == Some(
                parse::be32(old(self).data@.skip(raw.offset - old(self).buf_offset).skip(4)) as u32,
            ) && raw.len >= 8,
        ensures
            *final(self) == (FrameBuffer {
                state: state_after(
                    old(self).state,
                    raw.tag,
                    old(self).data@.skip(raw.offset - old(self).buf_offset),
                ),
                ..*old(self)
            }),
    {
        proof {
            reveal(state_after);
        }
        match self.state {
            ConnState::AwaitingStartup => match raw.code {
                Some(c) => {
                    if c != tags::F_SSL_REQUEST && c != tags::F_GSS_REQUEST {
                        self.state = ConnState::Normal;
                    }
                },
                None => self.state = ConnState::Normal,
            },
            ConnState::Normal => {
                if raw.tag == tags::F_COPY_DATA {
                    self.state = ConnState::CopyIn;
                }
            },
            ConnState::CopyIn => {
                if raw.tag == tags::F_COPY_DONE || raw.tag == tags::F_COPY_FAIL {
                    self.state = ConnState::Normal;
                }
            },
            ConnState::Unknown => self.state = ConnState::Normal,
        }
    }

    /// The frame without type byte at `offset`; nothing where more bytes must
    /// come first, and an error where none can start there.
    fn parse_startup(&self, offset: usize) -> (r: Result<Option<RawFrame>, ()>)
        requires
            self@.wf(),
            self.buf_offset <= offset <= self@.end(),
        ensures
            ({
                let b = self.data@.skip(offset - self.buf_offset);
                match startup_at(b) {
                    Cut::Frame { len, tag, .. } => r matches Ok(Some(raw)) && raw.offset == offset
                        && raw.len == len && raw.tag == tag && raw.code == Some(
                        parse::be32(b.skip(4)) as u32,
                    ),
                    Cut::Wait => r matches Ok(None),
                    Cut::Invalid => r is Err,
                }
            }),
    {
        let b = bytes_from(self.data.as_slice(), offset - self.buf_offset);
        if b.len() < 4 {
            return Ok(None);
        }
        if b[0] != 0x00 {
            return Err(());
        }
        let length: u32 = read_u32(b);
        if length < 8 || length > MAX_FRAME_LEN {
            return Err(());
        }
        if b.len() < length as usize {
            return Ok(None);
        }
        let code: u32 = read_u32(bytes_from(b, 4));
        Ok(Some(RawFrame { offset, len: length as usize, tag: 0, code: Some(code) }))
    }

    /// The frame with type byte at `offset`; nothing where more bytes must come
    /// first, and an error where none can start there.
    fn parse_tagged(&self, offset: usize) -> (r: Result<Option<RawFrame>, ()>)
        requires
            self@.wf(),
            self.buf_offset <= offset <= self@.end(),
        ensures
            match tagged_at(self.data@.skip(offset - self.buf_offset)) {
                Cut::Frame { len, tag, .. } => r matches Ok(Some(raw)) && raw.offset == offset
                    && raw.len == len && raw.tag == tag && raw.code is None,
                Cut::Wait => r matches Ok(None),
                Cut::Invalid => r is Err,
            },
    {
        let b = bytes_from(self.data.as_slice(), offset - self.buf_offset);
        if b.len() < 5 {
            return Ok(None);
        }
        let tag: u8 = b[0];
        if !client_tag(tag) {
            return Err(());
        }
        let length: u32 = read_u32(bytes_from(b, 1));
        if length < 4 || length > MAX_FRAME_LEN {
            return Err(());
        }
        let frame_len: usize = 1 + length as usize;
        if b.len() < frame_len {
            return Ok(None);
        }
        Ok(Some(RawFrame { offset, len: frame_len, tag, code: None }))
    }

    /// The first frame from `start_offset` on that others follow.
    fn resync(&self, start_offset: usize) -> (r: Option<RawFrame>)
        requires
            self@.wf(),
            self.buf_offset <= start_offset <= self@.end(),
        ensures
            match cut_at(
                ConnState::Unknown,
                self.data@.skip(start_offset - self.buf_offset),
            ) {
                Cut::Frame { skip, len, tag } => r matches Some(raw) && raw.offset == start_offset
                    + skip && raw.len == len && raw.tag == tag && raw.code is None,
                _ => r is None,
            },
    {
        proof {
            reveal(cut_at);
        }
        let end_offset: usize = self.buf_offset + self.data.len();
        let mut offset: usize = start_offset;
        let ghost all = self.data@.skip(start_offset - self.buf_offset);
        assert(resync_at(all) matches Some(k) ==> resync_at(all) == Some(0 + k));
        while offset < end_offset
            invariant
                self@.wf(),
                end_offset == self@.end(),
                self.buf_offset <= start_offset <= offset <= end_offset,
                all == self.data@.skip(start_offset - self.buf_offset),
                resync_at(all) == (match resync_at(self.data@.skip(offset - self.buf_offset)) {
                    Some(k) => Some(offset - start_offset + k),
                    None => None::<int>,
                }),
            decreases end_offset - offset,
        {
            let ghost here = self.data@.skip(offset - self.buf_offset);
            assert(here =~= all.skip(offset - start_offset));
            assert(here.skip(1) =~= self.data@.skip(offset + 1 - self.buf_offset));
            if self.chain_valid(offset, RESYNC_CHAIN_LEN) {
                proof {
                    reveal(cut_at);
                }
                return match self.parse_tagged(offset) {
                    Ok(found) => found,
                    Err(()) => None,
                };
            }
            offset += 1;
        }
        None
    }

    /// Whether `count` frames in a row start at `offset`.
    fn chain_valid(&self, offset: usize, count: usize) -> (r: bool)
        requires
            self@.wf(),
            self.buf_offset <= offset <= self@.end(),
        ensures
            r == chain_at(self.data@.skip(offset - self.buf_offset), count as nat),
    {
        let mut at: usize = offset;
        let mut left: usize = count;
        while left > 0
            invariant
                self@.wf(),
                self.buf_offset <= at <= self@.end(),
                chain_at(self.data@.skip(offset - self.buf_offset), count as nat) == chain_at(
                    self.data@.skip(at - self.buf_offset),
                    left as nat,
                ),
            decreases left,
        {
            let ghost here = self.data@.skip(at - self.buf_offset);
            match self.parse_tagged(at) {
                Ok(Some(raw)) => {
                    assert(here.skip(raw.len as int) =~= self.data@.skip(
                        at + raw.len - self.buf_offset,
                    ));
                    at += raw.len;
                },
                _ => return false,
            }
            left -= 1;
        }
        true
    }
}

/// The frames at the front without type byte.
pub proof fn lemma_startup_frames(frames: Seq<FrameInfo>)
    ensures
        0 <= startup_frames(frames) <= frames.len(),
        forall|i: int| 0 <= i < startup_frames(frames) ==> (#[trigger] frames[i]).tag == 0,
        startup_frames(frames) < frames.len() ==> frames[startup_frames(frames)].tag != 0,
    decreases frames.len(),
{
    if frames.len() > 0 && frames[0].tag == 0 {
        let rest = frames.drop_first();
        lemma_startup_frames(rest);
        assert forall|i: int| 0 <= i < startup_frames(frames) implies (#[trigger] frames[i]).tag
            == 0 by {
            if i > 0 {
                assert(frames[i] == rest[i - 1]);
            }
        }
    }
}

} // verus!
