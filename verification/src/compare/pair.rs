//! A client of a source capture and its replay, with the frames of both that wait
//! to be compared.
use std::collections::VecDeque;

use vstd::prelude::*;
use vstd::std_specs::vecdeque::*;
use vstd::string::*;

use crate::capture::frame_buffer::{FrameBuffer, FrameBufferView, FrameInfo};
use crate::capture::frame_laws;
use crate::capture::reader::ClientId;
use crate::compare::session;
use crate::compare::session::{DeltaEntry, DeltaView};
use crate::compare::stats::{CompareStats, MAX_UPDATES};
use crate::parser::c2s_display;
use crate::parser::c2s_display::TagFrame;
use crate::utils::chars::same_bytes;
use crate::utils::parse::bytes_from;
use crate::utils::text;
use crate::utils::text::push_decimal;

verus! {

/// A frame of the source beside one of the replay, and how long after the
/// connection each came.
#[derive(Debug, Clone, Copy)]
pub struct CompareFrame {
    pub src_info: FrameInfo,
    pub replay_info: FrameInfo,
    pub src_ts: u64,
    pub replay_ts: u64,
}

/// The bytes of a whole frame behind its header: the length, and the type byte
/// where there is one.
pub open spec fn body(f: FrameInfo, frame: Seq<u8>) -> Seq<u8> {
    if f.tag == 0 {
        frame.skip(4)
    } else {
        frame.skip(5)
    }
}

/// The text of a frame where two frames are not the same.
pub open spec fn mismatch_text(
    src_id: ClientId,
    src_info: FrameInfo,
    src_frame: Seq<u8>,
    replay_id: ClientId,
    replay_info: FrameInfo,
    replay_frame: Seq<u8>,
) -> Seq<char> {
    "Frame contents do not match:\n"@ + text::decimal(src_id as nat) + " at "@ + place_text(
        src_info,
    ) + " <=> "@ + text::decimal(replay_id as nat) + " at "@ + place_text(replay_info) + "\n"@
        + c2s_display::frame_text(src_info.tag, src_frame) + "\n"@ + c2s_display::frame_text(
        replay_info.tag,
        replay_frame,
    )
}

/// Where a frame starts and ends.
pub open spec fn place_text(f: FrameInfo) -> Seq<char> {
    text::decimal(f.offset as nat) + ":"@ + text::decimal((f.offset + f.len) as nat)
}

/// Appends where a frame starts and ends.
fn push_place(w: &mut String, f: &FrameInfo)
    requires
        f.offset + f.len <= usize::MAX,
    ensures
        final(w)@ == old(w)@ + place_text(*f),
{
    push_decimal(w, f.offset as u64);
    w.append(":");
    push_decimal(w, (f.offset + f.len) as u64);
    assert(final(w)@ =~= old(w)@ + place_text(*f));
}

/// What is said of two frames that are not the same. `src_frame` and
/// `replay_frame` are what is shown of them.
pub fn format_frame_mismatch(
    src_id: ClientId,
    src_info: &FrameInfo,
    src_frame: &[u8],
    replay_id: ClientId,
    replay_info: &FrameInfo,
    replay_frame: &[u8],
) -> (r: String)
    requires
        src_info.offset + src_info.len <= usize::MAX,
        replay_info.offset + replay_info.len <= usize::MAX,
    ensures
        r@ == mismatch_text(
            src_id,
            *src_info,
            src_frame@,
            replay_id,
            *replay_info,
            replay_frame@,
        ),
{
    let mut e = String::new();
    e.append("Frame contents do not match:\n");
    push_decimal(&mut e, src_id as u64);
    e.append(" at ");
    push_place(&mut e, src_info);
    e.append(" <=> ");
    push_decimal(&mut e, replay_id as u64);
    e.append(" at ");
    push_place(&mut e, replay_info);
    e.append("\n");
    TagFrame(src_info.tag, src_frame).write(&mut e);
    e.append("\n");
    TagFrame(replay_info.tag, replay_frame).write(&mut e);
    assert(e@ =~= mismatch_text(
        src_id,
        *src_info,
        src_frame@,
        replay_id,
        *replay_info,
        replay_frame@,
    ));
    e
}

/// The frames behind the start of a connection, each with the same time.
pub open spec fn timed(frames: Seq<FrameInfo>, ts: u64) -> Seq<(FrameInfo, u64)>
    decreases frames.len(),
{
    if frames.len() == 0 {
        Seq::empty()
    } else if frames.last().tag == 0 {
        timed(frames.drop_last(), ts)
    } else {
        timed(frames.drop_last(), ts).push((frames.last(), ts))
    }
}

/// The time from `from` to `to`.
pub open spec fn since(from: u64, to: u64) -> u64 {
    if to > from {
        (to - from) as u64
    } else {
        0
    }
}

/// Takes all frames out of a buffer, and appends those behind the start of the
/// connection. The result counts them.
pub(crate) fn take_frames(buf: &mut FrameBuffer, ts: u64, pending: &mut VecDeque<(FrameInfo, u64)>) -> (r: u64)
    requires
        old(buf)@.wf(),
    ensures
        final(buf)@ == (FrameBufferView { frames: Seq::empty(), ..old(buf)@ }),
        final(buf)@.wf(),
        final(pending)@ == old(pending)@ + timed(old(buf)@.frames, ts),
        r == timed(old(buf)@.frames, ts).len(),
{
    let ghost start = buf@;
    let ghost frames = start.frames;
    let ghost held = pending@;
    let mut count: u64 = 0;
    let ghost mut i: int = 0;
    proof {
        frame_laws::law_taken_frames_have_room(start, frames.len() as int);
        assert(frames.skip(0) =~= frames);
        assert(frames.take(0) =~= Seq::empty());
        assert(held + timed(frames.take(0), ts) =~= held);
    }
    loop
        invariant_except_break
            0 <= i <= frames.len() <= u64::MAX,
            frames == start.frames,
            buf@ == (FrameBufferView { frames: frames.skip(i), ..start }),
            buf@.wf(),
            pending@ == held + timed(frames.take(i), ts),
            count == timed(frames.take(i), ts).len() <= i,
        ensures
            buf@ == (FrameBufferView { frames: Seq::empty(), ..start }),
            buf@.wf(),
            pending@ == held + timed(frames, ts),
            count == timed(frames, ts).len(),
        decreases frames.len() - i,
    {
        match buf.pop_frame() {
            None => {
                assert(frames.take(i) =~= frames);
                assert(buf@.frames =~= Seq::empty());
                break;
            },
            Some(f) => {
                proof {
                    assert(f == frames[i]);
                    assert(frames.skip(i).drop_first() =~= frames.skip(i + 1));
                    assert(frames.take(i + 1).drop_last() =~= frames.take(i));
                    assert(frames.take(i + 1).last() == f);
                }
                if f.tag != 0 {
                    pending.push_back((f, ts));
                    count += 1;
                    assert(pending@ =~= held + timed(frames.take(i + 1), ts));
                }
                proof {
                    i = i + 1;
                }
            },
        }
    }
    count
}

/// What is known of a client of the source and of its replay.
#[verifier::ext_equal]
pub struct ComparePairView {
    pub id: ClientId,
    pub replay_id: Option<ClientId>,
    pub stats: CompareStats,
    pub src_connect_ts: u64,
    pub replay_connect_ts: u64,
    pub src_connected: bool,
    pub replay_connected: bool,
    pub src_pending: Seq<(FrameInfo, u64)>,
    pub replay_pending: Seq<(FrameInfo, u64)>,
}

impl ComparePairView {
    /// After the frames of a buffer of the source, which came at `ts`.
    pub open spec fn src_read(self, ts: u64, v: FrameBufferView) -> ComparePairView {
        let connect_ts = if self.src_connected {
            self.src_connect_ts
        } else {
            v.connect_ts
        };
        let frames = timed(v.frames, since(connect_ts, ts));
        ComparePairView {
            src_connect_ts: connect_ts,
            src_connected: true,
            src_pending: self.src_pending + frames,
            stats: CompareStats {
                src_frames: (self.stats.src_frames + frames.len()) as u64,
                ..self.stats
            },
            ..self
        }
    }

    /// After the frames of a buffer of the replay, which came at `ts`.
    pub open spec fn replay_read(self, ts: u64, v: FrameBufferView) -> ComparePairView {
        let connect_ts = if self.replay_connected {
            self.replay_connect_ts
        } else {
            v.connect_ts
        };
        let frames = timed(v.frames, since(connect_ts, ts));
        ComparePairView {
            replay_connect_ts: connect_ts,
            replay_connected: true,
            replay_pending: self.replay_pending + frames,
            stats: CompareStats {
                replay_frames: (self.stats.replay_frames + frames.len()) as u64,
                ..self.stats
            },
            ..self
        }
    }

    /// How many frames wait on both sides.
    pub open spec fn len(self) -> int {
        if self.src_pending.len() < self.replay_pending.len() {
            self.src_pending.len() as int
        } else {
            self.replay_pending.len() as int
        }
    }

    /// Without the first `n` frames on both sides.
    pub open spec fn without(self, n: int) -> ComparePairView {
        ComparePairView {
            src_pending: self.src_pending.skip(n),
            replay_pending: self.replay_pending.skip(n),
            ..self
        }
    }

    /// Frame `i` of both sides.
    pub open spec fn frame(self, i: int) -> CompareFrame {
        CompareFrame {
            src_info: self.src_pending[i].0,
            replay_info: self.replay_pending[i].0,
            src_ts: self.src_pending[i].1,
            replay_ts: self.replay_pending[i].1,
        }
    }

    /// Whether frame `i` is the same on both sides.
    pub open spec fn same(self, src: FrameBufferView, replay: FrameBufferView, i: int) -> bool {
        src.frame_bytes(self.frame(i).src_info) == replay.frame_bytes(self.frame(i).replay_info)
    }

    /// The first frame from `i` on that is not the same on both sides, or the
    /// number of frames that wait on both sides.
    pub open spec fn matching(
        self,
        src: FrameBufferView,
        replay: FrameBufferView,
        i: int,
    ) -> int
        decreases self.len() - i,
    {
        if i < self.len() && self.same(src, replay, i) {
            self.matching(src, replay, i + 1)
        } else {
            i
        }
    }

    /// The counts after the first `n` frames.
    pub open spec fn counted(self, n: int) -> CompareStats
        decreases n,
    {
        if n <= 0 {
            self.stats
        } else {
            self.counted(n - 1).paired(self.frame(n - 1).src_ts, self.frame(n - 1).replay_ts)
        }
    }

    /// The line of source frame `i`.
    pub open spec fn src_entry(self, src: FrameBufferView, i: int) -> DeltaView {
        let f = self.frame(i);
        DeltaView {
            src_ts: f.src_ts,
            replay_ts: f.replay_ts,
            id: self.id,
            text: c2s_display::frame_text(
                f.src_info.tag,
                body(f.src_info, src.frame_bytes(f.src_info)),
            ),
        }
    }

    /// The line of replay frame `i`.
    pub open spec fn replay_entry(self, replay: FrameBufferView, i: int) -> DeltaView {
        let f = self.frame(i);
        DeltaView {
            src_ts: f.src_ts,
            replay_ts: f.replay_ts,
            id: self.replay_id->Some_0,
            text: c2s_display::frame_text(
                f.replay_info.tag,
                body(f.replay_info, replay.frame_bytes(f.replay_info)),
            ),
        }
    }

    /// The lines of the first `n` source frames.
    pub open spec fn src_entries(self, src: FrameBufferView, n: int) -> Seq<DeltaView> {
        Seq::new(n as nat, |i: int| self.src_entry(src, i))
    }

    /// The lines of the comparison: one for each source frame up to the first that
    /// is not the same, and one for the replay frame beside that.
    pub open spec fn entries(self, src: FrameBufferView, replay: FrameBufferView) -> Seq<
        DeltaView,
    > {
        let m = self.matching(src, replay, 0);
        if m < self.len() {
            self.src_entries(src, m + 1).push(self.replay_entry(replay, m))
        } else {
            self.src_entries(src, m)
        }
    }

    /// What is said of frame `i` where it is not the same on both sides.
    pub open spec fn mismatch(self, src: FrameBufferView, replay: FrameBufferView, i: int) -> Seq<
        char,
    > {
        let f = self.frame(i);
        mismatch_text(
            self.id,
            f.src_info,
            body(f.src_info, src.frame_bytes(f.src_info)),
            self.replay_id->Some_0,
            f.replay_info,
            body(f.replay_info, replay.frame_bytes(f.replay_info)),
        )
    }

    /// After the comparison.
    pub open spec fn compared(self, src: FrameBufferView, replay: FrameBufferView)
        -> ComparePairView {
        let m = self.matching(src, replay, 0);
        let taken = if m < self.len() {
            m + 1
        } else {
            m
        };
        ComparePairView { stats: self.counted(m), ..self.without(taken) }
    }

    /// Whether the bytes of all frames that can be compared are there.
    pub open spec fn readable(self, src: FrameBufferView, replay: FrameBufferView) -> bool {
        forall|i: int|
            #![trigger self.frame(i)]
            0 <= i < self.len() ==> src.readable(self.frame(i).src_info) && replay.readable(
                self.frame(i).replay_info,
            ) && self.frame(i).src_info.len >= 5 && self.frame(i).replay_info.len >= 5
    }
}

/// A client of the source and its replay.
pub struct ComparePair {
    pub id: ClientId,
    pub replay_id: Option<ClientId>,
    pub stats: CompareStats,
    pub src_connect_ts: u64,
    pub replay_connect_ts: u64,
    src_connected: bool,
    replay_connected: bool,
    src_pending: VecDeque<(FrameInfo, u64)>,
    replay_pending: VecDeque<(FrameInfo, u64)>,
}

impl View for ComparePair {
    type V = ComparePairView;

    closed spec fn view(&self) -> ComparePairView {
        ComparePairView {
            id: self.id,
            replay_id: self.replay_id,
            stats: self.stats,
            src_connect_ts: self.src_connect_ts,
            replay_connect_ts: self.replay_connect_ts,
            src_connected: self.src_connected,
            replay_connected: self.replay_connected,
            src_pending: self.src_pending@,
            replay_pending: self.replay_pending@,
        }
    }
}

impl ComparePair {
    /// A client that nothing is known of.
    pub fn new(id: ClientId) -> (r: Self)
        ensures
            r@ == (ComparePairView {
                id,
                replay_id: None,
                stats: CompareStats::zero(),
                src_connect_ts: 0,
                replay_connect_ts: 0,
                src_connected: false,
                replay_connected: false,
                src_pending: Seq::empty(),
                replay_pending: Seq::empty(),
            }),
    {
        ComparePair {
            id,
            replay_id: None,
            stats: CompareStats::default(),
            src_connect_ts: 0,
            src_connected: false,
            replay_connect_ts: 0,
            replay_connected: false,
            src_pending: VecDeque::new(),
            replay_pending: VecDeque::new(),
        }
    }

    /// Takes the frames out of a buffer of the source. They came at `ts`.
    pub fn read_src(&mut self, ts: u64, buf: &mut FrameBuffer)
        requires
            old(buf)@.wf(),
            old(self)@.stats.src_frames + old(buf)@.frames.len() <= u64::MAX,
        ensures
            final(buf)@ == (FrameBufferView { frames: Seq::empty(), ..old(buf)@ }),
            final(buf)@.wf(),
            final(self)@ == old(self)@.src_read(ts, old(buf)@),
    {
        proof {
            lemma_timed_len(buf@.frames, ts);
            lemma_timed_ts(buf@.frames, ts, since(self.src_connect_ts, ts));
            lemma_timed_ts(buf@.frames, ts, since(buf@.connect_ts, ts));
        }
        if !self.src_connected {
            self.src_connect_ts = buf.connect_time();
            self.src_connected = true;
        }
        let since: u64 = ts.saturating_sub(self.src_connect_ts);
        let count: u64 = take_frames(buf, since, &mut self.src_pending);
        self.stats.src_frames = self.stats.src_frames + count;
    }

    /// Takes the frames out of a buffer of the replay. They came at `ts`.
    pub fn read_replay(&mut self, ts: u64, buf: &mut FrameBuffer)
        requires
            old(buf)@.wf(),
            old(self)@.stats.replay_frames + old(buf)@.frames.len() <= u64::MAX,
        ensures
            final(buf)@ == (FrameBufferView { frames: Seq::empty(), ..old(buf)@ }),
            final(buf)@.wf(),
            final(self)@ == old(self)@.replay_read(ts, old(buf)@),
    {
        proof {
            lemma_timed_len(buf@.frames, ts);
            lemma_timed_ts(buf@.frames, ts, since(self.replay_connect_ts, ts));
            lemma_timed_ts(buf@.frames, ts, since(buf@.connect_ts, ts));
        }
        if !self.replay_connected {
            self.replay_connect_ts = buf.connect_time();
            self.replay_connected = true;
        }
        let since: u64 = ts.saturating_sub(self.replay_connect_ts);
        let count: u64 = take_frames(buf, since, &mut self.replay_pending);
        self.stats.replay_frames = self.stats.replay_frames + count;
    }

    /// How much later the replay connected, relative to the start of its capture.
    pub fn connect_delta(&self) -> (r: i128)
        ensures
            r == self@.replay_connect_ts - self@.src_connect_ts,
    {
        self.replay_connect_ts as i128 - self.src_connect_ts as i128
    }

    /// Takes the first frames, where one waits on each side.
    pub fn pop_frame(&mut self) -> (r: Option<CompareFrame>)
        ensures
            match r {
                Some(f) => old(self)@.len() > 0 && f == old(self)@.frame(0) && final(self)@
                    == old(self)@.without(1),
                None => old(self)@.len() == 0 && final(self)@ == old(self)@,
            },
    {
        let ghost before = self@;
        if self.src_pending.len() > 0 && self.replay_pending.len() > 0 {
            let (src_info, src_ts) = self.src_pending.pop_front().unwrap();
            let (replay_info, replay_ts) = self.replay_pending.pop_front().unwrap();
            proof {
                assert(self@.src_pending =~= before.src_pending.skip(1));
                assert(self@.replay_pending =~= before.replay_pending.skip(1));
            }
            Some(CompareFrame { src_info, src_ts, replay_info, replay_ts })
        } else {
            None
        }
    }

    /// Compares two frames that were taken. The lines of the comparison are appended
    /// to `entries`, where there is one.
    fn compare_frame(
        &mut self,
        f: &CompareFrame,
        src_buf: &FrameBuffer,
        replay_buf: &FrameBuffer,
        entries: &mut Option<Vec<DeltaEntry>>,
    ) -> (r: Result<(), String>)
        requires
            src_buf@.wf(),
            replay_buf@.wf(),
            src_buf@.readable(f.src_info),
            replay_buf@.readable(f.replay_info),
            f.src_info.len >= 5,
            f.replay_info.len >= 5,
            old(self)@.replay_id is Some,
            old(self)@.stats.wf(),
            old(self)@.stats.total_updates < MAX_UPDATES,
        ensures
            ({
                let v = old(self)@;
                let (a, b) = (
                    src_buf@.frame_bytes(f.src_info),
                    replay_buf@.frame_bytes(f.replay_info),
                );
                let line = DeltaView {
                    src_ts: f.src_ts,
                    replay_ts: f.replay_ts,
                    id: v.id,
                    text: c2s_display::frame_text(f.src_info.tag, body(f.src_info, a)),
                };
                let other = DeltaView {
                    src_ts: f.src_ts,
                    replay_ts: f.replay_ts,
                    id: v.replay_id->Some_0,
                    text: c2s_display::frame_text(f.replay_info.tag, body(f.replay_info, b)),
                };
                &&& final(self)@ == (ComparePairView {
                    stats: if a == b {
                        v.stats.paired(f.src_ts, f.replay_ts)
                    } else {
                        v.stats
                    },
                    ..v
                })
                &&& final(self)@.stats.wf()
                &&& *final(entries) is Some <==> *old(entries) is Some
                &&& *final(entries) is Some ==> session::listed(*final(entries)) == if a == b {
                    session::listed(*old(entries)).push(line)
                } else {
                    session::listed(*old(entries)).push(line).push(other)
                }
                &&& if a == b {
                    r is Ok
                } else {
                    r matches Err(e) && e@ == mismatch_text(
                        v.id,
                        f.src_info,
                        body(f.src_info, a),
                        v.replay_id->Some_0,
                        f.replay_info,
                        body(f.replay_info, b),
                    )
                }
            }),
    {
        let src_frame = src_buf.read_frame(&f.src_info);
        let replay_frame = replay_buf.read_frame(&f.replay_info);
        let src_body = frame_body(&f.src_info, src_frame);
        let replay_body = frame_body(&f.replay_info, replay_frame);
        push_line(entries, f, self.id, f.src_info.tag, src_body);
        if !same_bytes(src_frame, replay_frame) {
            let replay_id: ClientId = self.replay_id.unwrap();
            push_line(entries, f, replay_id, f.replay_info.tag, replay_body);
            return Err(
                format_frame_mismatch(
                    self.id,
                    &f.src_info,
                    src_body,
                    replay_id,
                    &f.replay_info,
                    replay_body,
                ),
            );
        }
        self.stats.pair_ts(f.src_ts, f.replay_ts);
        Ok(())
    }

    /// Compares the frames that wait on both sides. The first that is not the same
    /// ends the comparison with an error text. The lines of the comparison are
    /// appended to `entries`, where there is one.
    pub fn compare(
        &mut self,
        src_buf: &FrameBuffer,
        replay_buf: &FrameBuffer,
        entries: &mut Option<Vec<DeltaEntry>>,
    ) -> (r: Result<(), String>)
        requires
            src_buf@.wf(),
            replay_buf@.wf(),
            old(self)@.replay_id is Some,
            old(self)@.stats.wf(),
            old(self)@.stats.total_updates + old(self)@.len() <= MAX_UPDATES,
            old(self)@.readable(src_buf@, replay_buf@),
        ensures
            ({
                let v = old(self)@;
                let m = v.matching(src_buf@, replay_buf@, 0);
                &&& final(self)@ == v.compared(src_buf@, replay_buf@)
                &&& final(self)@.stats.wf()
                &&& *final(entries) is Some <==> *old(entries) is Some
                &&& *final(entries) is Some ==> session::listed(*final(entries))
                    == session::listed(*old(entries)) + v.entries(src_buf@, replay_buf@)
                &&& if m < v.len() {
                    r matches Err(e) && e@ == v.mismatch(src_buf@, replay_buf@, m)
                } else {
                    r is Ok
                }
            }),
    {
        let ghost v = self@;
        let ghost (s, t) = (src_buf@, replay_buf@);
        let ghost base = session::listed(*entries);
        let ghost mut i: int = 0;
        proof {
            assert(v.without(0) =~= v);
            assert(base + v.src_entries(s, 0) =~= base);
        }
        loop
            invariant
                0 <= i <= v.len(),
                v == old(self)@,
                s == src_buf@,
                t == replay_buf@,
                s.wf(),
                t.wf(),
                v.replay_id is Some,
                v.readable(s, t),
                v.stats.total_updates + v.len() <= MAX_UPDATES,
                v.matching(s, t, 0) == v.matching(s, t, i),
                self@ == (ComparePairView { stats: v.counted(i), ..v.without(i) }),
                self@.stats.wf(),
                self@.stats.total_updates == v.stats.total_updates + i,
                *entries is Some <==> *old(entries) is Some,
                *entries is Some ==> session::listed(*entries) == base + v.src_entries(s, i),
                base == session::listed(*old(entries)),
            decreases v.len() - i,
        {
            let ghost before = self@;
            let f = match self.pop_frame() {
                Some(f) => f,
                None => return Ok(()),
            };
            proof {
                assert(before.frame(0) == v.frame(i));
                assert(before.without(1).src_pending =~= v.src_pending.skip(i + 1));
                assert(before.without(1).replay_pending =~= v.replay_pending.skip(i + 1));
                assert(base + v.src_entries(s, i + 1) =~= (base + v.src_entries(s, i)).push(
                    v.src_entry(s, i),
                ));
                assert(base + v.src_entries(s, i + 1).push(v.replay_entry(t, i)) =~= (base
                    + v.src_entries(s, i + 1)).push(v.replay_entry(t, i)));
            }
            match self.compare_frame(&f, src_buf, replay_buf, entries) {
                Ok(()) => {},
                Err(e) => {
                    assert(!v.same(s, t, i));
                    return Err(e);
                },
            }
            proof {
                i = i + 1;
            }
        }
    }
}

/// The bytes of a whole frame behind its header.
pub(crate) fn frame_body<'a>(f: &FrameInfo, frame: &'a [u8]) -> (r: &'a [u8])
    requires
        frame@.len() >= 5,
    ensures
        r@ == body(*f, frame@),
{
    if f.tag == 0 {
        bytes_from(frame, 4)
    } else {
        bytes_from(frame, 5)
    }
}

/// Appends a line, where there is a list.
fn push_line(
    entries: &mut Option<Vec<DeltaEntry>>,
    f: &CompareFrame,
    id: ClientId,
    tag: u8,
    payload: &[u8],
)
    ensures
        *final(entries) is Some <==> *old(entries) is Some,
        *final(entries) is Some ==> session::listed(*final(entries)) == session::listed(
            *old(entries),
        ).push(
            DeltaView {
                src_ts: f.src_ts,
                replay_ts: f.replay_ts,
                id,
                text: c2s_display::frame_text(tag, payload@),
            },
        ),
{
    match entries {
        Some(list) => {
            let ghost before = list@;
            let entry = DeltaEntry {
                src_ts: f.src_ts,
                replay_ts: f.replay_ts,
                id,
                text: TagFrame(tag, payload).to_text(),
            };
            list.push(entry);
            assert(session::delta_views(list@) =~= session::delta_views(before).push(entry@));
        },
        None => {},
    }
}

/// No more frames than there are get a time.
pub(crate) proof fn lemma_timed_len(frames: Seq<FrameInfo>, ts: u64)
    ensures
        timed(frames, ts).len() <= frames.len(),
    decreases frames.len(),
{
    if frames.len() > 0 {
        lemma_timed_len(frames.drop_last(), ts);
    }
}

/// How many frames get a time does not depend on the time.
proof fn lemma_timed_ts(frames: Seq<FrameInfo>, ts1: u64, ts2: u64)
    ensures
        timed(frames, ts1).len() == timed(frames, ts2).len(),
    decreases frames.len(),
{
    if frames.len() > 0 {
        lemma_timed_ts(frames.drop_last(), ts1, ts2);
    }
}

} // verus!
