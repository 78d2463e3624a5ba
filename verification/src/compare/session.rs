//! Clients of a source capture and of its replay, frame by frame.
use std::collections::{BTreeMap, HashMap, HashSet};

use vstd::prelude::*;
use vstd::string::*;

use crate::capture::frame_buffer;
use crate::capture::frame_laws;
use crate::capture::frame_buffer::{ConnState, FrameBuffer, FrameBufferView, FrameInfo};
use crate::capture::reader::{CaptureData, ClientId};
use crate::compare::frame_text;
use crate::compare::frame_text::{display_frame, write_frame};
use crate::compare::stats::CompareStats;
use crate::proto::c2s;
use crate::proto::c2s::{PgMsg, PgMsgParser, PgMsgView};
use crate::utils::chars;
use crate::utils::chars::{parse_number, same, same_bytes};
use crate::utils::maps;
use crate::utils::text;
use crate::utils::text::push_decimal;

verus! {

/// Whether a replaying client has told which client it replays.
#[derive(Debug, Clone, Copy, PartialEq, Eq, Structural)]
pub enum FindResult {
    Found(ClientId),
    NotReady,
    NotFound,
}

/// The first parameter that tells which client is replayed: its number, if it is
/// one.
pub open spec fn told_id(src: Seq<u8>, params: Seq<(usize, usize, usize, usize)>) -> Option<
    ClientId,
>
    decreases params.len(),
{
    if params.len() == 0 {
        None
    } else {
        match c2s::param_texts(src, params[0]) {
            Some((k, v)) => if k == "pgr.client_id"@ {
                match chars::number(v, u32::MAX as nat) {
                    Some(n) => Some(n as ClientId),
                    None => None,
                }
            } else {
                told_id(src, params.drop_first())
            },
            None => told_id(src, params.drop_first()),
        }
    }
}

/// What the frames tell of the client that is replayed, and the frames that are
/// left. A frame with type byte ends the search, and so does one that cannot be
/// read.
pub open spec fn search(v: FrameBufferView, frames: Seq<FrameInfo>) -> (FindResult, Seq<FrameInfo>)
    decreases frames.len(),
{
    if frames.len() == 0 {
        if v.state == ConnState::Normal {
            (FindResult::NotFound, frames)
        } else {
            (FindResult::NotReady, frames)
        }
    } else {
        let rest = frames.drop_first();
        if frames[0].tag != 0 {
            (FindResult::NotFound, rest)
        } else {
            match c2s::message(v.frame_bytes(frames[0])) {
                Err(_) => (FindResult::NotFound, rest),
                Ok(PgMsgView::StartupMessage { parameters_src, params, .. }) => match told_id(
                    parameters_src,
                    params,
                ) {
                    Some(id) => (FindResult::Found(id), rest),
                    None => search(v, rest),
                },
                Ok(_) => search(v, rest),
            }
        }
    }
}

/// The number that a startup message tells of the client that is replayed.
fn find_told_id(msg: &PgMsg<'_>) -> (r: Option<ClientId>)
    requires
        msg@.wf(),
    ensures
        match msg@ {
            PgMsgView::StartupMessage { parameters_src, params, .. } => r == told_id(
                parameters_src,
                params,
            ),
            _ => r is None,
        },
{
    if let PgMsg::StartupMessage { params, parameters_src, .. } = msg {
        let mut i: usize = 0;
        assert(params@.skip(0) =~= params@);
        while i < params.len()
            invariant
                msg@.wf(),
                msg@ matches PgMsgView::StartupMessage { parameters_src: s, params: p, .. } && s
                    == parameters_src@ && p == params@,
                i <= params@.len(),
                told_id(parameters_src@, params@) == told_id(
                    parameters_src@,
                    params@.skip(i as int),
                ),
            decreases params@.len() - i,
        {
            let ghost here = params@.skip(i as int);
            assert(here[0] == params@[i as int]);
            assert(here.drop_first() =~= params@.skip(i + 1));
            if let Some((k, v)) = msg.startup_param(i) {
                if same(k, "pgr.client_id") {
                    return match parse_number(v, u32::MAX as u64) {
                        Some(n) => Some(n as ClientId),
                        None => None,
                    };
                }
            }
            i += 1;
        }
    }
    None
}

/// The capture of a replaying client.
pub struct CompareReplay {
    pub src_id: Option<u32>,
    pub buf: FrameBuffer,
}

impl CompareReplay {
    /// A client of the replay that nothing is known of.
    pub fn new(replay_id: ClientId) -> (r: Self)
        ensures
            r.src_id is None,
            r.buf@ == FrameBufferView::fresh(replay_id),
            r.buf@.wf(),
    {
        CompareReplay { src_id: None, buf: FrameBuffer::new(replay_id) }
    }

    /// Looks for the client that is replayed, in the frames that came so far.
    pub fn find_id(&mut self) -> (r: FindResult)
        requires
            old(self).buf@.wf(),
        ensures
            final(self).buf@.wf(),
            match old(self).src_id {
                Some(id) => r == FindResult::Found(id) && *final(self) == *old(self),
                None => {
                    let (found, rest) = search(old(self).buf@, old(self).buf@.frames);
                    &&& r == found
                    &&& final(self).buf@ == (FrameBufferView { frames: rest, ..old(self).buf@ })
                    &&& final(self).src_id == match found {
                        FindResult::Found(id) => Some(id),
                        _ => None,
                    }
                },
            },
    {
        if let Some(id) = self.src_id {
            return FindResult::Found(id);
        }
        let ghost start = self.buf@;
        let mut parser = PgMsgParser::new();
        loop
            invariant
                self.src_id is None,
                self.buf@.wf(),
                self.buf@ == (FrameBufferView { frames: self.buf@.frames, ..start }),
                start == old(self).buf@,
                old(self).src_id is None,
                search(start, start.frames) == search(start, self.buf@.frames),
            decreases self.buf@.frames.len(),
        {
            let info = match self.buf.pop_frame() {
                Some(info) => info,
                None => {
                    return if self.buf.conn_state() == ConnState::Normal {
                        FindResult::NotFound
                    } else {
                        FindResult::NotReady
                    };
                },
            };
            if info.tag != 0 {
                return FindResult::NotFound;
            }
            let data = self.buf.read_frame(&info);
            match parser.parse(data) {
                Ok(msg) => {
                    if let Some(id) = find_told_id(&msg) {
                        self.src_id = Some(id);
                        return FindResult::Found(id);
                    }
                },
                Err(_) => return FindResult::NotFound,
            }
        }
    }
}

/// A line of the list of differences: how long after the connection a frame came
/// in the source and in the replay, whose it is, and its text.
pub struct DeltaEntry {
    pub src_ts: u64,
    pub replay_ts: u64,
    pub id: ClientId,
    pub text: String,
}

/// What a line of the list of differences says.
#[verifier::ext_equal]
pub struct DeltaView {
    pub src_ts: u64,
    pub replay_ts: u64,
    pub id: ClientId,
    pub text: Seq<char>,
}

impl View for DeltaEntry {
    type V = DeltaView;

    open spec fn view(&self) -> DeltaView {
        DeltaView {
            src_ts: self.src_ts,
            replay_ts: self.replay_ts,
            id: self.id,
            text: self.text@,
        }
    }
}

/// What the lines say.
pub open spec fn delta_views(entries: Seq<DeltaEntry>) -> Seq<DeltaView> {
    Seq::new(entries.len(), |i: int| entries[i]@)
}

/// What the lines say, where there is a list of them.
pub open spec fn listed(entries: Option<Vec<DeltaEntry>>) -> Seq<DeltaView> {
    match entries {
        Some(list) => delta_views(list@),
        None => Seq::empty(),
    }
}

/// How long after the connection a frame came.
pub open spec fn since_connect(v: FrameBufferView, f: FrameInfo) -> u64 {
    if f.ts > v.connect_ts {
        (f.ts - v.connect_ts) as u64
    } else {
        0
    }
}

/// The frames of a source client beside those of its replay, without the frames
/// of the start of the connections.
#[verifier::ext_equal]
pub struct Paired {
    pub src: FrameBufferView,
    pub replay: FrameBufferView,
    pub id: ClientId,
    pub replay_id: ClientId,
}

impl Paired {
    /// Source frame `i`.
    pub open spec fn src_frame(self, i: int) -> FrameInfo {
        frame_buffer::session_frames(self.src)[i]
    }

    /// Replay frame `i`.
    pub open spec fn replay_frame(self, i: int) -> FrameInfo {
        frame_buffer::session_frames(self.replay)[i]
    }

    /// How many frames there are on both sides.
    pub open spec fn len(self) -> int {
        let (a, b) = (
            frame_buffer::session_frames(self.src).len(),
            frame_buffer::session_frames(self.replay).len(),
        );
        if a < b {
            a as int
        } else {
            b as int
        }
    }

    /// Whether frame `i` is the same on both sides.
    pub open spec fn same(self, i: int) -> bool {
        self.src.frame_bytes(self.src_frame(i)) == self.replay.frame_bytes(self.replay_frame(i))
    }

    /// The first frame from `i` on that is not the same on both sides, or the
    /// number of frames on both sides.
    pub open spec fn matching(self, i: int) -> int
        decreases self.len() - i,
    {
        if i < self.len() && self.same(i) {
            self.matching(i + 1)
        } else {
            i
        }
    }

    /// Whether a frame is not the same on both sides.
    pub open spec fn differs(self) -> bool {
        self.matching(0) < self.len()
    }

    /// When frame `i` came in the source.
    pub open spec fn src_ts(self, i: int) -> u64 {
        since_connect(self.src, self.src_frame(i))
    }

    /// When frame `i` came in the replay.
    pub open spec fn replay_ts(self, i: int) -> u64 {
        since_connect(self.replay, self.replay_frame(i))
    }

    /// The line of source frame `i`.
    pub open spec fn src_entry(self, i: int) -> DeltaView {
        DeltaView {
            src_ts: self.src_ts(i),
            replay_ts: self.replay_ts(i),
            id: self.id,
            text: frame_text::frame_text(self.src.frame_bytes(self.src_frame(i))),
        }
    }

    /// The line of replay frame `i`.
    pub open spec fn replay_entry(self, i: int) -> DeltaView {
        DeltaView {
            src_ts: self.src_ts(i),
            replay_ts: self.replay_ts(i),
            id: self.replay_id,
            text: frame_text::frame_text(self.replay.frame_bytes(self.replay_frame(i))),
        }
    }

    /// The lines of the first `n` source frames.
    pub open spec fn src_entries(self, n: int) -> Seq<DeltaView> {
        Seq::new(n as nat, |i: int| self.src_entry(i))
    }

    /// The lines of the comparison: one for each source frame up to the first that
    /// is not the same, and one for the replay frame beside that.
    pub open spec fn entries(self) -> Seq<DeltaView> {
        let m = self.matching(0);
        if self.differs() {
            self.src_entries(m + 1).push(self.replay_entry(m))
        } else {
            self.src_entries(m)
        }
    }

    /// The counts after the first `n` frames.
    pub open spec fn counted(self, s: CompareStats, n: int) -> CompareStats
        decreases n,
    {
        if n <= 0 {
            s
        } else {
            self.counted(s, n - 1).paired(self.src_ts(n - 1), self.replay_ts(n - 1))
        }
    }

    /// What is said of frame `i` where it is not the same on both sides.
    pub open spec fn mismatch_text(self, i: int) -> Seq<char> {
        mismatch_text(
            self.src.id,
            self.src_frame(i).offset,
            self.src.frame_bytes(self.src_frame(i)),
            self.replay_id,
            self.replay_frame(i).offset,
            self.replay.frame_bytes(self.replay_frame(i)),
        )
    }

    /// How many frames are taken out of both queues.
    pub open spec fn taken(self) -> int {
        if self.differs() {
            self.matching(0) + 1
        } else {
            self.matching(0)
        }
    }
}

/// Appends a line, where there is a list.
fn push_entry(
    entries: &mut Option<Vec<DeltaEntry>>,
    parser: &mut PgMsgParser,
    src_ts: u64,
    replay_ts: u64,
    id: ClientId,
    frame: &[u8],
)
    ensures
        *final(entries) is Some <==> *old(entries) is Some,
        *final(entries) is Some ==> listed(*final(entries)) == listed(*old(entries)).push(
            DeltaView { src_ts, replay_ts, id, text: frame_text::frame_text(frame@) },
        ),
{
    match entries {
        Some(list) => {
            let ghost before = list@;
            let entry = DeltaEntry { src_ts, replay_ts, id, text: display_frame(parser, frame) };
            list.push(entry);
            assert(delta_views(list@) =~= delta_views(before).push(entry@));
        },
        None => {},
    }
}

/// What is said of a frame that is not the same on both sides.
pub open spec fn mismatch_text(
    src_id: ClientId,
    src_offset: usize,
    src_frame: Seq<u8>,
    replay_id: ClientId,
    replay_offset: usize,
    replay_frame: Seq<u8>,
) -> Seq<char> {
    "Frame contents do not match:\n"@ + text::decimal(src_id as nat) + " at "@ + text::decimal(
        src_offset as nat,
    ) + " <=> "@ + text::decimal(replay_id as nat) + " at "@ + text::decimal(
        replay_offset as nat,
    ) + "\n"@ + frame_text::frame_text(src_frame) + "\n"@ + frame_text::frame_text(replay_frame)
}

/// What is said of a frame that is not the same on both sides.
fn mismatch(
    parser: &mut PgMsgParser,
    src_id: ClientId,
    src_info: &FrameInfo,
    src_frame: &[u8],
    replay_id: ClientId,
    replay_info: &FrameInfo,
    replay_frame: &[u8],
) -> (r: String)
    ensures
        r@ == mismatch_text(
            src_id,
            src_info.offset,
            src_frame@,
            replay_id,
            replay_info.offset,
            replay_frame@,
        ),
{
    let mut e = String::new();
    e.append("Frame contents do not match:\n");
    push_decimal(&mut e, src_id as u64);
    e.append(" at ");
    push_decimal(&mut e, src_info.offset as u64);
    e.append(" <=> ");
    push_decimal(&mut e, replay_id as u64);
    e.append(" at ");
    push_decimal(&mut e, replay_info.offset as u64);
    e.append("\n");
    write_frame(&mut e, parser, src_frame);
    e.append("\n");
    write_frame(&mut e, parser, replay_frame);
    assert(e@ =~= mismatch_text(
        src_id,
        src_info.offset,
        src_frame@,
        replay_id,
        replay_info.offset,
        replay_frame@,
    ));
    e
}

/// The first frame that is not the same lies within the frames on both sides.
pub proof fn lemma_matching(p: Paired, i: int)
    requires
        0 <= i <= p.len(),
    ensures
        i <= p.matching(i) <= p.len(),
        forall|k: int| i <= k < p.matching(i) ==> p.same(k),
        p.matching(i) < p.len() ==> !p.same(p.matching(i)),
    decreases p.len() - i,
{
    if i < p.len() && p.same(i) {
        lemma_matching(p, i + 1);
    }
}

/// The comparison fails exactly if some frame is not the same on both sides.
pub proof fn law_differs(p: Paired)
    ensures
        p.differs() <==> exists|i: int| 0 <= i < p.len() && !p.same(i),
{
    lemma_matching(p, 0);
    if p.differs() {
        assert(!p.same(p.matching(0)));
    }
}

/// The capture of a source client, and what is known of its replay.
pub struct CompareSource {
    pub id: ClientId,
    pub buf: FrameBuffer,
    parser: PgMsgParser,
    pub stats: CompareStats,
    pub replay_connect_ts: u64,
    pub replay_id: Option<ClientId>,
}

/// What is known of a source client and of its replay.
#[verifier::ext_equal]
pub struct CompareSourceView {
    pub id: ClientId,
    pub buf: FrameBufferView,
    pub stats: CompareStats,
    pub replay_connect_ts: u64,
    pub replay_id: Option<ClientId>,
}

impl View for CompareSource {
    type V = CompareSourceView;

    closed spec fn view(&self) -> CompareSourceView {
        CompareSourceView {
            id: self.id,
            buf: self.buf@,
            stats: self.stats,
            replay_connect_ts: self.replay_connect_ts,
            replay_id: self.replay_id,
        }
    }
}

impl CompareSourceView {
    /// A client that nothing is known of.
    pub open spec fn fresh(id: ClientId) -> CompareSourceView {
        CompareSourceView {
            id,
            buf: FrameBufferView::fresh(id),
            stats: CompareStats::zero(),
            replay_connect_ts: 0,
            replay_id: None,
        }
    }

    /// The frames and the counts are in order, and every frame that was counted has
    /// been in front of those that are queued.
    pub open spec fn wf(self) -> bool {
        &&& self.buf.wf()
        &&& self.stats.wf()
        &&& 5 * self.stats.total_updates <= self.buf.needed_from()
    }

    /// The frames beside those of the replay.
    pub open spec fn paired(self, replay: FrameBufferView) -> Paired {
        Paired { src: self.buf, replay, id: self.id, replay_id: self.replay_id->Some_0 }
    }

    /// After the comparison with the replay.
    pub open spec fn compared(self, replay: FrameBufferView) -> CompareSourceView {
        let p = self.paired(replay);
        CompareSourceView {
            buf: FrameBufferView {
                frames: frame_buffer::session_frames(self.buf).skip(p.taken()),
                ..self.buf
            },
            stats: p.counted(self.stats, p.matching(0)),
            replay_connect_ts: replay.connect_ts,
            ..self
        }
    }
}

impl CompareSource {
    /// A client of the source that nothing is known of.
    pub fn new(id: ClientId) -> (r: Self)
        ensures
            r@ == CompareSourceView::fresh(id),
            r@.wf(),
    {
        CompareSource {
            id,
            buf: FrameBuffer::new(id),
            parser: PgMsgParser::new(),
            stats: CompareStats::default(),
            replay_connect_ts: 0,
            replay_id: None,
        }
    }

    /// How much later the replay connected, relative to the start of its capture.
    pub fn connect_delta(&self) -> (r: i128)
        ensures
            r == self@.replay_connect_ts - self@.buf.connect_ts,
    {
        self.replay_connect_ts as i128 - self.buf.connect_time() as i128
    }

    /// Compares the first frames on both sides, and takes them out of the queues.
    fn compare_first(
        &mut self,
        replay: &mut CompareReplay,
        entries: &mut Option<Vec<DeltaEntry>>,
    ) -> (r: Result<(), String>)
        requires
            old(self)@.wf(),
            old(replay).buf@.wf(),
            old(self)@.replay_id is Some,
            old(self)@.buf.frames.len() > 0,
            old(replay).buf@.frames.len() > 0,
        ensures
            ({
                let (v, w) = (old(self)@, old(replay).buf@);
                let (f, g) = (v.buf.frames[0], w.frames[0]);
                let (a, b) = (v.buf.frame_bytes(f), w.frame_bytes(g));
                let (t, u) = (since_connect(v.buf, f), since_connect(w, g));
                let line = DeltaView {
                    src_ts: t,
                    replay_ts: u,
                    id: v.id,
                    text: frame_text::frame_text(a),
                };
                let other = DeltaView {
                    src_ts: t,
                    replay_ts: u,
                    id: v.replay_id->Some_0,
                    text: frame_text::frame_text(b),
                };
                &&& final(self)@ == (CompareSourceView {
                    buf: FrameBufferView { frames: v.buf.frames.drop_first(), ..v.buf },
                    stats: if a == b {
                        v.stats.paired(t, u)
                    } else {
                        v.stats
                    },
                    ..v
                })
                &&& final(self)@.wf()
                &&& final(replay).buf@ == (FrameBufferView { frames: w.frames.drop_first(), ..w })
                &&& final(replay).buf@.wf()
                &&& final(replay).src_id == old(replay).src_id
                &&& *final(entries) is Some <==> *old(entries) is Some
                &&& *final(entries) is Some ==> listed(*final(entries)) == if a == b {
                    listed(*old(entries)).push(line)
                } else {
                    listed(*old(entries)).push(line).push(other)
                }
                &&& if a == b {
                    r is Ok
                } else {
                    r matches Err(e) && e@ == mismatch_text(
                        v.buf.id,
                        f.offset,
                        a,
                        v.replay_id->Some_0,
                        g.offset,
                        b,
                    )
                }
            }),
    {
        let ghost before = self@;
        let ghost other = replay.buf@;
        proof {
            frame_laws::law_taken_frames_have_room(before.buf, 1);
            assert(before.buf.frames.skip(1) =~= before.buf.frames.drop_first());
        }
        let src_info = self.buf.pop_frame().unwrap();
        let replay_info = replay.buf.pop_frame().unwrap();
        let src_frame = self.buf.read_frame(&src_info);
        let replay_frame = replay.buf.read_frame(&replay_info);
        proof {
            assert(src_frame@ =~= before.buf.frame_bytes(src_info));
            assert(replay_frame@ =~= other.frame_bytes(replay_info));
        }
        let src_ts: u64 = src_info.ts.saturating_sub(self.buf.connect_time());
        let replay_ts: u64 = replay_info.ts.saturating_sub(replay.buf.connect_time());
        push_entry(entries, &mut self.parser, src_ts, replay_ts, self.id, src_frame);
        if !same_bytes(src_frame, replay_frame) {
            let replay_id: ClientId = self.replay_id.unwrap();
            push_entry(entries, &mut self.parser, src_ts, replay_ts, replay_id, replay_frame);
            return Err(
                mismatch(
                    &mut self.parser,
                    self.buf.client_id(),
                    &src_info,
                    src_frame,
                    replay_id,
                    &replay_info,
                    replay_frame,
                ),
            );
        }
        self.stats.pair_ts(src_ts, replay_ts);
        Ok(())
    }

    /// Compares the frames that came on both sides. The first that is not the same
    /// ends the comparison with an error text. The lines of the comparison are
    /// appended to `entries`, where there is one.
    pub fn compare(
        &mut self,
        replay: &mut CompareReplay,
        entries: &mut Option<Vec<DeltaEntry>>,
    ) -> (r: Result<(), String>)
        requires
            old(self)@.wf(),
            old(replay).buf@.wf(),
            old(self)@.replay_id is Some,
        ensures
            ({
                let p = old(self)@.paired(old(replay).buf@);
                &&& final(self)@ == old(self)@.compared(old(replay).buf@)
                &&& final(self)@.wf()
                &&& final(replay).buf@ == (FrameBufferView {
                    frames: frame_buffer::session_frames(old(replay).buf@).skip(p.taken()),
                    ..old(replay).buf@
                })
                &&& final(replay).buf@.wf()
                &&& final(replay).src_id == old(replay).src_id
                &&& *final(entries) is Some <==> *old(entries) is Some
                &&& *final(entries) is Some ==> listed(*final(entries)) == listed(*old(entries))
                    + p.entries()
                &&& if p.differs() {
                    r matches Err(e) && e@ == p.mismatch_text(p.matching(0))
                } else {
                    r is Ok
                }
            }),
    {
        let ghost p = self@.paired(replay.buf@);
        let ghost s_all = frame_buffer::session_frames(p.src);
        let ghost r_all = frame_buffer::session_frames(p.replay);
        let ghost stats = self.stats;
        let ghost base = listed(*entries);
        self.replay_connect_ts = replay.buf.connect_time();
        proof {
            frame_buffer::lemma_startup_frames(p.src.frames);
            frame_laws::law_taken_frames_have_room(
                p.src,
                frame_buffer::startup_frames(p.src.frames),
            );
        }
        let _ = self.buf.drop_startup_frames();
        let _ = replay.buf.drop_startup_frames();
        let ghost mut i: int = 0;
        proof {
            lemma_matching(p, 0);
            assert(s_all.skip(0) =~= s_all);
            assert(r_all.skip(0) =~= r_all);
            assert(base + p.src_entries(0) =~= base);
        }
        loop
            invariant_except_break
                0 <= i <= p.len(),
                p.matching(0) == p.matching(i),
                s_all == frame_buffer::session_frames(p.src),
                r_all == frame_buffer::session_frames(p.replay),
                self@ == (CompareSourceView {
                    buf: FrameBufferView { frames: s_all.skip(i), ..p.src },
                    stats: p.counted(stats, i),
                    replay_connect_ts: p.replay.connect_ts,
                    ..old(self)@
                }),
                replay.buf@ == (FrameBufferView { frames: r_all.skip(i), ..p.replay }),
                self@.wf(),
                replay.buf@.wf(),
                replay.src_id == old(replay).src_id,
                self@.replay_id is Some,
                *entries is Some <==> *old(entries) is Some,
                *entries is Some ==> listed(*entries) == base + p.src_entries(i),
                p == old(self)@.paired(old(replay).buf@),
                stats == old(self)@.stats,
                base == listed(*old(entries)),
            ensures
                !p.differs(),
                i == p.matching(0),
                self@ == (CompareSourceView {
                    buf: FrameBufferView { frames: s_all.skip(i), ..p.src },
                    stats: p.counted(stats, i),
                    replay_connect_ts: p.replay.connect_ts,
                    ..old(self)@
                }),
                replay.buf@ == (FrameBufferView { frames: r_all.skip(i), ..p.replay }),
                self@.wf(),
                replay.buf@.wf(),
                replay.src_id == old(replay).src_id,
                *entries is Some <==> *old(entries) is Some,
                *entries is Some ==> listed(*entries) == base + p.src_entries(i),
            decreases p.len() - i,
        {
            if self.buf.peek_frame().is_none() || replay.buf.peek_frame().is_none() {
                assert(i == p.len());
                break;
            }
            proof {
                assert(s_all.skip(i)[0] == s_all[i]);
                assert(r_all.skip(i)[0] == r_all[i]);
                assert(s_all.skip(i).drop_first() =~= s_all.skip(i + 1));
                assert(r_all.skip(i).drop_first() =~= r_all.skip(i + 1));
                assert(base + p.src_entries(i + 1) =~= (base + p.src_entries(i)).push(
                    p.src_entry(i),
                ));
                assert(base + p.src_entries(i + 1).push(p.replay_entry(i)) =~= (base
                    + p.src_entries(i + 1)).push(p.replay_entry(i)));
            }
            match self.compare_first(replay, entries) {
                Ok(()) => {},
                Err(e) => {
                    proof {
                        assert(!p.same(i));
                        assert(p.matching(0) == i && p.differs());
                    }
                    return Err(e);
                },
            }
            proof {
                i = i + 1;
            }
        }
        Ok(())
    }
}

/// What is known of a replaying client.
#[verifier::ext_equal]
pub struct ReplayPeer {
    pub src_id: Option<u32>,
    pub buf: FrameBufferView,
}

impl View for CompareReplay {
    type V = ReplayPeer;

    open spec fn view(&self) -> ReplayPeer {
        ReplayPeer { src_id: self.src_id, buf: self.buf@ }
    }
}

impl ReplayPeer {
    /// A client of the replay that nothing is known of.
    pub open spec fn fresh(id: ClientId) -> ReplayPeer {
        ReplayPeer { src_id: None, buf: FrameBufferView::fresh(id) }
    }

    /// After the search for the client that is replayed.
    pub open spec fn searched(self) -> (ReplayPeer, FindResult) {
        match self.src_id {
            Some(id) => (self, FindResult::Found(id)),
            None => {
                let (found, rest) = search(self.buf, self.buf.frames);
                let src_id = match found {
                    FindResult::Found(id) => Some(id),
                    _ => None,
                };
                (
                    ReplayPeer { src_id, buf: FrameBufferView { frames: rest, ..self.buf } },
                    found,
                )
            },
        }
    }

    /// After the comparison with its source.
    pub open spec fn compared(self, source: CompareSourceView) -> ReplayPeer {
        ReplayPeer {
            buf: FrameBufferView {
                frames: frame_buffer::session_frames(self.buf).skip(
                    source.paired(self.buf).taken(),
                ),
                ..self.buf
            },
            ..self
        }
    }
}

/// All clients of a source and of its replay.
#[verifier::ext_equal]
pub struct SessionView {
    pub sources: Map<ClientId, CompareSourceView>,
    pub replays: Map<ClientId, ReplayPeer>,
    pub ignored: Set<ClientId>,
}

impl SessionView {
    /// All clients are in order.
    pub open spec fn wf(self) -> bool {
        &&& forall|k: ClientId| #[trigger]
            self.sources.contains_key(k) ==> self.sources[k].wf()
        &&& forall|k: ClientId| #[trigger]
            self.replays.contains_key(k) ==> self.replays[k].buf.wf()
    }

    /// What is known of a source client.
    pub open spec fn source(self, id: ClientId) -> CompareSourceView {
        if self.sources.contains_key(id) {
            self.sources[id]
        } else {
            CompareSourceView::fresh(id)
        }
    }

    /// What is known of a replaying client.
    pub open spec fn replay(self, id: ClientId) -> ReplayPeer {
        if self.replays.contains_key(id) {
            self.replays[id]
        } else {
            ReplayPeer::fresh(id)
        }
    }

    /// A source client after bytes of it.
    pub open spec fn heard(self, id: ClientId, connect: bool, ts: u64, buf: Seq<u8>)
        -> CompareSourceView {
        CompareSourceView {
            buf: self.source(id).buf.captured(connect, ts, buf),
            ..self.source(id)
        }
    }

    /// A replaying client after bytes of it.
    pub open spec fn replayed(self, id: ClientId, connect: bool, ts: u64, buf: Seq<u8>)
        -> ReplayPeer {
        ReplayPeer { buf: self.replay(id).buf.captured(connect, ts, buf), ..self.replay(id) }
    }

    /// The comparison that bytes of a source client lead to: with its replay, where
    /// one is known.
    pub open spec fn source_pair(self, id: ClientId, connect: bool, ts: u64, buf: Seq<u8>)
        -> Option<(ClientId, Paired)> {
        let s = self.heard(id, connect, ts, buf);
        match s.replay_id {
            Some(rid) => if self.replays.contains_key(rid) {
                Some((rid, s.paired(self.replays[rid].buf)))
            } else {
                None
            },
            None => None,
        }
    }

    /// After bytes of a source client.
    pub open spec fn after_source(self, id: ClientId, connect: bool, ts: u64, buf: Seq<u8>)
        -> SessionView {
        let s = self.heard(id, connect, ts, buf);
        match self.source_pair(id, connect, ts, buf) {
            Some((rid, _)) => SessionView {
                sources: self.sources.insert(id, s.compared(self.replays[rid].buf)),
                replays: self.replays.insert(rid, self.replays[rid].compared(s)),
                ..self
            },
            None => SessionView { sources: self.sources.insert(id, s), ..self },
        }
    }

    /// The comparison that bytes of a replaying client lead to: with the client that
    /// it replays, where it has told.
    pub open spec fn replay_pair(self, rid: ClientId, connect: bool, ts: u64, buf: Seq<u8>)
        -> Option<(ClientId, Paired)> {
        let (r, found) = self.replayed(rid, connect, ts, buf).searched();
        match found {
            FindResult::Found(id) => if self.ignored.contains(rid) {
                None
            } else {
                Some(
                    (
                        id,
                        CompareSourceView { replay_id: Some(rid), ..self.source(id) }.paired(r.buf),
                    ),
                )
            },
            _ => None,
        }
    }

    /// After bytes of a replaying client. One that has not told which client it
    /// replays when its session starts is ignored from then on.
    pub open spec fn after_replay(self, rid: ClientId, connect: bool, ts: u64, buf: Seq<u8>)
        -> SessionView {
        let (r, found) = self.replayed(rid, connect, ts, buf).searched();
        if self.ignored.contains(rid) {
            self
        } else {
            match found {
                FindResult::NotReady => SessionView {
                    replays: self.replays.insert(rid, r),
                    ..self
                },
                FindResult::NotFound => SessionView {
                    replays: self.replays.insert(rid, r),
                    ignored: self.ignored.insert(rid),
                    ..self
                },
                FindResult::Found(id) => {
                    let s = CompareSourceView { replay_id: Some(rid), ..self.source(id) };
                    SessionView {
                        sources: self.sources.insert(id, s.compared(r.buf)),
                        replays: self.replays.insert(rid, r.compared(s)),
                        ..self
                    }
                },
            }
        }
    }
}

/// Whether the result and the lines of a step are those of its comparison; there
/// are no lines, and nothing fails, where nothing is compared.
pub open spec fn step_outcome(
    pair: Option<(ClientId, Paired)>,
    r: Result<(), String>,
    before: Option<Vec<DeltaEntry>>,
    after: Option<Vec<DeltaEntry>>,
) -> bool {
    &&& after is Some <==> before is Some
    &&& match pair {
        Some((_, p)) => {
            &&& after is Some ==> listed(after) == listed(before) + p.entries()
            &&& if p.differs() {
                r matches Err(e) && e@ == p.mismatch_text(p.matching(0))
            } else {
                r is Ok
            }
        },
        None => r is Ok && listed(after) == listed(before),
    }
}

/// A comparison of a source capture with the capture of its replay.
pub struct CompareSession {
    sources: BTreeMap<ClientId, CompareSource>,
    replays: HashMap<ClientId, CompareReplay>,
    ignored: HashSet<ClientId>,
}

impl View for CompareSession {
    type V = SessionView;

    closed spec fn view(&self) -> SessionView {
        SessionView {
            sources: self.sources@.map_values(|s: CompareSource| s@),
            replays: self.replays@.map_values(|r: CompareReplay| r@),
            ignored: self.ignored@,
        }
    }
}

impl CompareSession {
    /// No client was heard of yet.
    pub fn new() -> (r: Self)
        ensures
            r@ == (SessionView {
                sources: Map::empty(),
                replays: Map::empty(),
                ignored: Set::empty(),
            }),
            r@.wf(),
    {
        let r = CompareSession {
            sources: BTreeMap::new(),
            replays: HashMap::new(),
            ignored: HashSet::new(),
        };
        assert(r@.sources =~= Map::empty());
        assert(r@.replays =~= Map::empty());
        r
    }

    /// Takes out what is known of a source client.
    fn take_source(&mut self, id: ClientId) -> (r: CompareSource)
        requires
            old(self)@.wf(),
        ensures
            r@ == old(self)@.source(id),
            r@.wf(),
            final(self)@ == (SessionView {
                sources: old(self)@.sources.remove(id),
                ..old(self)@
            }),
    {
        let ghost before = self@;
        let found = maps::take(&mut self.sources, id);
        assert(self@.sources =~= before.sources.remove(id));
        match found {
            Some(s) => {
                assert(before.sources.contains_key(id));
                s
            },
            None => CompareSource::new(id),
        }
    }

    /// Puts back what is known of a source client.
    fn put_source(&mut self, id: ClientId, s: CompareSource)
        ensures
            final(self)@ == (SessionView {
                sources: old(self)@.sources.insert(id, s@),
                ..old(self)@
            }),
    {
        let ghost before = self@;
        maps::put(&mut self.sources, id, s);
        assert(self@.sources =~= before.sources.insert(id, s@));
    }

    /// Takes out what is known of a replaying client.
    fn take_replay(&mut self, id: ClientId) -> (r: Option<CompareReplay>)
        requires
            old(self)@.wf(),
        ensures
            match r {
                Some(c) => old(self)@.replays.contains_key(id) && c@ == old(self)@.replays[id]
                    && c@.buf.wf(),
                None => !old(self)@.replays.contains_key(id),
            },
            final(self)@ == (SessionView {
                replays: old(self)@.replays.remove(id),
                ..old(self)@
            }),
    {
        let ghost before = self@;
        let found = maps::hash_take(&mut self.replays, id);
        assert(self@.replays =~= before.replays.remove(id));
        assert(found is Some ==> before.replays.contains_key(id));
        found
    }

    /// Puts back what is known of a replaying client.
    fn put_replay(&mut self, id: ClientId, c: CompareReplay)
        ensures
            final(self)@ == (SessionView {
                replays: old(self)@.replays.insert(id, c@),
                ..old(self)@
            }),
    {
        let ghost before = self@;
        maps::hash_put(&mut self.replays, id, c);
        assert(self@.replays =~= before.replays.insert(id, c@));
    }

    /// Whether there is room for so many bytes of a source client.
    pub fn source_has_room(&self, id: ClientId, n: usize) -> (r: bool)
        requires
            self@.wf(),
        ensures
            r == (self@.source(id).buf.end() + n <= usize::MAX),
    {
        match maps::get(&self.sources, id) {
            Some(s) => {
                assert(self@.sources.contains_key(id));
                s.buf.has_room(n)
            },
            None => true,
        }
    }

    /// Whether there is room for so many bytes of a replaying client.
    pub fn replay_has_room(&self, id: ClientId, n: usize) -> (r: bool)
        requires
            self@.wf(),
        ensures
            r == (self@.replay(id).buf.end() + n <= usize::MAX),
    {
        broadcast use vstd::std_specs::hash::group_hash_axioms;

        match self.replays.get(&id) {
            Some(c) => {
                assert(self@.replays.contains_key(id));
                c.buf.has_room(n)
            },
            None => true,
        }
    }

    /// Takes in bytes of a source client.
    pub fn on_source(
        &mut self,
        data: &CaptureData<'_>,
        entries: &mut Option<Vec<DeltaEntry>>,
    ) -> (r: Result<(), String>)
        requires
            old(self)@.wf(),
            old(self)@.source(data.id).buf.end() + data.buf@.len() <= usize::MAX,
        ensures
            final(self)@ == old(self)@.after_source(data.id, data.connect, data.ts, data.buf@),
            final(self)@.wf(),
            step_outcome(
                old(self)@.source_pair(data.id, data.connect, data.ts, data.buf@),
                r,
                *old(entries),
                *final(entries),
            ),
    {
        let ghost start = self@;
        let id: ClientId = data.id;
        let mut source = self.take_source(id);
        proof {
            frame_laws::law_needed_grows(source@.buf, data.connect, data.ts, data.buf@);
        }
        source.buf.on_capture(data);
        assert(source@ == start.heard(id, data.connect, data.ts, data.buf@));
        let mut result: Result<(), String> = Ok(());
        if let Some(rid) = source.replay_id {
            if let Some(mut replay) = self.take_replay(rid) {
                result = source.compare(&mut replay, entries);
                self.put_replay(rid, replay);
            }
        }
        self.put_source(id, source);
        assert(self@ =~= start.after_source(id, data.connect, data.ts, data.buf@));
        result
    }

    /// Takes in bytes of a replaying client.
    pub fn on_replay(
        &mut self,
        data: &CaptureData<'_>,
        entries: &mut Option<Vec<DeltaEntry>>,
    ) -> (r: Result<(), String>)
        requires
            old(self)@.wf(),
            old(self)@.replay(data.id).buf.end() + data.buf@.len() <= usize::MAX,
        ensures
            final(self)@ == old(self)@.after_replay(data.id, data.connect, data.ts, data.buf@),
            final(self)@.wf(),
            step_outcome(
                old(self)@.replay_pair(data.id, data.connect, data.ts, data.buf@),
                r,
                *old(entries),
                *final(entries),
            ),
    {
        broadcast use vstd::std_specs::hash::group_hash_axioms;

        let ghost start = self@;
        let rid: ClientId = data.id;
        if self.ignored.contains(&rid) {
            return Ok(());
        }
        let mut replay = match self.take_replay(rid) {
            Some(c) => c,
            None => CompareReplay::new(rid),
        };
        replay.buf.on_capture(data);
        proof {
            frame_laws::law_capture_wf(start.replay(rid).buf, data.connect, data.ts, data.buf@);
            assert(replay@ == start.replayed(rid, data.connect, data.ts, data.buf@));
        }
        match replay.find_id() {
            FindResult::NotReady => {
                self.put_replay(rid, replay);
                assert(self@ =~= start.after_replay(rid, data.connect, data.ts, data.buf@));
                Ok(())
            },
            FindResult::NotFound => {
                self.put_replay(rid, replay);
                self.ignored.insert(rid);
                assert(self@ =~= start.after_replay(rid, data.connect, data.ts, data.buf@));
                Ok(())
            },
            FindResult::Found(id) => {
                let mut source = self.take_source(id);
                source.replay_id = Some(rid);
                let result = source.compare(&mut replay, entries);
                self.put_source(id, source);
                self.put_replay(rid, replay);
                assert(self@ =~= start.after_replay(rid, data.connect, data.ts, data.buf@));
                result
            },
        }
    }

    /// The source clients, in order.
    pub fn ids(&self) -> (r: Vec<ClientId>)
        ensures
            r@.to_set() == self@.sources.dom(),
            maps::rising(r@),
    {
        let r = maps::keys(&self.sources);
        assert(self@.sources.dom() =~= self.sources@.dom());
        r
    }

    /// What is known of a source client.
    pub fn pair(&self, id: ClientId) -> (r: Option<&CompareSource>)
        ensures
            match r {
                Some(s) => self@.sources.contains_key(id) && s@ == self@.sources[id],
                None => !self@.sources.contains_key(id),
            },
    {
        maps::get(&self.sources, id)
    }
}

} // verus!
