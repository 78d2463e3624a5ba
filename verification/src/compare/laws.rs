//! What holds of a comparison: which frames are compared, what counts as the same, and
//! which times are taken in.
use vstd::prelude::*;

use crate::capture::frame_buffer::{ConnState, FrameBufferView, FrameInfo};
use crate::capture::reader::ClientId;
use crate::capture::session_laws;
use crate::compare::error::CompareError;
use crate::compare::frame_text;
use crate::compare::map::{from_first, lag, lag_max, lag_sum, PairView, StreamClientView};
use crate::compare::normal;
use crate::compare::normal::{PacketFate, SideView};
use crate::compare::pair;
use crate::compare::pair::ComparePairView;
use crate::compare::session;
use crate::compare::session::{
    CompareSourceView, DeltaEntry, DeltaView, FindResult, Paired, ReplayPeer, SessionView,
};
use crate::compare::stats;
use crate::compare::stats::CompareStats;
use crate::compare::turns::{LoopAction, ReadOutcome, Side, Turns};
use crate::parser::c2s_display;
use crate::proto::c2s;
use crate::proto::c2s::PgMsgView;
use crate::utils::addr::Addr;
use crate::utils::chars;
use crate::utils::text;

verus! {

/// The time from `from` to `to`, and zero where that comes first.
pub open spec fn elapsed(from: u64, to: u64) -> u64 {
    if from <= to {
        (to - from) as u64
    } else {
        0
    }
}

/// Whether `m` is the first of `n` places at which two sides are not the same, or `n`
/// where they are the same at all of them.
pub open spec fn parts_at(same: spec_fn(int) -> bool, n: int, m: int) -> bool {
    &&& 0 <= m <= n
    &&& forall|i: int| 0 <= i < m ==> #[trigger] same(i)
    &&& m < n ==> !same(m)
}

/// The pairs of times of the first `n` frames.
pub open spec fn times(p: Paired, ks: int, kr: int, n: int) -> Seq<(u64, u64)> {
    Seq::new(
        n as nat,
        |i: int|
            (
                elapsed(p.src.connect_ts, p.src.frames[ks + i].ts),
                elapsed(p.replay.connect_ts, p.replay.frames[kr + i].ts),
            ),
    )
}

/// How many frames can be compared: as many as there are on both sides behind the start
/// of the connection.
pub open spec fn comparable(p: Paired, ks: int, kr: int) -> int {
    vstd::math::min(p.src.frames.len() - ks, p.replay.frames.len() - kr)
}

/// Whether the frames `i` behind the starts of the connections have the same bytes.
pub open spec fn same_frames(p: Paired, ks: int, kr: int) -> spec_fn(int) -> bool {
    |i: int| session_laws::captured_bytes(p.src, ks + i) == session_laws::captured_bytes(
        p.replay,
        kr + i,
    )
}

/// The frames of both sides.
proof fn lemma_paired(p: Paired, ks: int, kr: int)
    requires
        session_laws::opens_with(p.src, ks),
        session_laws::opens_with(p.replay, kr),
    ensures
        p.len() == comparable(p, ks, kr),
        forall|i: int|
            0 <= i < p.len() ==> {
                &&& #[trigger] p.src_frame(i) == p.src.frames[ks + i]
                &&& p.replay_frame(i) == p.replay.frames[kr + i]
                &&& p.same(i) == same_frames(p, ks, kr)(i)
                &&& p.src_ts(i) == elapsed(p.src.connect_ts, p.src.frames[ks + i].ts)
                &&& p.replay_ts(i) == elapsed(p.replay.connect_ts, p.replay.frames[kr + i].ts)
            },
{
    session_laws::lemma_opens_with(p.src, ks);
    session_laws::lemma_opens_with(p.replay, kr);
}

/// Frames are compared one by one, without those of the start of the connections, up to
/// the first that does not have the same bytes on both sides; that one makes the
/// comparison fail, and is taken out of both queues like those before it.
pub proof fn law_compares_frames(p: Paired, ks: int, kr: int, m: int)
    requires
        session_laws::opens_with(p.src, ks),
        session_laws::opens_with(p.replay, kr),
        parts_at(same_frames(p, ks, kr), comparable(p, ks, kr), m),
    ensures
        p.matching(0) == m,
        p.differs() <==> m < comparable(p, ks, kr),
        p.taken() == if m < comparable(p, ks, kr) {
            m + 1
        } else {
            m
        },
{
    lemma_paired(p, ks, kr);
    session::lemma_matching(p, 0);
    let f = p.matching(0);
    if f < m {
        assert(p.src_frame(f) == p.src.frames[ks + f]);
        assert(same_frames(p, ks, kr)(f));
    } else if m < f {
        assert(p.same(m));
        assert(p.src_frame(m) == p.src.frames[ks + m]);
    }
}

/// Every frame that is the same on both sides is taken in with the times since the
/// connections at which it came, in order, and no other is.
pub proof fn law_counts_frames(p: Paired, ks: int, kr: int, s: CompareStats, n: int)
    requires
        session_laws::opens_with(p.src, ks),
        session_laws::opens_with(p.replay, kr),
        0 <= n <= comparable(p, ks, kr),
    ensures
        p.counted(s, n) == stats::compared(s, times(p, ks, kr, n)),
    decreases n,
{
    lemma_paired(p, ks, kr);
    if n > 0 {
        law_counts_frames(p, ks, kr, s, n - 1);
        let t = times(p, ks, kr, n);
        assert(t.drop_last() =~= times(p, ks, kr, n - 1));
        assert(p.src_frame(n - 1) == p.src.frames[ks + (n - 1)]);
        assert(t.last() == t[n - 1]);
    }
}

/// The list of a comparison has one line for each frame of the source up to the first that
/// is not the same, and one more for the frame of the replay beside that. Each says when
/// the frame came on both sides, whose it is, and what it is.
pub proof fn law_lists_frames(p: Paired, ks: int, kr: int, m: int)
    requires
        session_laws::opens_with(p.src, ks),
        session_laws::opens_with(p.replay, kr),
        parts_at(same_frames(p, ks, kr), comparable(p, ks, kr), m),
    ensures
        ({
            let differs = m < comparable(p, ks, kr);
            let n = if differs {
                m + 1
            } else {
                m
            };
            let e = p.entries();
            &&& e.len() == if differs {
                n + 1
            } else {
                n
            }
            &&& forall|i: int|
                #![trigger e[i]]
                0 <= i < n ==> e[i] == (DeltaView {
                    src_ts: elapsed(p.src.connect_ts, p.src.frames[ks + i].ts),
                    replay_ts: elapsed(p.replay.connect_ts, p.replay.frames[kr + i].ts),
                    id: p.id,
                    text: frame_text::frame_text(session_laws::captured_bytes(p.src, ks + i)),
                })
            &&& differs ==> e[n] == (DeltaView {
                src_ts: elapsed(p.src.connect_ts, p.src.frames[ks + m].ts),
                replay_ts: elapsed(p.replay.connect_ts, p.replay.frames[kr + m].ts),
                id: p.replay_id,
                text: frame_text::frame_text(session_laws::captured_bytes(p.replay, kr + m)),
            })
        }),
{
    law_compares_frames(p, ks, kr, m);
    lemma_paired(p, ks, kr);
    let differs = m < comparable(p, ks, kr);
    let n = if differs {
        m + 1
    } else {
        m
    };
    let e = p.entries();
    assert forall|i: int| #![trigger e[i]] 0 <= i < n implies e[i] == (DeltaView {
        src_ts: elapsed(p.src.connect_ts, p.src.frames[ks + i].ts),
        replay_ts: elapsed(p.replay.connect_ts, p.replay.frames[kr + i].ts),
        id: p.id,
        text: frame_text::frame_text(session_laws::captured_bytes(p.src, ks + i)),
    }) by {
        assert(p.src_frame(i) == p.src.frames[ks + i]);
        assert(e[i] == p.src_entry(i));
    }
    if differs {
        assert(p.src_frame(m) == p.src.frames[ks + m]);
        assert(e[n] == p.replay_entry(m));
    }
}

/// A comparison that fails says which frame it is: whose it is on both sides, where it
/// starts, and what it is.
pub proof fn law_failure_says(p: Paired, ks: int, kr: int, i: int)
    requires
        session_laws::opens_with(p.src, ks),
        session_laws::opens_with(p.replay, kr),
        0 <= i < comparable(p, ks, kr),
    ensures
        ({
            let (f, g) = (p.src.frames[ks + i], p.replay.frames[kr + i]);
            p.mismatch_text(i) == "Frame contents do not match:\n"@ + text::decimal(
                p.src.id as nat,
            ) + " at "@ + text::decimal(f.offset as nat) + " <=> "@ + text::decimal(
                p.replay_id as nat,
            ) + " at "@ + text::decimal(g.offset as nat) + "\n"@ + frame_text::frame_text(
                session_laws::captured_bytes(p.src, ks + i),
            ) + "\n"@ + frame_text::frame_text(session_laws::captured_bytes(p.replay, kr + i))
        }),
{
    lemma_paired(p, ks, kr);
    assert(p.src_frame(i) == p.src.frames[ks + i]);
}

/// After a comparison the frames that were compared are gone from both queues, and the
/// rest is left as it is.
pub proof fn law_source_after_comparison(
    s: CompareSourceView,
    r: ReplayPeer,
    ks: int,
    kr: int,
    m: int,
)
    requires
        s.replay_id is Some,
        session_laws::opens_with(s.buf, ks),
        session_laws::opens_with(r.buf, kr),
        ({
            let p = Paired { src: s.buf, replay: r.buf, id: s.id, replay_id: s.replay_id->0 };
            parts_at(same_frames(p, ks, kr), comparable(p, ks, kr), m)
        }),
    ensures
        ({
            let p = Paired { src: s.buf, replay: r.buf, id: s.id, replay_id: s.replay_id->0 };
            let n = if m < comparable(p, ks, kr) {
                m + 1
            } else {
                m
            };
            &&& s.paired(r.buf) == p
            &&& s.compared(r.buf) == (CompareSourceView {
                buf: FrameBufferView { frames: s.buf.frames.skip(ks + n), ..s.buf },
                stats: stats::compared(s.stats, times(p, ks, kr, m)),
                replay_connect_ts: r.buf.connect_ts,
                ..s
            })
            &&& r.compared(s) == (ReplayPeer {
                buf: FrameBufferView { frames: r.buf.frames.skip(kr + n), ..r.buf },
                ..r
            })
        }),
{
    let p = Paired { src: s.buf, replay: r.buf, id: s.id, replay_id: s.replay_id->0 };
    law_compares_frames(p, ks, kr, m);
    law_counts_frames(p, ks, kr, s.stats, m);
    session_laws::lemma_opens_with(s.buf, ks);
    session_laws::lemma_opens_with(r.buf, kr);
    assert(s.buf.frames.skip(ks).skip(p.taken()) =~= s.buf.frames.skip(ks + p.taken()));
    assert(r.buf.frames.skip(kr).skip(p.taken()) =~= r.buf.frames.skip(kr + p.taken()));
}

/// A replaying client tells which client it replays by a parameter of its startup message,
/// `pgr.client_id`: the first with that name counts, and its value has to be a number.
pub proof fn law_told_id(
    src: Seq<u8>,
    params: Seq<(usize, usize, usize, usize)>,
    j: int,
    value: Seq<char>,
)
    requires
        0 <= j < params.len(),
        c2s::param_texts(src, params[j]) == Some(("pgr.client_id"@, value)),
        forall|i: int|
            #![trigger params[i]]
            0 <= i < j ==> (c2s::param_texts(src, params[i]) matches Some((k, _)) ==> k
                != "pgr.client_id"@),
    ensures
        match chars::number(value, 0xFFFF_FFFF) {
            Some(n) => session::told_id(src, params) == Some(n as ClientId),
            None => session::told_id(src, params) is None,
        },
    decreases j,
{
    if j > 0 {
        let rest = params.drop_first();
        assert forall|i: int| #![trigger rest[i]] 0 <= i < j - 1 implies (c2s::param_texts(
            src,
            rest[i],
        ) matches Some((k, _)) ==> k != "pgr.client_id"@) by {
            assert(rest[i] == params[i + 1]);
        }
        assert(c2s::param_texts(src, params[0]) matches Some((k, _)) ==> k != "pgr.client_id"@);
        law_told_id(src, rest, j - 1, value);
    }
}

/// Without such a parameter nothing is told.
pub proof fn law_not_told(src: Seq<u8>, params: Seq<(usize, usize, usize, usize)>)
    requires
        forall|i: int|
            #![trigger params[i]]
            0 <= i < params.len() ==> (c2s::param_texts(src, params[i]) matches Some((k, _)) ==> k
                != "pgr.client_id"@),
    ensures
        session::told_id(src, params) is None,
    decreases params.len(),
{
    if params.len() > 0 {
        let rest = params.drop_first();
        assert forall|i: int| #![trigger rest[i]] 0 <= i < rest.len() implies (c2s::param_texts(
            src,
            rest[i],
        ) matches Some((k, _)) ==> k != "pgr.client_id"@) by {
            assert(rest[i] == params[i + 1]);
        }
        assert(c2s::param_texts(src, params[0]) matches Some((k, _)) ==> k != "pgr.client_id"@);
        law_not_told(src, rest);
    }
}

/// The client that is replayed is looked for in the first frames: a startup message that
/// tells it ends the search, and so does a frame with type byte, or one that cannot be
/// read, which tell nothing. Frames that were looked at are gone. Where there are none, the
/// search goes on later, unless the session has started.
pub proof fn law_search(v: FrameBufferView, frames: Seq<FrameInfo>)
    ensures
        frames.len() == 0 && v.state == ConnState::Normal ==> session::search(v, frames) == (
            FindResult::NotFound,
            frames,
        ),
        frames.len() == 0 && v.state != ConnState::Normal ==> session::search(v, frames) == (
            FindResult::NotReady,
            frames,
        ),
        frames.len() > 0 && frames[0].tag != 0 ==> session::search(v, frames) == (
            FindResult::NotFound,
            frames.drop_first(),
        ),
        frames.len() > 0 && frames[0].tag == 0 ==> {
            let bytes = v.data.subrange(
                frames[0].offset - v.start,
                frames[0].offset - v.start + frames[0].len,
            );
            match c2s::message(bytes) {
                Err(_) => session::search(v, frames) == (
                    FindResult::NotFound,
                    frames.drop_first(),
                ),
                Ok(PgMsgView::StartupMessage { parameters_src, params, .. }) => match
                    session::told_id(parameters_src, params) {
                    Some(id) => session::search(v, frames) == (
                        FindResult::Found(id),
                        frames.drop_first(),
                    ),
                    None => session::search(v, frames) == session::search(v, frames.drop_first()),
                },
                Ok(_) => session::search(v, frames) == session::search(v, frames.drop_first()),
            }
        },
{
}

/// Bytes of a client of the source go to that client and to no other, and lead to a
/// comparison only with the client that replays it.
pub proof fn law_source_apart(
    v: SessionView,
    id: ClientId,
    connect: bool,
    ts: u64,
    buf: Seq<u8>,
    other: ClientId,
)
    ensures
        ({
            let s = v.source(id);
            let heard = CompareSourceView { buf: s.buf.captured(connect, ts, buf), ..s };
            let w = v.after_source(id, connect, ts, buf);
            &&& w.ignored == v.ignored
            &&& other != id ==> w.source(other) == v.source(other)
            &&& s.replay_id != Some(other) ==> w.replay(other) == v.replay(other)
            &&& match s.replay_id {
                Some(rid) if v.replays.contains_key(rid) => {
                    &&& v.source_pair(id, connect, ts, buf) == Some(
                        (rid, heard.paired(v.replays[rid].buf)),
                    )
                    &&& w.source(id) == heard.compared(v.replays[rid].buf)
                    &&& w.replay(rid) == v.replays[rid].compared(heard)
                },
                _ => v.source_pair(id, connect, ts, buf) is None && w.source(id) == heard
                    && w.replays == v.replays,
            }
        }),
{
}

/// Bytes of a replaying client go to that client and to no other. Once it has told which
/// client it replays, it is compared with that one; where its session starts without its
/// having told, it is ignored from then on, and nothing is compared.
pub proof fn law_replay_apart(
    v: SessionView,
    rid: ClientId,
    connect: bool,
    ts: u64,
    buf: Seq<u8>,
    other: ClientId,
)
    ensures
        ({
            let before = v.replay(rid);
            let heard = ReplayPeer { buf: before.buf.captured(connect, ts, buf), ..before };
            let (r, found) = heard.searched();
            let w = v.after_replay(rid, connect, ts, buf);
            let pair = v.replay_pair(rid, connect, ts, buf);
            &&& v.ignored.contains(rid) ==> w == v && pair is None
            &&& other != rid ==> w.replay(other) == v.replay(other) && w.ignored.contains(other)
                == v.ignored.contains(other)
            &&& found != FindResult::Found(other) ==> w.source(other) == v.source(other)
            &&& !v.ignored.contains(rid) ==> match found {
                FindResult::Found(id) => {
                    let s = CompareSourceView { replay_id: Some(rid), ..v.source(id) };
                    &&& pair == Some((id, s.paired(r.buf)))
                    &&& w.source(id) == s.compared(r.buf)
                    &&& w.replay(rid) == r.compared(s)
                    &&& w.ignored == v.ignored
                },
                FindResult::NotFound => pair is None && w.replay(rid) == r && w.ignored.contains(
                    rid,
                ),
                FindResult::NotReady => pair is None && w.replay(rid) == r && !w.ignored.contains(
                    rid,
                ),
            }
        }),
{
}

/// A replaying client that has told which client it replays is not searched again; one
/// that has not is, and what it tells is kept.
pub proof fn law_searched(r: ReplayPeer)
    ensures
        r.src_id matches Some(id) ==> r.searched() == (r, FindResult::Found(id)),
        r.src_id is None ==> {
            let (found, rest) = session::search(r.buf, r.buf.frames);
            &&& r.searched().1 == found
            &&& r.searched().0.buf == (FrameBufferView { frames: rest, ..r.buf })
            &&& found matches FindResult::Found(id) ==> r.searched().0.src_id == Some(id)
            &&& !(found is Found) ==> r.searched().0.src_id is None
        },
{
}

/// A client that was not heard of is in no pair yet; one that was is what it was.
pub proof fn law_session_clients(v: SessionView, id: ClientId)
    ensures
        v.sources.contains_key(id) ==> v.source(id) == v.sources[id],
        !v.sources.contains_key(id) ==> v.source(id) == (CompareSourceView {
            id,
            buf: FrameBufferView::fresh(id),
            stats: CompareStats::zero(),
            replay_connect_ts: 0,
            replay_id: None,
        }),
        v.replays.contains_key(id) ==> v.replay(id) == v.replays[id],
        !v.replays.contains_key(id) ==> v.replay(id) == (ReplayPeer {
            src_id: None,
            buf: FrameBufferView::fresh(id),
        }),
{
}

/// The frames that wait to be compared are those with a type byte, in order, each with the
/// time that is given.
pub proof fn law_timed(frames: Seq<FrameInfo>, ts: u64)
    ensures
        pair::timed(frames, ts) == frames.filter(|f: FrameInfo| f.tag != 0).map_values(
            |f: FrameInfo| (f, ts),
        ),
    decreases frames.len(),
{
    reveal(Seq::filter);
    let tagged = |f: FrameInfo| f.tag != 0;
    let with_ts = |f: FrameInfo| (f, ts);
    if frames.len() > 0 {
        law_timed(frames.drop_last(), ts);
        let front = frames.drop_last().filter(tagged);
        if tagged(frames.last()) {
            assert(front.push(frames.last()).map_values(with_ts) =~= front.map_values(
                with_ts,
            ).push((frames.last(), ts)));
        }
    }
    assert(pair::timed(frames, ts) =~= frames.filter(tagged).map_values(with_ts));
}

/// The frames of a buffer of the source are queued behind those that wait, each with the
/// time since the connection, which is that of the first buffer; they are counted, and
/// nothing else changes.
pub proof fn law_src_read(v: ComparePairView, ts: u64, b: FrameBufferView)
    requires
        v.stats.src_frames + b.frames.len() <= u64::MAX,
    ensures
        ({
            let w = v.src_read(ts, b);
            let start = if v.src_connected {
                v.src_connect_ts
            } else {
                b.connect_ts
            };
            let new = pair::timed(b.frames, elapsed(start, ts));
            &&& w.src_pending == v.src_pending + new
            &&& w.stats == (CompareStats { src_frames: w.stats.src_frames, ..v.stats })
            &&& w.stats.src_frames == v.stats.src_frames + new.len()
            &&& w.src_connected
            &&& w.src_connect_ts == start
            &&& w.id == v.id && w.replay_id == v.replay_id
            &&& w.replay_pending == v.replay_pending
            &&& w.replay_connected == v.replay_connected
            &&& w.replay_connect_ts == v.replay_connect_ts
        }),
{
    let start = if v.src_connected {
        v.src_connect_ts
    } else {
        b.connect_ts
    };
    pair::lemma_timed_len(b.frames, elapsed(start, ts));
}

/// The frames of a buffer of the replay are queued in the same way.
pub proof fn law_replay_read(v: ComparePairView, ts: u64, b: FrameBufferView)
    requires
        v.stats.replay_frames + b.frames.len() <= u64::MAX,
    ensures
        ({
            let w = v.replay_read(ts, b);
            let start = if v.replay_connected {
                v.replay_connect_ts
            } else {
                b.connect_ts
            };
            let new = pair::timed(b.frames, elapsed(start, ts));
            &&& w.replay_pending == v.replay_pending + new
            &&& w.stats == (CompareStats { replay_frames: w.stats.replay_frames, ..v.stats })
            &&& w.stats.replay_frames == v.stats.replay_frames + new.len()
            &&& w.replay_connected
            &&& w.replay_connect_ts == start
            &&& w.id == v.id && w.replay_id == v.replay_id
            &&& w.src_pending == v.src_pending
            &&& w.src_connected == v.src_connected
            &&& w.src_connect_ts == v.src_connect_ts
        }),
{
    let start = if v.replay_connected {
        v.replay_connect_ts
    } else {
        b.connect_ts
    };
    pair::lemma_timed_len(b.frames, elapsed(start, ts));
}

/// The bytes of a frame that lie in a buffer.
pub open spec fn bytes_of(b: FrameBufferView, f: FrameInfo) -> Seq<u8> {
    b.data.subrange(f.offset - b.start, f.offset - b.start + f.len)
}

/// How many frames wait on both sides.
pub open spec fn both_wait(v: ComparePairView) -> int {
    vstd::math::min(v.src_pending.len() as int, v.replay_pending.len() as int)
}

/// Whether the frames that wait at a place have the same bytes.
pub open spec fn same_waiting(
    v: ComparePairView,
    src: FrameBufferView,
    replay: FrameBufferView,
) -> spec_fn(int) -> bool {
    |i: int| bytes_of(src, v.src_pending[i].0) == bytes_of(replay, v.replay_pending[i].0)
}

/// The pairs of times of the first `n` frames that wait.
pub open spec fn waiting_times(v: ComparePairView, n: int) -> Seq<(u64, u64)> {
    Seq::new(n as nat, |i: int| (v.src_pending[i].1, v.replay_pending[i].1))
}

/// Where a comparison ends.
proof fn lemma_pair_matching(
    v: ComparePairView,
    src: FrameBufferView,
    replay: FrameBufferView,
    m: int,
    i: int,
)
    requires
        parts_at(same_waiting(v, src, replay), both_wait(v), m),
        0 <= i <= m,
    ensures
        v.matching(src, replay, i) == m,
    decreases m - i,
{
    if i < m {
        assert(same_waiting(v, src, replay)(i));
        lemma_pair_matching(v, src, replay, m, i + 1);
    }
}

/// The counts of a comparison.
proof fn lemma_pair_counted(v: ComparePairView, n: int)
    requires
        0 <= n <= both_wait(v),
    ensures
        v.counted(n) == stats::compared(v.stats, waiting_times(v, n)),
    decreases n,
{
    if n > 0 {
        lemma_pair_counted(v, n - 1);
        let t = waiting_times(v, n);
        assert(t.drop_last() =~= waiting_times(v, n - 1));
        assert(t.last() == t[n - 1]);
    }
}

/// The frames that wait on both sides are compared one by one up to the first that does
/// not have the same bytes on both; that one is taken like those before it, but only those
/// are taken in with their times. There is one line for each frame of the source that was
/// compared, and one more for the frame of the replay that is not the same.
pub proof fn law_pair_compared(
    v: ComparePairView,
    src: FrameBufferView,
    replay: FrameBufferView,
    m: int,
)
    requires
        parts_at(same_waiting(v, src, replay), both_wait(v), m),
    ensures
        ({
            let differs = m < both_wait(v);
            let n = if differs {
                m + 1
            } else {
                m
            };
            let w = v.compared(src, replay);
            let e = v.entries(src, replay);
            &&& v.matching(src, replay, 0) == m
            &&& v.len() == both_wait(v)
            &&& w == (ComparePairView {
                stats: stats::compared(v.stats, waiting_times(v, m)),
                src_pending: v.src_pending.skip(n),
                replay_pending: v.replay_pending.skip(n),
                ..v
            })
            &&& e.len() == if differs {
                n + 1
            } else {
                n
            }
            &&& forall|i: int|
                #![trigger e[i]]
                0 <= i < n ==> e[i] == (DeltaView {
                    src_ts: v.src_pending[i].1,
                    replay_ts: v.replay_pending[i].1,
                    id: v.id,
                    text: c2s_display::frame_text(
                        v.src_pending[i].0.tag,
                        payload_of(v.src_pending[i].0, bytes_of(src, v.src_pending[i].0)),
                    ),
                })
            &&& differs ==> e[n] == (DeltaView {
                src_ts: v.src_pending[m].1,
                replay_ts: v.replay_pending[m].1,
                id: v.replay_id->0,
                text: c2s_display::frame_text(
                    v.replay_pending[m].0.tag,
                    payload_of(v.replay_pending[m].0, bytes_of(replay, v.replay_pending[m].0)),
                ),
            })
        }),
{
    lemma_pair_matching(v, src, replay, m, 0);
    lemma_pair_counted(v, m);
    let differs = m < both_wait(v);
    let n = if differs {
        m + 1
    } else {
        m
    };
    let e = v.entries(src, replay);
    assert forall|i: int| #![trigger e[i]] 0 <= i < n implies e[i] == (DeltaView {
        src_ts: v.src_pending[i].1,
        replay_ts: v.replay_pending[i].1,
        id: v.id,
        text: c2s_display::frame_text(
            v.src_pending[i].0.tag,
            payload_of(v.src_pending[i].0, bytes_of(src, v.src_pending[i].0)),
        ),
    }) by {
        assert(e[i] == v.src_entry(src, i));
    }
}

/// What follows the header of a frame: the length, and the type byte where it has one.
pub open spec fn payload_of(f: FrameInfo, bytes: Seq<u8>) -> Seq<u8> {
    if f.tag == 0 {
        bytes.skip(4)
    } else {
        bytes.skip(5)
    }
}

/// A comparison that fails says which frame it is: whose it is on both sides, where it
/// starts and ends, and what it is.
pub proof fn law_pair_failure_says(
    v: ComparePairView,
    src: FrameBufferView,
    replay: FrameBufferView,
    i: int,
)
    ensures
        ({
            let (f, g) = (v.src_pending[i].0, v.replay_pending[i].0);
            v.mismatch(src, replay, i) == "Frame contents do not match:\n"@ + text::decimal(
                v.id as nat,
            ) + " at "@ + (text::decimal(f.offset as nat) + ":"@ + text::decimal(
                (f.offset + f.len) as nat,
            )) + " <=> "@ + text::decimal(v.replay_id->0 as nat) + " at "@ + (text::decimal(
                g.offset as nat,
            ) + ":"@ + text::decimal((g.offset + g.len) as nat)) + "\n"@ + c2s_display::frame_text(
                f.tag,
                payload_of(f, bytes_of(src, f)),
            ) + "\n"@ + c2s_display::frame_text(g.tag, payload_of(g, bytes_of(replay, g)))
        }),
{
}

/// The largest lag is at least as large as every other, without signs, and is one of them,
/// or zero where there is none; and the sum of the lags is that of their sizes. The first
/// frame has none.
pub proof fn law_lags(t1: Seq<u64>, t2: Seq<u64>, n: int)
    requires
        1 <= n <= t1.len(),
        n <= t2.len(),
    ensures
        ({
            let late = |i: int| (t2[i] - t2[0]) - (t1[i] - t1[0]);
            let max = lag_max(t1, t2, n);
            &&& forall|i: int|
                0 <= i < n ==> vstd::math::abs(#[trigger] late(i)) <= vstd::math::abs(max)
            &&& exists|i: int| 0 <= i < n && #[trigger] late(i) == max
            &&& lag_sum(t1, t2, n) == Seq::new(
                n as nat,
                |i: int| vstd::math::abs(late(i)) as int,
            ).fold_left(0int, |a: int, b: int| a + b)
        }),
    decreases n,
{
    let late = |i: int| (t2[i] - t2[0]) - (t1[i] - t1[0]);
    let plus = |a: int, b: int| a + b;
    let sizes = Seq::new(n as nat, |i: int| vstd::math::abs(late(i)) as int);
    let max = lag_max(t1, t2, n);
    if n == 1 {
        assert(late(0) == 0);
        assert(sizes.drop_last() =~= Seq::empty());
        reveal_with_fuel(Seq::fold_left, 2);
    } else {
        law_lags(t1, t2, n - 1);
        let before = Seq::new((n - 1) as nat, |i: int| vstd::math::abs(late(i)) as int);
        assert(sizes.drop_last() =~= before);
        assert(late(n - 1) == lag(t1, t2, n - 1));
        let prev = lag_max(t1, t2, n - 1);
        assert forall|i: int| 0 <= i < n implies vstd::math::abs(#[trigger] late(i))
            <= vstd::math::abs(max) by {}
        let w = choose|i: int| 0 <= i < n - 1 && #[trigger] late(i) == prev;
        assert(late(w) == prev);
        assert(max == late(w) || max == late(n - 1));
    }
}

/// A packet to another port is passed over and changes nothing. All others are counted, and
/// the first of them is remembered with its time. One of a sender that is ignored is passed
/// over too; one of a sender with a counterpart belongs to that pair; and one without is
/// ignored from then on.
pub proof fn law_packet_shown(
    v: SideView,
    addr: Addr,
    ts: u64,
    port: u16,
    pair: Option<(Addr, Addr)>,
)
    requires
        v.packets < u64::MAX,
    ensures
        ({
            let (w, fate) = v.shown(addr, ts, port, pair);
            &&& port != v.port ==> w == v && fate == PacketFate::OtherPort
            &&& port == v.port ==> {
                &&& w.port == v.port
                &&& w.packets == v.packets + 1
                &&& v.first_ts is None ==> w.first_ts == Some(ts)
                &&& v.first_ts is Some ==> w.first_ts == v.first_ts
                &&& v.ignored.contains(addr) ==> fate == PacketFate::Ignored && w.ignored
                    == v.ignored
                &&& !v.ignored.contains(addr) && pair is Some ==> w.ignored == v.ignored && (pair
                    matches Some((a, b)) ==> fate == PacketFate::Pair(a, b))
                &&& !v.ignored.contains(addr) && pair is None ==> fate == PacketFate::NoCounterpart
                    && w.ignored == v.ignored.push(addr)
            }
            &&& fate.counts_as() == if fate is Pair || fate is NoCounterpart {
                ReadOutcome::Taken
            } else {
                ReadOutcome::Passed
            }
        }),
{
}

/// Two clients differ where both have a frame and the first ones do not have the same
/// bytes. Where they have, both are dropped; otherwise both stay.
pub proof fn law_first_frames(p: PairView)
    ensures
        ({
            let (a, b) = (p.c1.stream.buf, p.c2.stream.buf);
            let both = a.frames.len() > 0 && b.frames.len() > 0;
            let same = bytes_of(a, a.frames[0]) == bytes_of(b, b.frames[0]);
            let w = p.checked();
            &&& normal::first_frames_differ(a, b) <==> both && !same
            &&& both && same ==> {
                &&& w.c1.stream.buf == (FrameBufferView { frames: a.frames.drop_first(), ..a })
                &&& w.c2.stream.buf == (FrameBufferView { frames: b.frames.drop_first(), ..b })
                &&& w.c1.addr == p.c1.addr && w.c2.addr == p.c2.addr
                &&& w.c1.timings == p.c1.timings && w.c2.timings == p.c2.timings
                &&& w.c1.connect_ts == p.c1.connect_ts && w.c2.connect_ts == p.c2.connect_ts
            }
            &&& !(both && same) ==> w == p
        }),
{
}

/// Each frame that a client completes is noted with the time at which it did; the first
/// time that bytes come is that of the connection.
pub proof fn law_stream_read(c: StreamClientView, ts: u64)
    ensures
        ({
            let w = c.read(ts);
            let (n, m) = (c.stream.buf.frames.len(), w.stream.buf.frames.len());
            &&& w.stream == c.stream.cut(ts)
            &&& w.addr == c.addr
            &&& c.connect_ts is None ==> w.connect_ts == Some(ts)
            &&& c.connect_ts is Some ==> w.connect_ts == c.connect_ts
            &&& m >= n ==> w.timings.len() == c.timings.len() + (m - n)
            &&& forall|i: int|
                #![trigger w.timings[i]]
                0 <= i < w.timings.len() ==> w.timings[i] == if i < c.timings.len() {
                    c.timings[i]
                } else {
                    ts
                }
        }),
{
}

/// The captures are read in turn: after a turn of one comes one of the other, as long as
/// that is not at its end; a packet that is passed over gives the turn back to the first.
pub proof fn law_turns(t: Turns)
    ensures
        t.turn() is None <==> t.first_eof && t.second_eof,
        t.turn() == Some(Side::First) ==> !t.first_eof,
        t.turn() == Some(Side::Second) ==> !t.second_eof,
        !t.first_eof && !t.second_eof ==> t.turn() == Some(
            if t.second_next {
                Side::Second
            } else {
                Side::First
            },
        ),
{
}

/// What comes of a turn decides how the comparison goes on: it ends with a report when both
/// captures are at their end, without one where a capture cannot be read, and with an error
/// where the captures differ.
pub proof fn law_after_read(t: Turns, side: Side, outcome: ReadOutcome)
    ensures
        ({
            let (w, action) = t.after_read(side, outcome);
            &&& outcome is Taken || outcome is Nothing ==> w == t && action is GoOn
            &&& outcome is Passed ==> w == (Turns { second_next: false, ..t }) && action is GoOn
            &&& outcome is Failed ==> w == t && action is Quit
            &&& outcome is Differs ==> w == t && action is Fail
            &&& outcome is Eof ==> {
                &&& w.first_eof == (t.first_eof || side == Side::First)
                &&& w.second_eof == (t.second_eof || side == Side::Second)
                &&& w.second_next == t.second_next
                &&& action == if w.first_eof && w.second_eof {
                    LoopAction::Report
                } else {
                    LoopAction::GoOn
                }
            }
        }),
{
}

/// The sender of a packet belongs to the pair that its address was given for, on its own
/// side.
pub proof fn law_pair_of(v: normal::NormalView, addr: Addr)
    ensures
        v.pair_of(Side::First, addr) == if v.map.c1_to_c2.contains_key(addr) {
            Some((addr, v.map.c1_to_c2[addr]))
        } else {
            None
        },
        v.pair_of(Side::Second, addr) == if v.map.c2_to_c1.contains_key(addr) {
            Some((v.map.c2_to_c1[addr], addr))
        } else {
            None
        },
{
}

/// A packet of one capture leaves what the other has shown as it is, and the other client
/// of its pair.
pub proof fn law_sides_apart(
    v: normal::NormalView,
    p: PairView,
    addr: Addr,
    ts: u64,
    port: u16,
    seq: u32,
    syn: bool,
    payload: Seq<u8>,
)
    ensures
        v.shown(Side::First, addr, ts, port) == (
            normal::NormalView {
                c1: v.c1.shown(addr, ts, port, v.pair_of(Side::First, addr)).0,
                ..v
            },
            v.c1.shown(addr, ts, port, v.pair_of(Side::First, addr)).1,
        ),
        v.shown(Side::Second, addr, ts, port) == (
            normal::NormalView {
                c2: v.c2.shown(addr, ts, port, v.pair_of(Side::Second, addr)).0,
                ..v
            },
            v.c2.shown(addr, ts, port, v.pair_of(Side::Second, addr)).1,
        ),
        normal::pair_received(p, Side::First, seq, syn, payload, ts).0.c2 == p.c2,
        normal::pair_received(p, Side::Second, seq, syn, payload, ts).0.c1 == p.c1,
        normal::pair_received(p, Side::First, seq, syn, payload, ts).0.c1 == p.c1.received(
            seq,
            syn,
            payload,
            ts,
        ).0,
        normal::pair_received(p, Side::Second, seq, syn, payload, ts).0.c2 == p.c2.received(
            seq,
            syn,
            payload,
            ts,
        ).0,
{
}

/// A segment goes to the stream of its client, and frames are read only where it had bytes
/// that came next.
pub proof fn law_received(
    c: StreamClientView,
    seq: u32,
    syn: bool,
    payload: Seq<u8>,
    ts: u64,
)
    ensures
        ({
            let (stream, fed) = c.stream.processed(seq, syn, payload);
            let (w, r) = c.received(seq, syn, payload, ts);
            &&& r == fed
            &&& !fed ==> w == (StreamClientView { stream, ..c })
            &&& fed ==> w == (StreamClientView { stream, ..c }).read(ts)
        }),
{
}

/// What a step says: nothing new where nothing is compared; and otherwise the lines of the
/// comparison behind those before, where there are lines at all, and an error exactly where
/// frames differ, about the first of them.
pub proof fn law_step_outcome(
    pair: Option<(ClientId, Paired)>,
    r: Result<(), String>,
    before: Option<Vec<DeltaEntry>>,
    after: Option<Vec<DeltaEntry>>,
)
    requires
        session::step_outcome(pair, r, before, after),
    ensures
        before is None <==> after is None,
        pair is None ==> r is Ok,
        pair is None && before is Some ==> session::delta_views(after->0@) == session::delta_views(
            before->0@,
        ),
        pair matches Some((_, p)) ==> {
            &&& r is Err <==> p.differs()
            &&& r matches Err(e) ==> e@ == p.mismatch_text(p.matching(0))
            &&& before is Some ==> session::delta_views(after->0@) == session::delta_views(
                before->0@,
            ) + p.entries()
        },
{
}

/// The error about the first frames of two clients names both clients and both frames, and
/// prints each frame by its type and what stands behind its header.
pub proof fn law_first_frames_told(p: PairView, e: CompareError)
    requires
        p.mismatch(e),
    ensures
        ({
            let (a, b) = (p.c1.stream.buf, p.c2.stream.buf);
            let (f, g) = (a.frames[0], b.frames[0]);
            let CompareError::MismatchedFrames { addr1, info1, content1, addr2, info2, content2 } =
                e;
            &&& addr1 == p.c1.addr && addr2 == p.c2.addr
            &&& info1 == f && info2 == g
            &&& content1@ == c2s_display::frame_text(f.tag, pair::body(f, bytes_of(a, f)))
            &&& content2@ == c2s_display::frame_text(g.tag, pair::body(g, bytes_of(b, g)))
        }),
{
}

/// Times count from the first one: none of those that are looked at comes before it, whichever
/// it is.
pub proof fn law_from_first(t: Seq<u64>, n: int, i: int)
    requires
        0 <= i < n <= t.len(),
    ensures
        from_first(t, n) ==> t[i] - t[0] >= 0,
        t[i] < t[0] ==> !from_first(t, n),
        (forall|j: int| 0 < j < n ==> t[0] <= #[trigger] t[j]) ==> from_first(t, n),
{
}

} // verus!
