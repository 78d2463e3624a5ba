//! What holds of frame buffers over many captures.
use vstd::prelude::*;

use crate::capture::frame_buffer;
use crate::capture::frame_buffer::{ConnState, Cut, FrameBufferView, FrameInfo};
use crate::utils::parse;

verus! {

/// Where frames lie, and their type bytes.
pub open spec fn places(frames: Seq<FrameInfo>) -> Seq<(usize, usize, u8)> {
    Seq::new(frames.len(), |i: int| (frames[i].offset, frames[i].len, frames[i].tag))
}

/// Where frames lie does not depend on the time that they are given.
pub(crate) proof fn lemma_scan_time(state: ConnState, b: Seq<u8>, at: int, ts1: u64, ts2: u64)
    ensures
        places(frame_buffer::scan(state, b, at, ts1).0) == places(
            frame_buffer::scan(state, b, at, ts2).0,
        ),
        frame_buffer::scan(state, b, at, ts1).1 == frame_buffer::scan(state, b, at, ts2).1,
        frame_buffer::scan(state, b, at, ts1).2 == frame_buffer::scan(state, b, at, ts2).2,
    decreases
            b.len(),
            (if state == ConnState::Unknown {
                0nat
            } else {
                1nat
            }),
{
    frame_buffer::lemma_cut(state, b);
    let one = frame_buffer::scan(state, b, at, ts1);
    let two = frame_buffer::scan(state, b, at, ts2);
    if b.len() > 0 {
        match frame_buffer::cut_at(state, b) {
            Cut::Wait => {},
            Cut::Invalid => lemma_scan_time(ConnState::Unknown, b, at, ts1, ts2),
            Cut::Frame { skip, len, tag } => {
                let next = frame_buffer::state_after(state, tag, b.skip(skip));
                lemma_scan_time(next, b.skip(skip + len), at + skip + len, ts1, ts2);
                let r1 = frame_buffer::scan(next, b.skip(skip + len), at + skip + len, ts1).0;
                let r2 = frame_buffer::scan(next, b.skip(skip + len), at + skip + len, ts2).0;
                assert(places(r1).len() == places(r2).len());
                assert forall|i: int| 0 <= i < one.0.len() implies places(one.0)[i] == places(
                    two.0,
                )[i] by {
                    if i > 0 {
                        assert(places(r1)[i - 1] == places(r2)[i - 1]);
                    }
                }
            },
        }
    }
    assert(places(one.0) =~= places(two.0));
}

/// The frames that a scan finds lie one behind the other in the scanned bytes.
pub(crate) proof fn lemma_scan_order(state: ConnState, b: Seq<u8>, at: int, ts: u64)
    requires
        0 <= at,
        at + b.len() <= usize::MAX,
    ensures
        ({
            let (found, end, _) = frame_buffer::scan(state, b, at, ts);
            &&& at <= end <= at + b.len()
            &&& forall|i: int|
                #![trigger found[i]]
                0 <= i < found.len() ==> at <= found[i].offset && found[i].offset + found[i].len
                    <= end && found[i].len >= 5 && found[i].ts == ts
            &&& forall|i: int, j: int|
                #![trigger found[i], found[j]]
                0 <= i < j < found.len() ==> found[i].offset + found[i].len <= found[j].offset
        }),
    decreases
            b.len(),
            (if state == ConnState::Unknown {
                0nat
            } else {
                1nat
            }),
{
    frame_buffer::lemma_cut(state, b);
    if b.len() > 0 {
        match frame_buffer::cut_at(state, b) {
            Cut::Wait => {},
            Cut::Invalid => lemma_scan_order(ConnState::Unknown, b, at, ts),
            Cut::Frame { skip, len, tag } => {
                let next = frame_buffer::state_after(state, tag, b.skip(skip));
                lemma_scan_order(next, b.skip(skip + len), at + skip + len, ts);
                let found = frame_buffer::scan(state, b, at, ts).0;
                let rest = frame_buffer::scan(next, b.skip(skip + len), at + skip + len, ts).0;
                assert forall|i: int| #![trigger found[i]] 0 < i < found.len() implies found[i]
                    == rest[i - 1] by {}
            },
        }
    }
}

/// A capture keeps the buffer in order: the frames lie one behind the other in
/// the bytes that are held.
pub proof fn law_capture_wf(v: FrameBufferView, connect: bool, ts: u64, buf: Seq<u8>)
    requires
        v.wf(),
        v.end() + buf.len() <= usize::MAX,
    ensures
        v.captured(connect, ts, buf).wf(),
        v.captured(connect, ts, buf).end() == v.end() + buf.len(),
{
    reveal(FrameBufferView::captured);
    let c = if connect {
        v.connected(ts)
    } else {
        v
    };
    let e = c.compacted().extended(buf);
    lemma_scan_order(e.state, e.data.skip(e.at - e.start), e.at, e.next_ts(ts));
    let found = frame_buffer::scan(
        e.state,
        e.data.skip(e.at - e.start),
        e.at,
        e.next_ts(ts),
    ).0;
    let w = v.captured(connect, ts, buf);
    assert(w.frames == v.frames + found);
    assert forall|i: int| #![trigger w.frames[i]] 0 <= i < w.frames.len() implies w.start
        <= w.frames[i].offset && w.frames[i].offset + w.frames[i].len <= w.at && w.frames[i].len
        >= 5 by {
        if i < v.frames.len() {
            assert(w.frames[i] == v.frames[i]);
            assert(v.frames[0].offset <= v.frames[i].offset);
        } else {
            assert(w.frames[i] == found[i - v.frames.len()]);
        }
    }
    assert forall|i: int, j: int|
        #![trigger w.frames[i], w.frames[j]]
        0 <= i < j < w.frames.len() implies w.frames[i].offset + w.frames[i].len
        <= w.frames[j].offset by {
        if j < v.frames.len() {
            assert(w.frames[i] == v.frames[i] && w.frames[j] == v.frames[j]);
        } else if i < v.frames.len() {
            assert(w.frames[i] == v.frames[i] && w.frames[j] == found[j - v.frames.len()]);
        } else {
            assert(w.frames[i] == found[i - v.frames.len()] && w.frames[j] == found[j
                - v.frames.len()]);
        }
    }
}

/// A capture changes nothing about the frames that are queued: they stay where
/// they are in the queue, and so do their bytes, whatever is let go of.
pub proof fn law_frames_kept(v: FrameBufferView, connect: bool, ts: u64, buf: Seq<u8>, i: int)
    requires
        v.wf(),
        v.end() + buf.len() <= usize::MAX,
        0 <= i < v.frames.len(),
    ensures
        ({
            let w = v.captured(connect, ts, buf);
            &&& i < w.frames.len()
            &&& w.frames[i] == v.frames[i]
            &&& w.readable(w.frames[i])
            &&& w.frame_bytes(w.frames[i]) == v.frame_bytes(v.frames[i])
        }),
{
    reveal(FrameBufferView::captured);
    law_capture_wf(v, connect, ts, buf);
    let w = v.captured(connect, ts, buf);
    assert(w.frames[i] == v.frames[i]);
    assert(w.start <= w.frames[i].offset);
    assert(w.frame_bytes(v.frames[i]) =~= v.frame_bytes(v.frames[i]));
}

/// Whether no frame that is found in `b` by searching would be found elsewhere
/// if `more` had been there too.
pub open spec fn steady(state: ConnState, b: Seq<u8>, more: Seq<u8>) -> bool
    decreases
            b.len(),
            (if state == ConnState::Unknown {
                0nat
            } else {
                1nat
            }),
{
    b.len() == 0 || match frame_buffer::cut_at(state, b) {
        Cut::Wait => true,
        Cut::Invalid => {
            proof {
                frame_buffer::lemma_cut(state, b);
            }
            steady(ConnState::Unknown, b, more)
        },
        Cut::Frame { skip, len, tag } => {
            proof {
                frame_buffer::lemma_cut(state, b);
            }
            &&& state == ConnState::Unknown ==> frame_buffer::cut_at(state, b + more)
                == frame_buffer::cut_at(state, b)
            &&& steady(
                frame_buffer::state_after(state, tag, b.skip(skip)),
                b.skip(skip + len),
                more,
            )
        },
    }
}

/// More bytes change nothing about a start that is decided.
proof fn lemma_cut_prefix(state: ConnState, b: Seq<u8>, more: Seq<u8>)
    requires
        state != ConnState::Unknown,
        !(frame_buffer::cut_at(state, b) is Wait),
    ensures
        frame_buffer::cut_at(state, b + more) == frame_buffer::cut_at(state, b),
{
    reveal(frame_buffer::cut_at);
    if state != ConnState::AwaitingStartup {
        assert(b.len() >= 5);
        assert((b + more).skip(1) =~= b.skip(1) + more);
    }
}

/// More bytes change nothing about the state after a frame.
proof fn lemma_state_prefix(state: ConnState, b: Seq<u8>, more: Seq<u8>, skip: int, len: int, tag: u8)
    requires
        frame_buffer::cut_at(state, b) == (Cut::Frame { skip, len, tag }),
    ensures
        frame_buffer::state_after(state, tag, (b + more).skip(skip))
            == frame_buffer::state_after(state, tag, b.skip(skip)),
{
    reveal(frame_buffer::state_after);
    frame_buffer::lemma_cut(state, b);
    assert((b + more).skip(skip) =~= b.skip(skip) + more);
    if state == ConnState::AwaitingStartup {
        let (x, y) = ((b.skip(skip) + more).skip(4), b.skip(skip).skip(4));
        assert(x[0] == y[0] && x[1] == y[1] && x[2] == y[2] && x[3] == y[3]);
    }
}

/// One step of a scan that finds a frame.
proof fn lemma_scan_frame(state: ConnState, b: Seq<u8>, at: int, ts: u64, skip: int, len: int, tag: u8)
    requires
        b.len() > 0,
        frame_buffer::cut_at(state, b) == (Cut::Frame { skip, len, tag }),
    ensures
        ({
            let next = frame_buffer::state_after(state, tag, b.skip(skip));
            let (rest, end, last) = frame_buffer::scan(
                next,
                b.skip(skip + len),
                at + skip + len,
                ts,
            );
            let frame = FrameInfo { offset: (at + skip) as usize, len: len as usize, ts, tag };
            frame_buffer::scan(state, b, at, ts) == (seq![frame] + rest, end, last)
        }),
{
}

/// Bytes that come in two parts are cut as if they had come in one, where the
/// first part starts with a frame and this holds behind it.
proof fn lemma_scan_split_frame(
    state: ConnState,
    b: Seq<u8>,
    more: Seq<u8>,
    at: int,
    ts: u64,
    skip: int,
    len: int,
    tag: u8,
)
    requires
        b.len() > 0,
        frame_buffer::cut_at(state, b) == (Cut::Frame { skip, len, tag }),
        frame_buffer::cut_at(state, b + more) == (Cut::Frame { skip, len, tag }),
        ({
            let next = frame_buffer::state_after(state, tag, b.skip(skip));
            let n = skip + len;
            let (f1, e1, s1) = frame_buffer::scan(next, b.skip(n), at + n, ts);
            let (f2, e2, s2) = frame_buffer::scan(
                s1,
                (b.skip(n) + more).skip(e1 - (at + n)),
                e1,
                ts,
            );
            &&& at + n <= e1 <= at + b.len()
            &&& frame_buffer::scan(next, b.skip(n) + more, at + n, ts) == (f1 + f2, e2, s2)
        }),
    ensures
        ({
            let (f1, e1, s1) = frame_buffer::scan(state, b, at, ts);
            let (f2, e2, s2) = frame_buffer::scan(s1, (b + more).skip(e1 - at), e1, ts);
            &&& at <= e1 <= at + b.len()
            &&& frame_buffer::scan(state, b + more, at, ts) == (f1 + f2, e2, s2)
        }),
{
    frame_buffer::lemma_cut(state, b);
    let all = b + more;
    let n = skip + len;
    lemma_state_prefix(state, b, more, skip, len, tag);
    lemma_scan_frame(state, b, at, ts, skip, len, tag);
    lemma_scan_frame(state, all, at, ts, skip, len, tag);
    let next = frame_buffer::state_after(state, tag, b.skip(skip));
    assert(all.skip(n) =~= b.skip(n) + more);
    let (g1, e1, s1) = frame_buffer::scan(next, b.skip(n), at + n, ts);
    assert((b.skip(n) + more).skip(e1 - (at + n)) =~= all.skip(e1 - at));
    let (f2, _, _) = frame_buffer::scan(s1, all.skip(e1 - at), e1, ts);
    let frame = FrameInfo { offset: (at + skip) as usize, len: len as usize, ts, tag };
    assert(seq![frame] + (g1 + f2) =~= (seq![frame] + g1) + f2);
}

/// Bytes that come in two parts are cut as if they had come in one.
pub(crate) proof fn lemma_scan_split(state: ConnState, b: Seq<u8>, more: Seq<u8>, at: int, ts: u64)
    requires
        steady(state, b, more),
    ensures
        ({
            let (f1, e1, s1) = frame_buffer::scan(state, b, at, ts);
            let (f2, e2, s2) = frame_buffer::scan(s1, (b + more).skip(e1 - at), e1, ts);
            &&& at <= e1 <= at + b.len()
            &&& frame_buffer::scan(state, b + more, at, ts) == (f1 + f2, e2, s2)
        }),
    decreases
            b.len(),
            (if state == ConnState::Unknown {
                0nat
            } else {
                1nat
            }),
{
    frame_buffer::lemma_cut(state, b);
    let all = b + more;
    if b.len() == 0 || frame_buffer::cut_at(state, b) is Wait {
        assert(all.skip(0) =~= all);
        let found = frame_buffer::scan(state, all, at, ts).0;
        assert(Seq::<FrameInfo>::empty() + found =~= found);
    } else {
        match frame_buffer::cut_at(state, b) {
            Cut::Wait => {},
            Cut::Invalid => {
                lemma_cut_prefix(state, b, more);
                lemma_scan_split(ConnState::Unknown, b, more, at, ts);
            },
            Cut::Frame { skip, len, tag } => {
                if state != ConnState::Unknown {
                    lemma_cut_prefix(state, b, more);
                }
                let next = frame_buffer::state_after(state, tag, b.skip(skip));
                lemma_scan_split(next, b.skip(skip + len), more, at + skip + len, ts);
                lemma_scan_split_frame(state, b, more, at, ts, skip, len, tag);
            },
        }
    }
}

/// The state in which a capture is looked at.
pub open spec fn entry_state(v: FrameBufferView, connect: bool) -> ConnState {
    if connect && v.state == ConnState::Unknown {
        ConnState::AwaitingStartup
    } else {
        v.state
    }
}

/// The bytes that are looked at when `buf` is captured: those that are in no
/// frame yet, and the new ones.
pub open spec fn unread(v: FrameBufferView, buf: Seq<u8>) -> Seq<u8> {
    (v.data + buf).skip(v.at - v.start)
}

/// The bytes that are held after a capture.
pub(crate) proof fn lemma_captured_data(v: FrameBufferView, connect: bool, ts: u64, buf: Seq<u8>)
    requires
        v.wf(),
    ensures
        v.start <= v.captured(connect, ts, buf).start,
        v.captured(connect, ts, buf).data == (v.data + buf).skip(
            v.captured(connect, ts, buf).start - v.start,
        ),
{
    reveal(FrameBufferView::captured);
    let w = v.captured(connect, ts, buf);
    assert(w.data =~= (v.data + buf).skip(w.start - v.start));
}

/// What a capture does, whether or not bytes are let go of on the way.
pub(crate) proof fn lemma_captured(v: FrameBufferView, connect: bool, ts: u64, buf: Seq<u8>)
    requires
        v.wf(),
        v.end() + buf.len() <= usize::MAX,
    ensures
        ({
            let w = v.captured(connect, ts, buf);
            let (found, end, state) = frame_buffer::scan(
                entry_state(v, connect),
                unread(v, buf),
                v.at,
                v.next_ts(ts),
            );
            &&& w.wf()
            &&& w.frames == v.frames + found
            &&& w.at == end
            &&& w.state == state
            &&& w.end() == v.end() + buf.len()
            &&& w.data.skip(w.at - w.start) == unread(v, buf).skip(end - v.at)
        }),
{
    reveal(FrameBufferView::captured);
    lemma_captured_data(v, connect, ts, buf);
    law_capture_wf(v, connect, ts, buf);
    let c = if connect {
        v.connected(ts)
    } else {
        v
    };
    let e = c.compacted().extended(buf);
    assert(e.data.skip(e.at - e.start) =~= unread(v, buf));
    let w = v.captured(connect, ts, buf);
    lemma_scan_order(entry_state(v, connect), unread(v, buf), v.at, v.next_ts(ts));
    assert(w.data.skip(w.at - w.start) =~= unread(v, buf).skip(w.at - v.at));
}

/// Bytes may come in one capture or in two: the same frames are queued, and the
/// connection is in the same state. (This needs that no frame was found by
/// searching in the first part that would have been found elsewhere with the
/// second part at hand.)
pub proof fn law_split_capture(
    v: FrameBufferView,
    connect: bool,
    ts1: u64,
    buf1: Seq<u8>,
    ts2: u64,
    buf2: Seq<u8>,
)
    requires
        v.wf(),
        v.end() + buf1.len() + buf2.len() <= usize::MAX,
        steady(
            entry_state(v, connect),
            unread(v, buf1),
            buf2,
        ),
    ensures
        ({
            let one = v.captured(connect, ts1, buf1 + buf2);
            let two = v.captured(connect, ts1, buf1).captured(false, ts2, buf2);
            &&& places(one.frames) == places(two.frames)
            &&& one.state == two.state
            &&& one.at == two.at
            &&& one.end() == two.end()
        }),
{
    let one = v.captured(connect, ts1, buf1 + buf2);
    let mid = v.captured(connect, ts1, buf1);
    let two = mid.captured(false, ts2, buf2);
    lemma_captured(v, connect, ts1, buf1 + buf2);
    lemma_captured(v, connect, ts1, buf1);
    lemma_captured(mid, false, ts2, buf2);
    let b1 = unread(v, buf1);
    let t = v.next_ts(ts1);
    lemma_scan_split(entry_state(v, connect), b1, buf2, v.at, t);
    assert(unread(v, buf1 + buf2) =~= b1 + buf2);
    assert(unread(mid, buf2) =~= mid.data.skip(mid.at - mid.start) + buf2);
    assert((b1 + buf2).skip(mid.at - v.at) =~= b1.skip(mid.at - v.at) + buf2);
    lemma_scan_time(mid.state, unread(mid, buf2), mid.at, t, mid.next_ts(ts2));
    let f2 = frame_buffer::scan(mid.state, unread(mid, buf2), mid.at, t).0;
    let g2 = frame_buffer::scan(mid.state, unread(mid, buf2), mid.at, mid.next_ts(ts2)).0;
    lemma_places_add(mid.frames, f2);
    lemma_places_add(mid.frames, g2);
    let f1 = frame_buffer::scan(entry_state(v, connect), b1, v.at, t).0;
    assert(v.frames + (f1 + f2) =~= (v.frames + f1) + f2);
}

/// Places of frames in two parts.
proof fn lemma_places_add(a: Seq<FrameInfo>, b: Seq<FrameInfo>)
    ensures
        places(a + b) == places(a) + places(b),
{
    assert(places(a + b) =~= places(a) + places(b));
}

/// Whether a client in the given state may send these frames one after the
/// other.
pub open spec fn session(state: ConnState, frames: Seq<Seq<u8>>) -> bool
    decreases frames.len(),
{
    frames.len() == 0 || {
        &&& state != ConnState::Unknown
        &&& frame_buffer::cut_at(state, frames[0]) matches Cut::Frame { len, tag, .. }
        &&& len == frames[0].len()
        &&& session(frame_buffer::state_after(state, tag, frames[0]), frames.drop_first())
    }
}

/// The type bytes of frames that a client in the given state sends: zero for those
/// without one, which open the connection, and the first byte of the others.
pub open spec fn session_tags(state: ConnState, frames: Seq<Seq<u8>>) -> Seq<u8>
    decreases frames.len(),
{
    if frames.len() == 0 {
        Seq::empty()
    } else {
        let tag = if state == ConnState::AwaitingStartup {
            0
        } else {
            frames[0][0]
        };
        seq![tag] + session_tags(
            frame_buffer::state_after(state, tag, frames[0]),
            frames.drop_first(),
        )
    }
}

/// The state after frames that a client in the given state sends.
pub open spec fn session_state(state: ConnState, frames: Seq<Seq<u8>>) -> ConnState
    decreases frames.len(),
{
    if frames.len() == 0 {
        state
    } else {
        let tag = if state == ConnState::AwaitingStartup {
            0
        } else {
            frames[0][0]
        };
        session_state(frame_buffer::state_after(state, tag, frames[0]), frames.drop_first())
    }
}

/// Frames that are sent one after the other are cut where they were joined.
pub(crate) proof fn lemma_session_scan(state: ConnState, frames: Seq<Seq<u8>>, at: int, ts: u64)
    requires
        session(state, frames),
        0 <= at,
        at + frames.flatten().len() <= usize::MAX,
    ensures
        ({
            let (found, end, last) = frame_buffer::scan(state, frames.flatten(), at, ts);
            &&& found.len() == frames.len() == session_tags(state, frames).len()
            &&& last == session_state(state, frames)
            &&& end == at + frames.flatten().len()
            &&& forall|i: int|
                #![trigger found[i]]
                0 <= i < found.len() ==> {
                    &&& at <= found[i].offset
                    &&& found[i].offset + found[i].len <= end
                    &&& frames.flatten().subrange(
                        found[i].offset - at,
                        found[i].offset - at + found[i].len,
                    ) == frames[i]
                    &&& found[i].offset == at + frames.take(i).flatten().len()
                    &&& found[i].len == frames[i].len()
                    &&& found[i].tag == session_tags(state, frames)[i]
                }
        }),
    decreases frames.len(),
{
    if frames.len() > 0 {
        let f = frames[0];
        let rest = frames.drop_first();
        let all = frames.flatten();
        assert(all == f + rest.flatten());
        frame_buffer::lemma_cut(state, f);
        lemma_cut_prefix(state, f, rest.flatten());
        let tag = frame_buffer::cut_at(state, f)->Frame_tag;
        lemma_state_prefix(state, f, rest.flatten(), 0, f.len() as int, tag);
        assert(f.skip(0) =~= f);
        assert(all.skip(f.len() as int) =~= rest.flatten());
        assert(tag == session_tags(state, frames)[0]) by {
            reveal(frame_buffer::cut_at);
        }
        let next = frame_buffer::state_after(state, tag, f);
        lemma_session_scan(next, rest, at + f.len(), ts);
        let found = frame_buffer::scan(state, all, at, ts).0;
        let tail = frame_buffer::scan(next, rest.flatten(), at + f.len(), ts).0;
        assert forall|i: int| #![trigger found[i]] 0 <= i < found.len() implies {
            &&& at <= found[i].offset
            &&& found[i].offset + found[i].len <= at + all.len()
            &&& all.subrange(found[i].offset - at, found[i].offset - at + found[i].len)
                == frames[i]
            &&& found[i].offset == at + frames.take(i).flatten().len()
            &&& found[i].len == frames[i].len()
            &&& found[i].tag == session_tags(state, frames)[i]
        } by {
            if i == 0 {
                assert(all.subrange(0, f.len() as int) =~= f);
                assert(frames.take(0).flatten() =~= Seq::empty());
            } else {
                assert(frames.take(i).drop_first() =~= rest.take(i - 1));
                assert(frames.take(i).flatten() == f + rest.take(i - 1).flatten());
                assert(found[i] == tail[i - 1]);
                assert(rest[i - 1] == frames[i]);
                let o = found[i].offset - at - f.len();
                assert(all.subrange(o + f.len(), o + f.len() + found[i].len)
                    =~= rest.flatten().subrange(o, o + found[i].len));
            }
        }
    }
}

/// The start of a frame that is not all there is waited for.
proof fn lemma_cut_short(state: ConnState, f: Seq<u8>, n: int)
    requires
        state != ConnState::Unknown,
        frame_buffer::cut_at(state, f) matches Cut::Frame { len, .. } && len == f.len(),
        0 <= n < f.len(),
    ensures
        frame_buffer::cut_at(state, f.take(n)) is Wait,
{
    reveal(frame_buffer::cut_at);
    let b = f.take(n);
    if state == ConnState::AwaitingStartup {
        if n >= 4 {
            assert(parse::be32(b) == parse::be32(f));
        }
    } else if n >= 5 {
        let (x, y) = (b.skip(1), f.skip(1));
        assert(x[0] == y[0] && x[1] == y[1] && x[2] == y[2] && x[3] == y[3]);
    }
}

/// However much of a session has come, the connection was never lost.
pub(crate) proof fn lemma_session_steady(
    state: ConnState,
    frames: Seq<Seq<u8>>,
    n: int,
    more: Seq<u8>,
    at: int,
    ts: u64,
)
    requires
        state != ConnState::Unknown,
        session(state, frames),
        0 <= n <= frames.flatten().len(),
    ensures
        steady(state, frames.flatten().take(n), more),
        frame_buffer::scan(state, frames.flatten().take(n), at, ts).2 != ConnState::Unknown,
    decreases frames.len(),
{
    let b = frames.flatten().take(n);
    if n > 0 {
        assert(frames.len() > 0) by {
            if frames.len() == 0 {
                assert(frames.flatten() =~= Seq::empty());
            }
        }
        let f = frames[0];
        let rest = frames.drop_first();
        assert(frames.flatten() == f + rest.flatten());
        frame_buffer::lemma_cut(state, f);
        if n < f.len() {
            lemma_cut_short(state, f, n);
            assert(b =~= f.take(n));
        } else {
            let k = n - f.len();
            assert(b =~= f + rest.flatten().take(k));
            lemma_cut_prefix(state, f, rest.flatten().take(k));
            let tag = frame_buffer::cut_at(state, f)->Frame_tag;
            lemma_state_prefix(state, f, rest.flatten().take(k), 0, f.len() as int, tag);
            assert(f.skip(0) =~= f);
            assert(b.skip(f.len() as int) =~= rest.flatten().take(k));
            let next = frame_buffer::state_after(state, tag, f);
            assert(next != ConnState::Unknown) by {
                reveal(frame_buffer::state_after);
            }
            lemma_session_steady(next, rest, k, more, at + f.len(), ts);
        }
    }
}

/// A capture: when it was made, its bytes, and whether a connection starts with
/// it.
pub struct Segment {
    pub connect: bool,
    pub ts: u64,
    pub buf: Seq<u8>,
}

/// The bytes of captures, one behind the other.
pub open spec fn stream(segments: Seq<Segment>) -> Seq<u8>
    decreases segments.len(),
{
    if segments.len() == 0 {
        Seq::empty()
    } else {
        stream(segments.drop_last()) + segments.last().buf
    }
}

/// A frame buffer after captures.
pub open spec fn fed(v: FrameBufferView, segments: Seq<Segment>) -> FrameBufferView
    decreases segments.len(),
{
    if segments.len() == 0 {
        v
    } else {
        let s = segments.last();
        fed(v, segments.drop_last()).captured(s.connect, s.ts, s.buf)
    }
}

/// After captures of a part of a session, the frames are those that one scan of
/// that part finds.
proof fn lemma_fed(id: u32, segments: Seq<Segment>, frames: Seq<Seq<u8>>)
    requires
        segments.len() > 0,
        segments[0].connect,
        session(ConnState::AwaitingStartup, frames),
        stream(segments).len() <= frames.flatten().len() <= usize::MAX,
        stream(segments) == frames.flatten().take(stream(segments).len() as int),
    ensures
        ({
            let w = fed(FrameBufferView::fresh(id), segments);
            let p = stream(segments);
            let (found, end, state) = frame_buffer::scan(ConnState::AwaitingStartup, p, 0, 0);
            &&& w.wf()
            &&& w.end() == p.len()
            &&& w.data == p.skip(w.start)
            &&& places(w.frames) == places(found)
            &&& w.at == end
            &&& w.state == state
            &&& w.state != ConnState::Unknown
        }),
    decreases segments.len(),
{
    let start = ConnState::AwaitingStartup;
    let s = segments.last();
    let prev = segments.drop_last();
    let v = fed(FrameBufferView::fresh(id), prev);
    let q = stream(prev);
    let p = stream(segments);
    let w = fed(FrameBufferView::fresh(id), segments);
    lemma_session_steady(start, frames, p.len() as int, Seq::empty(), 0, 0);
    if prev.len() == 0 {
        assert(p =~= s.buf);
        lemma_captured_data(v, s.connect, s.ts, s.buf);
        lemma_captured(v, s.connect, s.ts, s.buf);
        assert(unread(v, s.buf) =~= p);
        lemma_scan_time(start, p, 0, s.ts, 0);
        lemma_places_add(v.frames, frame_buffer::scan(start, p, 0, s.ts).0);
        assert(w.frames =~= frame_buffer::scan(start, p, 0, s.ts).0);
        assert(w.data =~= p.skip(w.start));
    } else {
        assert(prev[0] == segments[0]);
        assert(q =~= frames.flatten().take(q.len() as int)) by {
            assert(q =~= p.take(q.len() as int));
        }
        lemma_fed(id, prev, frames);
        lemma_session_steady(start, frames, q.len() as int, s.buf, 0, 0);
        lemma_scan_split(start, q, s.buf, 0, 0);
        lemma_captured(v, s.connect, s.ts, s.buf);
        lemma_captured_data(v, s.connect, s.ts, s.buf);
        assert(unread(v, s.buf) =~= p.skip(v.at));
        lemma_scan_time(v.state, p.skip(v.at), v.at, v.next_ts(s.ts), 0);
        let f1 = frame_buffer::scan(start, q, 0, 0).0;
        let f2 = frame_buffer::scan(v.state, p.skip(v.at), v.at, 0).0;
        let g2 = frame_buffer::scan(v.state, p.skip(v.at), v.at, v.next_ts(s.ts)).0;
        lemma_places_add(f1, f2);
        lemma_places_add(v.frames, g2);
        assert(w.data =~= p.skip(w.start));
    }
}

/// What a client sends is found again: however the bytes of a session are
/// divided into captures, the frames that get queued are exactly the frames that
/// were sent, in order, byte for byte, with their type bytes, each where the one
/// before it ends, and nothing is left over.
pub proof fn law_session_recovered(id: u32, segments: Seq<Segment>, frames: Seq<Seq<u8>>)
    requires
        segments.len() > 0,
        segments[0].connect,
        session(ConnState::AwaitingStartup, frames),
        stream(segments) == frames.flatten(),
        frames.flatten().len() <= usize::MAX,
    ensures
        ({
            let w = fed(FrameBufferView::fresh(id), segments);
            &&& w.wf()
            &&& w.at == w.end() == frames.flatten().len()
            &&& w.state == session_state(ConnState::AwaitingStartup, frames)
            &&& w.frames.len() == frames.len()
            &&& forall|i: int|
                #![trigger w.frames[i]]
                0 <= i < frames.len() ==> {
                    &&& w.readable(w.frames[i])
                    &&& w.frame_bytes(w.frames[i]) == frames[i]
                    &&& w.frames[i].offset == frames.take(i).flatten().len()
                    &&& w.frames[i].len == frames[i].len()
                    &&& w.frames[i].tag == session_tags(ConnState::AwaitingStartup, frames)[i]
                }
        }),
{
    let w = fed(FrameBufferView::fresh(id), segments);
    let p = frames.flatten();
    assert(p.take(p.len() as int) =~= p);
    lemma_fed(id, segments, frames);
    lemma_session_scan(ConnState::AwaitingStartup, frames, 0, 0);
    let found = frame_buffer::scan(ConnState::AwaitingStartup, p, 0, 0).0;
    assert(places(w.frames).len() == places(found).len());
    assert forall|i: int| #![trigger w.frames[i]] 0 <= i < frames.len() implies {
        &&& w.readable(w.frames[i])
        &&& w.frame_bytes(w.frames[i]) == frames[i]
        &&& w.frames[i].offset == frames.take(i).flatten().len()
        &&& w.frames[i].len == frames[i].len()
        &&& w.frames[i].tag == session_tags(ConnState::AwaitingStartup, frames)[i]
    } by {
        assert(places(w.frames)[i] == places(found)[i]);
        let f = w.frames[i];
        assert(f.offset == found[i].offset && f.len == found[i].len && f.tag == found[i].tag);
        assert(w.frame_bytes(f) =~= p.subrange(f.offset as int, f.offset + f.len));
    }
}

/// The bytes in front of the first queued frame, or of the bytes that are in no
/// frame yet, have room for every frame that was taken: each has five bytes at
/// least.
pub proof fn law_taken_frames_have_room(v: FrameBufferView, k: int)
    requires
        v.wf(),
        0 <= k <= v.frames.len(),
    ensures
        (FrameBufferView { frames: v.frames.skip(k), ..v }).wf(),
        (FrameBufferView { frames: v.frames.skip(k), ..v }).needed_from() >= v.needed_from() + 5
            * k,
    decreases k,
{
    let w = FrameBufferView { frames: v.frames.skip(k), ..v };
    if k > 0 {
        law_taken_frames_have_room(v, k - 1);
        let u = FrameBufferView { frames: v.frames.skip(k - 1), ..v };
        assert(u.frames[0] == v.frames[k - 1]);
        if k < v.frames.len() {
            assert(w.frames[0] == v.frames[k]);
            assert(v.frames[k - 1].offset + v.frames[k - 1].len <= v.frames[k].offset);
        }
    } else {
        assert(v.frames.skip(0) =~= v.frames);
    }
    assert(w.wf());
}

/// A capture does not move back where the bytes start that are still needed.
pub proof fn law_needed_grows(v: FrameBufferView, connect: bool, ts: u64, buf: Seq<u8>)
    requires
        v.wf(),
        v.end() + buf.len() <= usize::MAX,
    ensures
        v.captured(connect, ts, buf).needed_from() >= v.needed_from(),
{
    lemma_captured(v, connect, ts, buf);
    lemma_scan_order(entry_state(v, connect), unread(v, buf), v.at, v.next_ts(ts));
    let found = frame_buffer::scan(
        entry_state(v, connect),
        unread(v, buf),
        v.at,
        v.next_ts(ts),
    ).0;
    let w = v.captured(connect, ts, buf);
    if v.frames.len() > 0 {
        assert(w.frames[0] == v.frames[0]);
    } else if found.len() > 0 {
        assert(w.frames[0] == found[0]);
    }
}

/// Whether bytes are those of a frame with the given type byte, if it has one: they
/// start with it, and with the length of what follows it.
pub open spec fn bears_tag(tag: u8, bytes: Seq<u8>) -> bool {
    tag != 0 ==> bytes[0] == tag && parse::be32(bytes.skip(1)) + 1 == bytes.len()
}

/// Whether every queued frame with a type byte starts with it, and with its length.
pub open spec fn tags_borne(v: FrameBufferView) -> bool {
    forall|i: int|
        #![trigger v.frames[i]]
        0 <= i < v.frames.len() ==> v.frame_bytes(v.frames[i]).len() == v.frames[i].len
            && bears_tag(v.frames[i].tag, v.frame_bytes(v.frames[i]))
}

/// The frames that a scan finds start with their type bytes and their lengths.
proof fn lemma_scan_tags(state: ConnState, b: Seq<u8>, at: int, ts: u64)
    requires
        0 <= at,
        at + b.len() <= usize::MAX,
    ensures
        ({
            let found = frame_buffer::scan(state, b, at, ts).0;
            forall|i: int|
                #![trigger found[i]]
                0 <= i < found.len() ==> bears_tag(
                    found[i].tag,
                    b.subrange(found[i].offset - at, found[i].offset - at + found[i].len),
                )
        }),
    decreases
            b.len(),
            (if state == ConnState::Unknown {
                0nat
            } else {
                1nat
            }),
{
    frame_buffer::lemma_cut(state, b);
    if b.len() > 0 {
        match frame_buffer::cut_at(state, b) {
            Cut::Wait => {
                assert(frame_buffer::scan(state, b, at, ts).0.len() == 0);
            },
            Cut::Invalid => {
                lemma_scan_tags(ConnState::Unknown, b, at, ts);
                assert(frame_buffer::scan(state, b, at, ts) == frame_buffer::scan(
                    ConnState::Unknown,
                    b,
                    at,
                    ts,
                ));
            },
            Cut::Frame { skip, len, tag } => {
                let next = frame_buffer::state_after(state, tag, b.skip(skip));
                let tail = b.skip(skip + len);
                lemma_scan_tags(next, tail, at + skip + len, ts);
                lemma_scan_order(next, tail, at + skip + len, ts);
                let found = frame_buffer::scan(state, b, at, ts).0;
                let rest = frame_buffer::scan(next, tail, at + skip + len, ts).0;
                let own = b.subrange(skip, skip + len);
                assert(bears_tag(tag, own)) by {
                    reveal(frame_buffer::cut_at);
                    let from = b.skip(skip);
                    assert(b.skip(0) =~= b);
                    if tag != 0 {
                        assert(frame_buffer::tagged_at(from) == Cut::Frame { skip: 0, len, tag });
                        let (x, y) = (own.skip(1), from.skip(1));
                        assert(x[0] == y[0] && x[1] == y[1] && x[2] == y[2] && x[3] == y[3]);
                    }
                }
                assert forall|i: int| #![trigger found[i]] 0 <= i < found.len() implies bears_tag(
                    found[i].tag,
                    b.subrange(found[i].offset - at, found[i].offset - at + found[i].len),
                ) by {
                    if i == 0 {
                        assert(found[0].offset - at == skip && found[0].len == len);
                        assert(found[0].tag == tag);
                    } else {
                        assert(found[i] == rest[i - 1]);
                        let o = found[i].offset - at;
                        assert(b.subrange(o, o + found[i].len) =~= tail.subrange(
                            o - skip - len,
                            o - skip - len + found[i].len,
                        ));
                    }
                }
            },
        }
    }
}

/// Every queued frame with a type byte starts with it, and with its length, which fits
/// the length of the frame; and a capture keeps that so.
pub proof fn law_tags_borne(v: FrameBufferView, connect: bool, ts: u64, buf: Seq<u8>)
    requires
        v.wf(),
        tags_borne(v),
        v.end() + buf.len() <= usize::MAX,
    ensures
        tags_borne(v.captured(connect, ts, buf)),
{
    let w = v.captured(connect, ts, buf);
    let b = unread(v, buf);
    let state = entry_state(v, connect);
    lemma_captured(v, connect, ts, buf);
    lemma_captured_data(v, connect, ts, buf);
    lemma_scan_order(state, b, v.at, v.next_ts(ts));
    lemma_scan_tags(state, b, v.at, v.next_ts(ts));
    let found = frame_buffer::scan(state, b, v.at, v.next_ts(ts)).0;
    assert forall|i: int| #![trigger w.frames[i]] 0 <= i < w.frames.len() implies w.frame_bytes(
        w.frames[i],
    ).len() == w.frames[i].len && bears_tag(w.frames[i].tag, w.frame_bytes(w.frames[i])) by {
        if i < v.frames.len() {
            law_frames_kept(v, connect, ts, buf, i);
        } else {
            let f = found[i - v.frames.len()];
            assert(w.frames[i] == f);
            assert(w.readable(w.frames[i]));
            assert(w.frame_bytes(f) =~= b.subrange(f.offset - v.at, f.offset - v.at + f.len));
        }
    }
}

/// However many captures follow, a queued frame that is not taken keeps its place and
/// its bytes; and where every queued frame starts with its type byte and its length, as
/// in a buffer with nothing in it, that stays so.
pub proof fn law_frames_kept_on(v: FrameBufferView, segments: Seq<Segment>)
    requires
        v.wf(),
        tags_borne(v),
        v.end() + stream(segments).len() <= usize::MAX,
    ensures
        ({
            let w = fed(v, segments);
            &&& w.wf()
            &&& w.end() == v.end() + stream(segments).len()
            &&& tags_borne(w)
            &&& w.frames.len() >= v.frames.len()
            &&& forall|i: int|
                #![trigger w.frames[i]]
                0 <= i < v.frames.len() ==> w.frames[i] == v.frames[i] && w.readable(w.frames[i])
                    && w.frame_bytes(w.frames[i]) == v.frame_bytes(v.frames[i])
        }),
    decreases segments.len(),
{
    if segments.len() > 0 {
        let s = segments.last();
        law_frames_kept_on(v, segments.drop_last());
        let u = fed(v, segments.drop_last());
        law_capture_wf(u, s.connect, s.ts, s.buf);
        law_tags_borne(u, s.connect, s.ts, s.buf);
        let w = fed(v, segments);
        if u.frames.len() > 0 {
            law_frames_kept(u, s.connect, s.ts, s.buf, u.frames.len() - 1);
        }
        assert forall|i: int| #![trigger w.frames[i]] 0 <= i < v.frames.len() implies w.frames[i]
            == v.frames[i] && w.readable(w.frames[i]) && w.frame_bytes(w.frames[i])
            == v.frame_bytes(v.frames[i]) by {
            assert(u.frames[i] == v.frames[i]);
            law_frames_kept(u, s.connect, s.ts, s.buf, i);
        }
    } else {
        assert forall|i: int| #![trigger v.frames[i]] 0 <= i < v.frames.len() implies v.readable(
            v.frames[i],
        ) by {}
    }
}

} // verus!
