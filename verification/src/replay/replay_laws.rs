//! From what a client sent, over captures of it, to the commands that send it again.
use vstd::prelude::*;

use crate::capture::frame_buffer;
use crate::capture::frame_buffer::{ConnState, FrameBufferView};
use crate::capture::frame_laws;
use crate::capture::frame_laws::Segment;
use crate::capture::reader::ClientId;
use crate::capture::session_laws;
use crate::replay::manager;
use crate::replay::manager::{ClientInfo, ConnCommandView};
use crate::replay::manager_laws;

verus! {

/// What is sent by commands, in order: type bytes and bytes.
pub open spec fn sends(commands: Seq<ConnCommandView>) -> Seq<(u8, Seq<u8>)>
    decreases commands.len(),
{
    if commands.len() == 0 {
        Seq::empty()
    } else {
        let before = sends(commands.drop_last());
        match commands.last() {
            ConnCommandView::Send { tag, data, .. } => before.push((tag, data)),
            _ => before,
        }
    }
}

/// What is sent by commands and by more commands.
proof fn lemma_sends_add(a: Seq<ConnCommandView>, b: Seq<ConnCommandView>)
    ensures
        sends(a + b) == sends(a) + sends(b),
    decreases b.len(),
{
    if b.len() == 0 {
        assert(a + b =~= a);
        assert(sends(a) + sends(b) =~= sends(a));
    } else {
        lemma_sends_add(a, b.drop_last());
        assert((a + b).drop_last() =~= a + b.drop_last());
        assert((a + b).last() == b.last());
        assert(sends(a + b) =~= sends(a) + sends(b));
    }
}

/// The queued frames from the `k`-th on: type bytes and bytes.
pub open spec fn queued_from(v: FrameBufferView, k: int) -> Seq<(u8, Seq<u8>)> {
    Seq::new(
        (v.frames.len() - k) as nat,
        |i: int| (v.frames[k + i].tag, session_laws::captured_bytes(v, k + i)),
    )
}

/// What the first commands for a buffer send.
proof fn lemma_sends_take(info: ClientInfo, v: FrameBufferView, k: int, ts: u64, m: int)
    requires
        session_laws::opens_with(v, k),
        info.commands(v, ts).len() > 0,
        0 <= m <= v.frames.len() - k,
    ensures
        sends(info.commands(v, ts).take(manager_laws::lead(info) + m)) == queued_from(v, k).take(m),
    decreases m,
{
    manager_laws::law_frames_become_commands(info, v, k, ts);
    let c = info.commands(v, ts);
    let h = manager_laws::lead(info);
    let q = queued_from(v, k);
    if m == 0 {
        if h == 1 {
            assert(c.take(1).drop_last() =~= Seq::empty());
            assert(c.take(1).last() == c[0]);
            assert(c[0] is Connect);
            assert(sends(c.take(1)) == sends(c.take(1).drop_last()));
        } else {
            assert(c.take(0) =~= Seq::empty());
        }
        assert(sends(c.take(h + m)) =~= q.take(m));
    } else {
        lemma_sends_take(info, v, k, ts, m - 1);
        assert(c.take(h + m).drop_last() =~= c.take(h + m - 1));
        assert(c.take(h + m).last() == c[h + (m - 1)]);
        assert(c[h + (m - 1)] is Send);
        assert(c[h + (m - 1)]->data == session_laws::captured_bytes(v, k + (m - 1)));
        assert(c[h + (m - 1)]->tag == v.frames[k + (m - 1)].tag);
        assert(q.take(m) =~= q.take(m - 1).push(q[m - 1]));
    }
}

/// The commands for a buffer send the queued frames behind the startup, in order.
pub proof fn law_sends(info: ClientInfo, v: FrameBufferView, k: int, ts: u64)
    requires
        session_laws::opens_with(v, k),
    ensures
        sends(info.commands(v, ts)) == queued_from(v, k),
{
    manager_laws::law_frames_become_commands(info, v, k, ts);
    let c = info.commands(v, ts);
    let q = queued_from(v, k);
    if c.len() == 0 {
        assert(q =~= Seq::empty());
    } else {
        lemma_sends_take(info, v, k, ts, v.frames.len() - k);
        assert(c.take(c.len() as int) =~= c);
        assert(q.take(q.len() as int) =~= q);
    }
}

/// The buffer of a client whose frames are taken out after each capture.
pub open spec fn drained(id: ClientId, segments: Seq<Segment>) -> FrameBufferView
    decreases segments.len(),
{
    if segments.len() == 0 {
        FrameBufferView::fresh(id)
    } else {
        let s = segments.last();
        FrameBufferView {
            frames: Seq::empty(),
            ..drained(id, segments.drop_last()).captured(s.connect, s.ts, s.buf)
        }
    }
}

/// What is known of the client, as far as it was heard of.
pub open spec fn known_after(id: ClientId, segments: Seq<Segment>) -> Map<ClientId, ClientInfo>
    decreases segments.len(),
{
    if segments.len() == 0 {
        Map::empty()
    } else {
        let s = segments.last();
        let before = known_after(id, segments.drop_last());
        let v = drained(id, segments.drop_last()).captured(s.connect, s.ts, s.buf);
        before.insert(id, manager::known(before, id, s.ts).forwarded(v))
    }
}

/// The commands for all captures, in order.
pub open spec fn replayed(id: ClientId, segments: Seq<Segment>) -> Seq<ConnCommandView>
    decreases segments.len(),
{
    if segments.len() == 0 {
        Seq::empty()
    } else {
        let s = segments.last();
        let before = known_after(id, segments.drop_last());
        let v = drained(id, segments.drop_last()).captured(s.connect, s.ts, s.buf);
        replayed(id, segments.drop_last()) + manager::known(before, id, s.ts).commands(v, s.ts)
    }
}

/// The frames that a scan of the first part of a session finds are those that a scan of
/// all of it finds first.
proof fn lemma_found_in_part(frames: Seq<Seq<u8>>, n: int)
    requires
        frame_laws::session(ConnState::AwaitingStartup, frames),
        0 <= n <= frames.flatten().len() <= usize::MAX,
    ensures
        ({
            let start = ConnState::AwaitingStartup;
            let part = frame_buffer::scan(start, frames.flatten().take(n), 0, 0).0;
            let all = frame_buffer::scan(start, frames.flatten(), 0, 0).0;
            &&& part.len() <= all.len() == frames.len()
            &&& part == all.take(part.len() as int)
        }),
{
    let start = ConnState::AwaitingStartup;
    let f = frames.flatten();
    frame_laws::lemma_session_steady(start, frames, n, f.skip(n), 0, 0);
    frame_laws::lemma_scan_split(start, f.take(n), f.skip(n), 0, 0);
    frame_laws::lemma_session_scan(start, frames, 0, 0);
    assert(f.take(n) + f.skip(n) =~= f);
    let part = frame_buffer::scan(start, f.take(n), 0, 0).0;
    let all = frame_buffer::scan(start, f, 0, 0).0;
    assert(part =~= all.take(part.len() as int));
}

/// How many frames a scan of captures from their first byte on finds.
spec fn found_in(segments: Seq<Segment>) -> int {
    frame_buffer::scan(ConnState::AwaitingStartup, frame_laws::stream(segments), 0, 0).0.len() as int
}

/// Whether captures are those of a part of a session, from its first byte on.
spec fn is_part(segments: Seq<Segment>, frames: Seq<Seq<u8>>) -> bool {
    let f = frames.flatten();
    let p = frame_laws::stream(segments);
    &&& segments.len() > 0 ==> segments[0].connect
    &&& frame_laws::session(ConnState::AwaitingStartup, frames)
    &&& p.len() <= f.len() <= usize::MAX
    &&& p == f.take(p.len() as int)
}

/// Fewer captures of a part of a session are captures of one.
proof fn lemma_shorter_part(segments: Seq<Segment>, frames: Seq<Seq<u8>>)
    requires
        is_part(segments, frames),
        segments.len() > 0,
    ensures
        is_part(segments.drop_last(), frames),
{
    let f = frames.flatten();
    let p = frame_laws::stream(segments);
    let q = frame_laws::stream(segments.drop_last());
    assert(q =~= p.take(q.len() as int));
    assert(q =~= f.take(q.len() as int));
    if segments.len() > 1 {
        assert(segments.drop_last()[0] == segments[0]);
    }
}

/// Whether a buffer holds what is left of captures when all frames were taken.
spec fn holds(w: FrameBufferView, segments: Seq<Segment>) -> bool {
    let p = frame_laws::stream(segments);
    let (found, end, state) = frame_buffer::scan(ConnState::AwaitingStartup, p, 0, 0);
    &&& w.wf()
    &&& w.frames.len() == 0
    &&& w.start + w.data.len() == p.len()
    &&& w.data == p.skip(w.start)
    &&& w.at == end
    &&& segments.len() > 0 ==> w.state == state && w.state != ConnState::Unknown
    &&& segments.len() == 0 ==> w.state == ConnState::Unknown
}

/// One more capture: what is held then, and which frames it completes.
proof fn lemma_step(v: FrameBufferView, segments: Seq<Segment>, frames: Seq<Seq<u8>>)
    requires
        is_part(segments, frames),
        segments.len() > 0,
        holds(v, segments.drop_last()),
    ensures
        ({
            let s = segments.last();
            let u = v.captured(s.connect, s.ts, s.buf);
            let n1 = found_in(segments.drop_last());
            &&& holds(FrameBufferView { frames: Seq::empty(), ..u }, segments)
            &&& 0 <= n1
            &&& n1 + u.frames.len() == found_in(segments) <= frames.len()
            &&& forall|j: int|
                #![trigger u.frames[j]]
                0 <= j < u.frames.len() ==> u.frames[j].tag == frame_laws::session_tags(
                    ConnState::AwaitingStartup,
                    frames,
                )[n1 + j] && session_laws::captured_bytes(u, j) == frames[n1 + j]
        }),
{
    let start = ConnState::AwaitingStartup;
    let f = frames.flatten();
    let p = frame_laws::stream(segments);
    let s = segments.last();
    let prev = segments.drop_last();
    let q = frame_laws::stream(prev);
    let u = v.captured(s.connect, s.ts, s.buf);
    lemma_shorter_part(segments, frames);
    frame_laws::lemma_session_steady(start, frames, q.len() as int, s.buf, 0, 0);
    frame_laws::lemma_session_steady(start, frames, p.len() as int, Seq::empty(), 0, 0);
    frame_laws::lemma_scan_split(start, q, s.buf, 0, 0);
    frame_laws::lemma_captured(v, s.connect, s.ts, s.buf);
    frame_laws::lemma_captured_data(v, s.connect, s.ts, s.buf);
    let (f1, e1, s1) = frame_buffer::scan(start, q, 0, 0);
    if prev.len() == 0 {
        assert(q =~= Seq::empty());
        assert(segments[0] == s);
    }
    assert(frame_laws::entry_state(v, s.connect) == s1);
    assert(frame_laws::unread(v, s.buf) =~= p.skip(v.at));
    let t = v.next_ts(s.ts);
    frame_laws::lemma_scan_time(s1, p.skip(v.at), v.at, t, 0);
    let f2 = frame_buffer::scan(s1, p.skip(v.at), v.at, 0).0;
    let g2 = frame_buffer::scan(s1, p.skip(v.at), v.at, t).0;
    let found = frame_buffer::scan(start, p, 0, 0).0;
    assert(found == f1 + f2);
    assert(u.frames =~= g2);
    assert(frame_laws::places(g2).len() == frame_laws::places(f2).len());
    assert(u.data =~= p.skip(u.start));
    lemma_found_in_part(frames, p.len() as int);
    frame_laws::lemma_session_scan(start, frames, 0, 0);
    let all = frame_buffer::scan(start, f, 0, 0).0;
    assert forall|j: int| #![trigger u.frames[j]] 0 <= j < u.frames.len() implies u.frames[j].tag
        == frame_laws::session_tags(start, frames)[f1.len() + j] && session_laws::captured_bytes(
        u,
        j,
    ) == frames[f1.len() + j] by {
        let i = f1.len() + j;
        assert(frame_laws::places(g2)[j] == frame_laws::places(f2)[j]);
        assert(found[i] == f2[j]);
        assert(all[i] == found[i]);
        let o = u.frames[j].offset as int;
        let l = u.frames[j].len as int;
        assert(u.readable(u.frames[j]));
        assert(u.data.subrange(o - u.start, o - u.start + l) =~= p.subrange(o, o + l));
        assert(p.subrange(o, o + l) =~= f.subrange(o, o + l));
    }
}

/// After captures of a part of a session: what the buffer holds.
proof fn lemma_drained(id: ClientId, segments: Seq<Segment>, frames: Seq<Seq<u8>>)
    requires
        is_part(segments, frames),
    ensures
        holds(drained(id, segments), segments),
    decreases segments.len(),
{
    if segments.len() > 0 {
        lemma_shorter_part(segments, frames);
        lemma_drained(id, segments.drop_last(), frames);
        lemma_step(drained(id, segments.drop_last()), segments, frames);
    } else {
        let p = frame_laws::stream(segments);
        assert(p.skip(0) =~= p);
    }
}

/// How many of the first `n` frames of a session are messages, where `opening` frames
/// stand in front of these.
spec fn messages_in(n: int, opening: int) -> int {
    if n > opening {
        n - opening
    } else {
        0
    }
}

/// After captures of a part of a session: what was sent.
proof fn lemma_replayed(
    id: ClientId,
    segments: Seq<Segment>,
    asks: Seq<Seq<u8>>,
    startup: Seq<u8>,
    messages: Seq<Seq<u8>>,
)
    requires
        session_laws::is_session(asks, startup, messages),
        is_part(segments, session_laws::sent_frames(asks, startup, messages)),
    ensures
        ({
            let n = messages_in(found_in(segments), asks.len() as int + 1);
            let out = sends(replayed(id, segments));
            &&& found_in(segments) <= asks.len() + 1 + messages.len()
            &&& out.len() == n
            &&& forall|i: int|
                #![trigger out[i]]
                0 <= i < n ==> out[i] == (messages[i][0], messages[i])
        }),
    decreases segments.len(),
{
    let frames = session_laws::sent_frames(asks, startup, messages);
    session_laws::lemma_session(asks, startup, messages);
    if segments.len() > 0 {
        let s = segments.last();
        let prev = segments.drop_last();
        let v = drained(id, prev);
        let u = v.captured(s.connect, s.ts, s.buf);
        let h = asks.len() as int + 1;
        lemma_shorter_part(segments, frames);
        lemma_replayed(id, prev, asks, startup, messages);
        lemma_drained(id, prev, frames);
        lemma_step(v, segments, frames);
        let m = found_in(prev);
        let k = if m >= h {
            0
        } else if h - m < u.frames.len() {
            h - m
        } else {
            u.frames.len() as int
        };
        if k < u.frames.len() {
            let i = m + k;
            assert(frames[i] == messages[i - h]);
            assert(session_laws::is_message(messages[i - h]));
            assert(u.frames[k].tag == frames[i][0]);
        }
        assert(session_laws::opens_with(u, k));
        let info = manager::known(known_after(id, prev), id, s.ts);
        law_sends(info, u, k, s.ts);
        lemma_sends_add(replayed(id, prev), info.commands(u, s.ts));
        let out = sends(replayed(id, segments));
        let before = sends(replayed(id, prev));
        let n1 = messages_in(m, h);
        let n = messages_in(found_in(segments), h);
        assert(out == before + queued_from(u, k));
        assert(out.len() == n);
        assert forall|i: int| #![trigger out[i]] 0 <= i < n implies out[i] == (
            messages[i][0],
            messages[i],
        ) by {
            if i < n1 {
                assert(out[i] == before[i]);
            } else {
                let j = i - n1;
                assert(out[i] == queued_from(u, k)[j]);
                assert(m + (k + j) == h + i);
                assert(frames[h + i] == messages[i]);
                assert(u.frames[k + j].tag == frames[h + i][0]);
            }
        }
    } else {
        assert(frame_laws::stream(segments) =~= Seq::<u8>::empty());
    }
}

/// A session that was captured from its first byte on is replayed as it was: however its
/// bytes are divided into captures, and though frames are taken after each of them, the
/// commands send exactly the messages of the session, each once, in order, with its own
/// type byte and its own bytes. What opened the session is not sent.
pub proof fn law_session_replayed(
    id: ClientId,
    segments: Seq<Segment>,
    asks: Seq<Seq<u8>>,
    startup: Seq<u8>,
    messages: Seq<Seq<u8>>,
)
    requires
        session_laws::is_session(asks, startup, messages),
        segments.len() > 0,
        segments[0].connect,
        frame_laws::stream(segments) == session_laws::sent_frames(
            asks,
            startup,
            messages,
        ).flatten(),
        frame_laws::stream(segments).len() <= usize::MAX,
    ensures
        sends(replayed(id, segments)) == messages.map_values(|m: Seq<u8>| (m[0], m)),
        drained(id, segments).at == frame_laws::stream(segments).len(),
        drained(id, segments).state == ConnState::Normal,
{
    let frames = session_laws::sent_frames(asks, startup, messages);
    let f = frames.flatten();
    assert(f.take(f.len() as int) =~= f);
    session_laws::lemma_session(asks, startup, messages);
    lemma_replayed(id, segments, asks, startup, messages);
    lemma_drained(id, segments, frames);
    frame_laws::lemma_session_scan(ConnState::AwaitingStartup, frames, 0, 0);
    assert(sends(replayed(id, segments)) =~= messages.map_values(|m: Seq<u8>| (m[0], m)));
}

/// However many captures are replayed, a client is told to connect at most once, before it
/// is told anything else.
pub proof fn law_connects_once(id: ClientId, segments: Seq<Segment>)
    ensures
        ({
            let c = replayed(id, segments);
            let m = known_after(id, segments);
            &&& c.len() > 0 ==> c[0] is Connect
            &&& forall|i: int| #![trigger c[i]] 1 <= i < c.len() ==> c[i] is Send
            &&& m.contains_key(id) ==> m[id].connected == (c.len() > 0) && m[id].id == id
            &&& !m.contains_key(id) ==> c.len() == 0
        }),
    decreases segments.len(),
{
    if segments.len() > 0 {
        let s = segments.last();
        let prev = segments.drop_last();
        law_connects_once(id, prev);
        let before = known_after(id, prev);
        let v = drained(id, prev).captured(s.connect, s.ts, s.buf);
        let info = manager::known(before, id, s.ts);
        manager_laws::law_known(before, id, s.ts);
        manager::law_commands(info, v, s.ts);
        let old_c = replayed(id, prev);
        let new_c = info.commands(v, s.ts);
        let c = replayed(id, segments);
        assert(c == old_c + new_c);
        frame_buffer::lemma_startup_frames(v.frames);
        let k = frame_buffer::startup_frames(v.frames);
        assert(session_laws::opens_with(v, k));
        manager_laws::law_client_after_commands(info, v, k);
        manager_laws::law_frames_become_commands(info, v, k, s.ts);
        assert forall|i: int| #![trigger c[i]] 1 <= i < c.len() implies c[i] is Send by {
            if i < old_c.len() {
                assert(c[i] == old_c[i]);
            } else {
                assert(c[i] == new_c[i - old_c.len()]);
            }
        }
    }
}

} // verus!
