//! What holds of the commands that captured frames become.
use vstd::prelude::*;

use crate::capture::frame_buffer;
use crate::capture::frame_buffer::{ConnState, FrameBufferView};
use crate::capture::frame_laws;
use crate::capture::reader::ClientId;
use crate::capture::session_laws;
use crate::replay::manager;
use crate::replay::manager::{ClientInfo, ConnCommandView};

verus! {

/// The bytes that commands send, one behind the other.
pub open spec fn sent_bytes(commands: Seq<ConnCommandView>) -> Seq<u8>
    decreases commands.len(),
{
    if commands.len() == 0 {
        Seq::empty()
    } else {
        let before = sent_bytes(commands.drop_last());
        match commands.last() {
            ConnCommandView::Send { data, .. } => before + data,
            _ => before,
        }
    }
}

/// The bytes of queued frames from the `k`-th up to the `n`-th, one behind the other.
pub open spec fn queued_bytes(v: FrameBufferView, k: int, n: int) -> Seq<u8>
    decreases n - k,
{
    if n <= k {
        Seq::empty()
    } else {
        queued_bytes(v, k, n - 1) + session_laws::captured_bytes(v, n - 1)
    }
}

/// How many commands stand in front of those that send frames: that to connect.
pub open spec fn lead(info: ClientInfo) -> int {
    if info.connected {
        0
    } else {
        1
    }
}

/// Each queued frame behind the startup becomes one command that sends it: to its own
/// client, at the time that is given, with its own type byte and its own bytes, in the
/// order of the queue, and only the last of them is flushed. In front of them stands the
/// command to connect, where the client was not told yet: at the time when it was first
/// heard of, or at once where its startup was never seen. Where there is no frame and the
/// connection is not past its start, there is no command.
pub proof fn law_frames_become_commands(info: ClientInfo, v: FrameBufferView, k: int, ts: u64)
    requires
        session_laws::opens_with(v, k),
    ensures
        ({
            let c = info.commands(v, ts);
            let n = v.frames.len() - k;
            let told = n > 0 || v.state == ConnState::Normal || v.state == ConnState::CopyIn;
            let h = lead(info);
            &&& !told ==> c.len() == 0
            &&& told ==> c.len() == h + n
            &&& told && !info.connected ==> c[0] == (ConnCommandView::Connect {
                id: info.id,
                ts: if info.found_startup || k > 0 {
                    info.first_ts
                } else {
                    0
                },
            })
            &&& forall|i: int|
                #![trigger c[h + i]]
                0 <= i < n ==> c[h + i] == (ConnCommandView::Send {
                    id: info.id,
                    ts,
                    tag: v.frames[k + i].tag,
                    data: session_laws::captured_bytes(v, k + i),
                    flush: i == n - 1,
                })
        }),
{
    session_laws::lemma_opens_with(v, k);
    let c = info.commands(v, ts);
    let h = lead(info);
    let n = v.frames.len() - k;
    assert forall|i: int| #![trigger c[h + i]] 0 <= i < n implies c[h + i] == (
    ConnCommandView::Send {
        id: info.id,
        ts,
        tag: v.frames[k + i].tag,
        data: session_laws::captured_bytes(v, k + i),
        flush: i == n - 1,
    }) by {
        assert(c[h + i] == info.sending(v, ts)[i]);
        assert(frame_buffer::session_frames(v)[i] == v.frames[k + i]);
    }
}

/// What the commands send, joined together, is what the queued frames behind the startup
/// are, joined together.
pub proof fn law_bytes_sent(info: ClientInfo, v: FrameBufferView, k: int, ts: u64)
    requires
        session_laws::opens_with(v, k),
    ensures
        sent_bytes(info.commands(v, ts)) == queued_bytes(v, k, v.frames.len() as int),
{
    law_frames_become_commands(info, v, k, ts);
    let c = info.commands(v, ts);
    let h = lead(info);
    if c.len() == 0 {
        assert(k == v.frames.len());
    } else {
        lemma_bytes_sent(info, v, k, ts, v.frames.len() - k);
        assert(c.take(c.len() as int) =~= c);
    }
}

/// What the first commands send.
proof fn lemma_bytes_sent(info: ClientInfo, v: FrameBufferView, k: int, ts: u64, m: int)
    requires
        session_laws::opens_with(v, k),
        0 <= m <= v.frames.len() - k,
        info.commands(v, ts).len() > 0,
    ensures
        ({
            let h = lead(info);
            sent_bytes(info.commands(v, ts).take(h + m)) == queued_bytes(v, k, k + m)
        }),
    decreases m,
{
    law_frames_become_commands(info, v, k, ts);
    let c = info.commands(v, ts);
    let h = lead(info);
    if m == 0 {
        if h == 1 {
            assert(c.take(1).drop_last() =~= Seq::empty());
            assert(c.take(1).last() == c[0]);
            assert(c[0] is Connect);
            assert(sent_bytes(c.take(1)) == sent_bytes(c.take(1).drop_last()));
        } else {
            assert(c.take(0) =~= Seq::empty());
        }
    } else {
        lemma_bytes_sent(info, v, k, ts, m - 1);
        assert(c.take(h + m).drop_last() =~= c.take(h + m - 1));
        assert(c.take(h + m).last() == c[h + (m - 1)]);
        assert(c[h + (m - 1)] is Send);
        assert(c[h + (m - 1)]->data == session_laws::captured_bytes(v, k + (m - 1)));
        assert(sent_bytes(c.take(h + m)) == sent_bytes(c.take(h + m - 1)) + session_laws::captured_bytes(
            v,
            k + m - 1,
        ));
    }
}

/// Where every queued frame starts with its type byte, as after any captures, every
/// command that sends starts with its own.
pub proof fn law_commands_bear_tags(info: ClientInfo, v: FrameBufferView, k: int, ts: u64)
    requires
        v.wf(),
        session_laws::opens_with(v, k),
        frame_laws::tags_borne(v),
    ensures
        forall|i: int|
            #![trigger info.commands(v, ts)[i]]
            0 <= i < info.commands(v, ts).len() ==> (info.commands(v, ts)[i] matches
                ConnCommandView::Send { tag, data, .. } ==> data.len() >= 5 && (tag != 0
                ==> data[0] == tag)),
{
    law_frames_become_commands(info, v, k, ts);
    let c = info.commands(v, ts);
    let h = lead(info);
    assert forall|i: int| #![trigger c[i]] 0 <= i < c.len() implies (c[i] matches
        ConnCommandView::Send { tag, data, .. } ==> data.len() >= 5 && (tag != 0 ==> data[0]
        == tag)) by {
        if i >= h {
            let j = k + i - h;
            assert(c[h + (i - h)] == c[i]);
            assert(c[i] is Send && c[i]->data == session_laws::captured_bytes(v, j) && c[i]->tag
                == v.frames[j].tag);
            assert(v.frame_bytes(v.frames[j]) == session_laws::captured_bytes(v, j));
        }
    }
}

/// A client is known by what was first heard of it. It counts as connected from the first
/// time on that it is told something, and its startup as seen from the first frame
/// without type byte on.
pub proof fn law_client_after_commands(info: ClientInfo, v: FrameBufferView, k: int)
    requires
        session_laws::opens_with(v, k),
    ensures
        info.forwarded(v).id == info.id,
        info.forwarded(v).first_ts == info.first_ts,
        info.forwarded(v).found_startup == (info.found_startup || k > 0),
        info.forwarded(v).connected == (info.connected || v.frames.len() > k || v.state
            == ConnState::Normal || v.state == ConnState::CopyIn),
{
    session_laws::lemma_opens_with(v, k);
}

/// A client that was not heard of is first heard of now, and was told nothing yet; one
/// that was is what it was.
pub proof fn law_known(m: Map<ClientId, ClientInfo>, id: ClientId, ts: u64)
    ensures
        m.contains_key(id) ==> manager::known(m, id, ts) == m[id],
        !m.contains_key(id) ==> manager::known(m, id, ts) == (ClientInfo {
            id,
            first_ts: ts,
            found_startup: false,
            connected: false,
        }),
{
}

} // verus!
