//! What a replaying client does with what the server sends, and when it sends its frames.
//! The type bytes and the codes are written out here.
use vstd::prelude::*;

use crate::pg_client::login_laws;
use crate::pg_client::proto;
use crate::replay::client;
use crate::replay::client::{ClientState, ReplayClientView};
use crate::replay::stats;
use crate::replay::stats::ReplayStatsView;

verus! {

/// Whether bytes are one frame of the server: a type byte, and then their number, without
/// that byte, in four bytes, and the payload.
pub open spec fn is_frame(f: Seq<u8>) -> bool {
    f.len() >= 5 && login_laws::number_at(f, 1) == f.len() - 1
}

/// Reading goes frame by frame: the first one is handled, and then what follows it, unless
/// it ended the connection.
pub proof fn law_read_first(v: ReplayClientView, f: Seq<u8>, more: Seq<u8>, s: ReplayStatsView)
    requires
        is_frame(f),
        v.inbox == f + more,
    ensures
        ({
            let next = ReplayClientView { inbox: more, ..v.answered(f[0], f.skip(5)).0 };
            let counts = v.answer_counted(f[0], f.skip(5), s);
            v.read(s) == if next.state == ClientState::Dead {
                (next, counts, true)
            } else {
                next.read(counts)
            }
        }),
{
    let b = v.inbox;
    let rest = b.skip(1);
    assert(rest[0] == f[1] && rest[1] == f[2] && rest[2] == f[3] && rest[3] == f[4]);
    assert(proto::first_frame(b) == Some((f[0], f.len() as int)));
    assert(b.subrange(5, f.len() as int) =~= f.skip(5));
    assert(b.skip(f.len() as int) =~= more);
}

/// As long as no frame is complete, nothing is read.
pub proof fn law_read_waits(v: ReplayClientView, s: ReplayStatsView)
    requires
        v.inbox.len() < 5 || login_laws::number_at(v.inbox, 1) > v.inbox.len() - 1,
    ensures
        v.read(s) == (v, s, true),
{
    let b = v.inbox;
    if b.len() >= 5 {
        let rest = b.skip(1);
        assert(rest[0] == b[1] && rest[1] == b[2] && rest[2] == b[3] && rest[3] == b[4]);
    }
}

/// A request is counted twice over: in all, and since the count was last read.
pub proof fn law_request_counted(s: ReplayStatsView)
    ensures
        client::counted_sends(s, 1).delta_recv == s.delta_recv,
        s.total_req < u64::MAX ==> client::counted_sends(s, 1).total_req == s.total_req + 1,
        s.total_req == u64::MAX ==> client::counted_sends(s, 1).total_req == 0,
        s.delta_req < u64::MAX ==> client::counted_sends(s, 1).delta_req == s.delta_req + 1,
        s.delta_req == u64::MAX ==> client::counted_sends(s, 1).delta_req == 0,
{
    reveal_with_fuel(client::counted_sends, 2);
}

/// As many requests are counted as there are.
pub proof fn law_requests_counted(s: ReplayStatsView, n: int)
    requires
        0 <= n,
        s.total_req + n <= u64::MAX,
        s.delta_req + n <= u64::MAX,
    ensures
        client::counted_sends(s, n) == (ReplayStatsView {
            total_req: (s.total_req + n) as u64,
            delta_req: (s.delta_req + n) as u64,
            delta_recv: s.delta_recv,
        }),
    decreases n,
{
    if n > 0 {
        law_requests_counted(s, n - 1);
    }
}

/// What a client sends to log in stands behind what it sent before, is counted as one
/// request, and leaves everything else as it is: a password as it is, where the server
/// wants one (code three), and what stands for it under MD5, made of the user, the password
/// and the salt, where the server wants that (code five). A client without password is
/// dead then, and so is one that is asked for something else; nothing is sent.
pub proof fn law_login(v: ReplayClientView, f: Seq<u8>, s: ReplayStatsView)
    requires
        v.state == ClientState::Connecting,
        is_frame(f),
        f[0] == 0x52,
        f.len() >= 9,
    ensures
        ({
            let code = login_laws::number_at(f, 5);
            let (w, _) = v.answered(f[0], f.skip(5));
            let counts = v.answer_counted(f[0], f.skip(5), s);
            let dead = ReplayClientView { state: ClientState::Dead, ..v };
            let sent = client::counted_sends(s, 1);
            &&& code == 0 ==> w == v && counts == s
            &&& code == 3 ==> match v.config.password {
                Some(p) => w == (ReplayClientView {
                    outbox: v.outbox + login_laws::password_message(p@),
                    ..v
                }) && counts == sent,
                None => w == dead && counts == s,
            }
            &&& code == 5 && f.len() >= 13 ==> match v.config.password {
                Some(p) => w == (ReplayClientView {
                    outbox: v.outbox + login_laws::password_message(
                        login_laws::md5_answer(
                            v.config.user@,
                            p@,
                            seq![f[9], f[10], f[11], f[12]],
                        ),
                    ),
                    ..v
                }) && counts == sent,
                None => w == dead && counts == s,
            }
            &&& code == 5 && f.len() < 13 ==> w == v && counts == s
            &&& code != 0 && code != 3 && code != 5 ==> w == dead && counts == s
        }),
{
    reveal(ReplayClientView::answered);
    reveal(ReplayClientView::answer_counted);
    reveal_with_fuel(client::counted_sends, 2);
    let data = f.skip(5);
    assert(login_laws::number_at(data, 0) == login_laws::number_at(f, 5));
    login_laws::law_authentication(data);
    login_laws::law_backend_message(f[0], data);
    if let Some(p) = v.config.password {
        login_laws::law_password_message(p@);
        if f.len() >= 13 {
            let salt = seq![f[9], f[10], f[11], f[12]];
            assert(salt =~= seq![data[4], data[5], data[6], data[7]]);
            login_laws::law_md5_password(v.config.user@, p@, salt);
            login_laws::law_password_message(login_laws::md5_answer(v.config.user@, p@, salt));
        }
    }
}

/// While a client logs in, all other frames of the server but one change nothing: only that
/// the server is ready (`Z`) ends the login.
pub proof fn law_login_passes_over(
    v: ReplayClientView,
    tag: u8,
    data: Seq<u8>,
    s: ReplayStatsView,
)
    requires
        v.state == ClientState::Connecting,
        tag != 0x52,
        tag != 0x5A,
    ensures
        v.answered(tag, data).0 == v,
        v.answer_counted(tag, data, s) == s,
{
    reveal(ReplayClientView::answered);
    reveal(ReplayClientView::answer_counted);
    login_laws::law_backend_message(tag, data);
}

/// Whether a turn that starts with the frame `from` ends in front of the frame `to`: behind
/// the first Sync (`S`), or behind the last frame where there is none.
pub open spec fn is_turn(pending: Seq<(u8, Seq<u8>)>, from: int, to: int) -> bool {
    &&& 0 <= from <= to <= pending.len()
    &&& forall|i: int| #![trigger pending[i]] from <= i < to - 1 ==> pending[i].0 != 0x53
    &&& to < pending.len() ==> from < to && pending[to - 1].0 == 0x53
}

/// The bytes of frames, one behind the other, are just that.
pub proof fn law_joined_frames(pending: Seq<(u8, Seq<u8>)>)
    ensures
        client::joined_frames(pending) == pending.map_values(|f: (u8, Seq<u8>)| f.1).flatten(),
    decreases pending.len(),
{
    let bytes = |f: (u8, Seq<u8>)| f.1;
    if pending.len() > 0 {
        law_joined_frames(pending.drop_first());
        assert(pending.map_values(bytes).drop_first() =~= pending.drop_first().map_values(bytes));
    }
}

/// Where a turn ends.
proof fn lemma_turn(v: ReplayClientView, to: int)
    requires
        is_turn(v.pending, 0, to),
    ensures
        v.turn() == to,
        client::sync_index(v.pending) < v.pending.len() <==> to > 0 && v.pending[to - 1].0 == 0x53,
{
    let p = v.pending;
    if to > 0 && p[to - 1].0 == 0x53 {
        lemma_sync_index(p, to - 1);
    } else {
        assert(to == p.len());
        assert forall|i: int| #![trigger p[i]] 0 <= i < p.len() implies p[i].0 != 0x53 by {
            if i == to - 1 {
                assert(p[to - 1].0 != 0x53);
            }
        }
        lemma_sync_index(p, p.len() as int);
    }
}

/// Where the first Sync stands.
proof fn lemma_sync_index(pending: Seq<(u8, Seq<u8>)>, k: int)
    requires
        0 <= k <= pending.len(),
        k < pending.len() ==> pending[k].0 == 0x53,
        forall|i: int| #![trigger pending[i]] 0 <= i < k ==> pending[i].0 != 0x53,
    ensures
        client::sync_index(pending) == k,
    decreases k,
{
    if k > 0 {
        let rest = pending.drop_first();
        assert forall|i: int| #![trigger rest[i]] 0 <= i < k - 1 implies rest[i].0 != 0x53 by {
            assert(rest[i] == pending[i + 1]);
        }
        lemma_sync_index(rest, k - 1);
    }
}

/// When the server is ready (`Z`), a client that is logged in sends the frames that wait,
/// up to the first Sync, as they are and in order, behind what it sent before; the others
/// go on waiting. It waits for the server again where it has sent a Sync.
pub proof fn law_ready(v: ReplayClientView, data: Seq<u8>, to: int, s: ReplayStatsView)
    requires
        v.state == ClientState::Normal,
        is_turn(v.pending, 0, to),
    ensures
        v.answered(0x5A, data).0 == (ReplayClientView {
            pending: v.pending.skip(to),
            outbox: v.outbox + client::joined_frames(v.pending.take(to)),
            waiting_for_sync: to > 0 && v.pending[to - 1].0 == 0x53,
            ..v
        }),
        v.answer_counted(0x5A, data, s) == client::counted_recv(client::counted_sends(s, to)),
{
    reveal(ReplayClientView::answered);
    reveal(ReplayClientView::answer_counted);
    lemma_turn(ReplayClientView { waiting_for_sync: false, ..v }, to);
}

/// Once logged in, every other frame of the server is counted and changes nothing.
pub proof fn law_response_counted(v: ReplayClientView, tag: u8, data: Seq<u8>, s: ReplayStatsView)
    requires
        v.state == ClientState::Normal,
        tag != 0x5A,
    ensures
        v.answered(tag, data).0 == v,
        v.answer_counted(tag, data, s).total_req == s.total_req,
        v.answer_counted(tag, data, s).delta_req == s.delta_req,
        s.delta_recv < u64::MAX ==> v.answer_counted(tag, data, s).delta_recv == s.delta_recv + 1,
{
    reveal(ReplayClientView::answered);
    reveal(ReplayClientView::answer_counted);
}

/// When the server is ready for the first time, the login is done: the frames that wait
/// have two turns, as they are and in order, and the others go on waiting.
pub proof fn law_login_done(v: ReplayClientView, data: Seq<u8>, mid: int, to: int)
    requires
        v.state == ClientState::Connecting,
        is_turn(v.pending, 0, mid),
        is_turn(v.pending, mid, to),
    ensures
        v.answered(0x5A, data).0 == (ReplayClientView {
            state: ClientState::Normal,
            pending: v.pending.skip(to),
            outbox: v.outbox + client::joined_frames(v.pending.take(to)),
            waiting_for_sync: to > mid && v.pending[to - 1].0 == 0x53,
            ..v
        }),
{
    reveal(ReplayClientView::answered);
    login_laws::law_backend_message(0x5A, data);
    let ready = ReplayClientView { state: ClientState::Normal, ..v };
    lemma_turn(ready, mid);
    let p = v.pending;
    let rest = p.skip(mid);
    let again = ReplayClientView { waiting_for_sync: false, ..ready.pending_sent() };
    assert(is_turn(rest, 0, to - mid)) by {
        assert forall|i: int| #![trigger rest[i]] 0 <= i < to - mid - 1 implies rest[i].0
            != 0x53 by {
            assert(rest[i] == p[mid + i]);
        }
        if to - mid < rest.len() {
            assert(rest[to - mid - 1] == p[to - 1]);
        }
    }
    lemma_turn(again, to - mid);
    if to > mid {
        assert(rest[to - mid - 1] == p[to - 1]);
    }
    assert(rest.skip(to - mid) =~= p.skip(to));
    client::lemma_joined_split(p.take(to), mid);
    assert(p.take(to).take(mid) =~= p.take(mid));
    assert(p.take(to).skip(mid) =~= rest.take(to - mid));
    assert(v.answered(0x5A, data).0.outbox =~= v.outbox + client::joined_frames(p.take(to)));
}

/// A frame that is to be replayed goes out at once where the client is logged in and does
/// not wait for the server; a Sync makes it wait. Otherwise the frame waits, behind the
/// others that do, unless the client is dead, which takes nothing more.
pub proof fn law_send_frame(v: ReplayClientView, tag: u8, data: Seq<u8>)
    ensures
        v.state == ClientState::Dead ==> v.sent(tag, data) == v,
        v.state == ClientState::Normal && !v.waiting_for_sync ==> v.sent(tag, data) == (
        ReplayClientView {
            outbox: v.outbox + data,
            waiting_for_sync: tag == 0x53,
            ..v
        }),
        v.state == ClientState::Connecting || v.state == ClientState::Normal
            && v.waiting_for_sync ==> v.sent(tag, data) == (ReplayClientView {
            pending: v.pending.push((tag, data)),
            ..v
        }),
        v.sends_now() <==> v.state == ClientState::Normal && !v.waiting_for_sync,
{
}

/// The frame that ends a session: `X`, and a length that counts only itself.
pub proof fn law_terminate()
    ensures
        client::terminate_bytes() == seq![0x58u8, 0u8, 0u8, 0u8, 4u8],
{
    assert(client::terminate_bytes() =~= seq![0x58u8, 0u8, 0u8, 0u8, 4u8]);
}

/// A count goes up by one, and starts again after the largest number.
pub proof fn law_counted(n: u64)
    ensures
        stats::counted(n) == (n + 1) % 0x1_0000_0000_0000_0000,
{
}

/// A client opens its session with the name of its application, its user and its database.
pub proof fn law_startup(config: client::ReplayConfig)
    ensures
        config.startup() == seq![
            ("application_name"@, config.application_name@),
            ("user"@, config.user@),
            ("database"@, config.dbname@),
        ],
{
}

} // verus!
