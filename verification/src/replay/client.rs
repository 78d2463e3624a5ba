//! One client that replays its frames: what it sends, and when.
use std::collections::VecDeque;

use vstd::prelude::*;
use vstd::std_specs::vecdeque::*;
use vstd::utf8::*;

use crate::capture::reader::ClientId;
use crate::pg_client::client;
use crate::pg_client::client::startup_message;
use crate::pg_client::proto;
use crate::pg_client::proto::{
    encode_password, hash_md5_password, parse_message, try_read_frame, Authentication,
    BackendMessage, BackendMessageView,
};
use crate::proto::tags;
use crate::replay::stats;
use crate::replay::stats::{ReplayStats, ReplayStatsView};
use crate::utils::addr::{Addr, Ip};
use crate::utils::parse::{bytes_at, bytes_from};
use crate::utils::text::copied;
use crate::utils::wire;
use crate::utils::wire::{push_be32, push_bytes};

verus! {

/// How many bytes that were read may stay in front of those that were not.
pub const MAX_PARSED: usize = 65536;

/// Where frames are replayed to, and as whom. The timeout is in microseconds.
pub struct ReplayConfig {
    pub server: Addr,
    pub user: String,
    pub password: Option<String>,
    pub dbname: String,
    pub application_name: String,
    pub disconnect_timeout: u64,
}

impl ReplayConfig {
    /// The startup message of a client.
    pub open spec fn startup(self) -> Seq<(Seq<char>, Seq<char>)> {
        client::startup_params(self.application_name@, self.user@, self.dbname@)
    }

    /// Whether everything fits in messages.
    pub open spec fn wf(self) -> bool {
        &&& 4 + proto::startup_body(self.startup()).len() <= i32::MAX
        &&& self.password matches Some(p) ==> client::fits(p@)
    }

    /// A configuration under the name of this program.
    pub fn new(
        host: Ip,
        port: u16,
        dbname: String,
        user: String,
        password: Option<String>,
        disconnect_timeout: u64,
    ) -> (r: Self)
        ensures
            r.server == (Addr { ip: host, port }),
            r.user == user,
            r.password == password,
            r.dbname == dbname,
            r.application_name@ == "pgr"@,
            r.disconnect_timeout == disconnect_timeout,
    {
        ReplayConfig {
            server: Addr::new(host, port),
            user,
            password,
            dbname,
            application_name: copied("pgr"),
            disconnect_timeout,
        }
    }
}

/// The length of the startup message of a client.
proof fn lemma_startup_len(app: Seq<char>, user: Seq<char>, dbname: Seq<char>)
    ensures
        proto::startup_body(client::startup_params(app, user, dbname)).len() == 11 + encode_utf8(
            "application_name"@,
        ).len() + encode_utf8(app).len() + encode_utf8("user"@).len() + encode_utf8(user).len()
            + encode_utf8("database"@).len() + encode_utf8(dbname).len(),
{
    let params = client::startup_params(app, user, dbname);
    reveal_with_fuel(proto::param_bytes, 4);
    assert(params.drop_last().drop_last().drop_last() =~= Seq::empty());
    assert(params.drop_last().last() == params[1]);
    assert(params.drop_last().drop_last().last() == params[0]);
}

impl ReplayConfig {
    /// Whether everything fits in messages.
    pub fn is_valid(&self) -> (r: bool)
        ensures
            r == self.wf(),
    {
        proof {
            lemma_startup_len(self.application_name@, self.user@, self.dbname@);
        }
        let len: u128 = 11 + "application_name".as_bytes().len() as u128
            + self.application_name.as_str().as_bytes().len() as u128
            + "user".as_bytes().len() as u128 + self.user.as_str().as_bytes().len() as u128
            + "database".as_bytes().len() as u128 + self.dbname.as_str().as_bytes().len() as u128;
        let password_fits: bool = match &self.password {
            Some(p) => p.as_str().as_bytes().len() as u128 + 5 <= i32::MAX as u128,
            None => true,
        };
        4 + len <= i32::MAX as u128 && password_fits
    }
}

/// How far a client is.
#[derive(Debug, Clone, Copy, PartialEq, Eq, Structural)]
pub enum ClientState {
    Connecting,
    Normal,
    Dead,
}

/// A frame that waits for its turn.
struct PendingFrame {
    tag: u8,
    data: Vec<u8>,
}

/// What a client holds: its state; the frames that wait for their turn; whether
/// they wait for the server to be ready; what came from the server and was not
/// read yet; and what is to be sent.
#[verifier::ext_equal]
pub struct ReplayClientView {
    pub id: ClientId,
    pub config: ReplayConfig,
    pub addr: Addr,
    pub state: ClientState,
    pub pending: Seq<(u8, Seq<u8>)>,
    pub waiting_for_sync: bool,
    pub inbox: Seq<u8>,
    pub outbox: Seq<u8>,
}

/// The first frame that asks the server to be ready, or the number of frames
/// where there is none.
pub open spec fn sync_index(pending: Seq<(u8, Seq<u8>)>) -> int
    decreases pending.len(),
{
    if pending.len() == 0 || pending[0].0 == tags::F_SYNC {
        0
    } else {
        1 + sync_index(pending.drop_first())
    }
}

/// The bytes of frames, one behind the other.
pub open spec fn joined_frames(pending: Seq<(u8, Seq<u8>)>) -> Seq<u8>
    decreases pending.len(),
{
    if pending.len() == 0 {
        Seq::empty()
    } else {
        pending[0].1 + joined_frames(pending.drop_first())
    }
}

/// The frame that ends a session.
pub open spec fn terminate_bytes() -> Seq<u8> {
    seq![tags::F_TERMINATE] + wire::be32_bytes(4)
}

/// Counts after `n` requests.
pub open spec fn counted_sends(s: ReplayStatsView, n: int) -> ReplayStatsView
    decreases n,
{
    if n <= 0 {
        s
    } else {
        let before = counted_sends(s, n - 1);
        ReplayStatsView {
            total_req: stats::counted(before.total_req),
            delta_req: stats::counted(before.delta_req),
            ..before
        }
    }
}

/// Counts after one response.
pub open spec fn counted_recv(s: ReplayStatsView) -> ReplayStatsView {
    ReplayStatsView { delta_recv: stats::counted(s.delta_recv), ..s }
}

impl ReplayClientView {
    /// Everything fits in messages, and frames wait only while the client connects
    /// or the server is not ready.
    pub open spec fn wf(self) -> bool {
        &&& self.config.wf()
        &&& self.sends_now() ==> self.pending.len() == 0
    }

    /// With bytes to be sent.
    pub open spec fn queued(self, bytes: Seq<u8>) -> ReplayClientView {
        ReplayClientView { outbox: self.outbox + bytes, ..self }
    }

    /// How many frames are sent when the turn of the waiting frames comes: those
    /// up to the first that asks the server to be ready.
    pub open spec fn turn(self) -> int {
        let i = sync_index(self.pending);
        if i < self.pending.len() {
            i + 1
        } else {
            self.pending.len() as int
        }
    }

    /// After the turn of the waiting frames.
    pub open spec fn pending_sent(self) -> ReplayClientView {
        ReplayClientView {
            pending: self.pending.skip(self.turn()),
            waiting_for_sync: self.waiting_for_sync || sync_index(self.pending)
                < self.pending.len(),
            outbox: self.outbox + joined_frames(self.pending.take(self.turn())),
            ..self
        }
    }

    /// After a frame that is to be replayed.
    pub open spec fn sent(self, tag: u8, data: Seq<u8>) -> ReplayClientView {
        if self.state == ClientState::Dead {
            self
        } else if self.waiting_for_sync || self.state == ClientState::Connecting {
            ReplayClientView { pending: self.pending.push((tag, data)), ..self }
        } else {
            ReplayClientView { waiting_for_sync: tag == tags::F_SYNC, ..self }.queued(data)
        }
    }

    /// Whether a frame goes out at once.
    pub open spec fn sends_now(self) -> bool {
        self.state == ClientState::Normal && !self.waiting_for_sync
    }

    /// After the server has said how it wants the client to log in: with a
    /// password, if there is one.
    pub open spec fn logged_in(self, m: BackendMessageView) -> (
        ReplayClientView,
        int,
    ) {
        let dead = ReplayClientView { state: ClientState::Dead, ..self };
        match m {
            BackendMessageView::AuthenticationCleartext => match self.config.password {
                Some(p) => (self.queued(proto::password_bytes(p@)), 1),
                None => (dead, 0),
            },
            BackendMessageView::AuthenticationMd5(salt) => match self.config.password {
                Some(p) => (
                    self.queued(
                        proto::password_bytes(proto::md5_password(self.config.user@, p@, salt)),
                    ),
                    1,
                ),
                None => (dead, 0),
            },
            BackendMessageView::AuthenticationUnsupported(_) => (dead, 0),
            BackendMessageView::ReadyForQuery => {
                let ready = ReplayClientView { state: ClientState::Normal, ..self };
                (ready.pending_sent(), ready.turn())
            },
            _ => (self, 0),
        }
    }

    /// After a frame of the server, and how many requests were sent by it. While
    /// connecting the frame is part of the login; from then on each frame is
    /// counted, and when the server is ready the waiting frames have their turn.
    #[verifier::opaque]
    pub open spec fn answered(self, tag: u8, data: Seq<u8>) -> (
        ReplayClientView,
        int,
    ) {
        let (v, n) = if self.state == ClientState::Connecting {
            match proto::backend_message(tag, data) {
                Some(m) => self.logged_in(m),
                None => (self, 0),
            }
        } else {
            (self, 0)
        };
        if v.state == ClientState::Normal && tag == tags::B_READY_FOR_QUERY {
            let ready = ReplayClientView { waiting_for_sync: false, ..v };
            (ready.pending_sent(), n + ready.turn())
        } else {
            (v, n)
        }
    }

    /// The counts after a frame of the server.
    #[verifier::opaque]
    pub open spec fn answer_counted(
        self,
        tag: u8,
        data: Seq<u8>,
        s: ReplayStatsView,
    ) -> ReplayStatsView {
        let (v, n) = self.answered(tag, data);
        let sent = counted_sends(s, n);
        if v.state == ClientState::Normal {
            counted_recv(sent)
        } else {
            sent
        }
    }

    /// After the frames that stand in the bytes from the server: the client, the
    /// counts, and whether all frames had room for their own length. The first
    /// that had not, and what follows it, stays unread; so does what follows a
    /// frame that ends the connection.
    pub open spec fn read(self, s: ReplayStatsView) -> (
        ReplayClientView,
        ReplayStatsView,
        bool,
    )
        decreases self.inbox.len(),
    {
        match proto::first_frame(self.inbox) {
            None => (self, s, true),
            Some((tag, len)) => if len < 5 {
                (self, s, false)
            } else {
                let data = self.inbox.subrange(5, len);
                let next = ReplayClientView {
                    inbox: self.inbox.skip(len),
                    ..self.answered(tag, data).0
                };
                let counts = self.answer_counted(tag, data, s);
                if next.state == ClientState::Dead {
                    (next, counts, true)
                } else {
                    next.read(counts)
                }
            },
        }
    }
}

/// The frames that wait, as a sequence of plain values.
spec fn pending_view(pending: Seq<PendingFrame>) -> Seq<(u8, Seq<u8>)> {
    Seq::new(pending.len(), |i: int| (pending[i].tag, pending[i].data@))
}

/// A client that replays frames.
pub struct ReplayClient {
    pub id: ClientId,
    pub config: ReplayConfig,
    pub addr: Addr,
    pub state: ClientState,
    pending_frames: VecDeque<PendingFrame>,
    waiting_for_sync: bool,
    parse_buf: Vec<u8>,
    parsed: usize,
    outbox: Vec<u8>,
}

impl View for ReplayClient {
    type V = ReplayClientView;

    closed spec fn view(&self) -> ReplayClientView {
        ReplayClientView {
            id: self.id,
            config: self.config,
            addr: self.addr,
            state: self.state,
            pending: pending_view(self.pending_frames@),
            waiting_for_sync: self.waiting_for_sync,
            inbox: self.parse_buf@.skip(self.parsed as int),
            outbox: self.outbox@,
        }
    }
}

impl ReplayClient {
    /// What was read is part of what came, and the rest is in order too.
    pub closed spec fn wf(self) -> bool {
        &&& self.parsed <= self.parse_buf@.len()
        &&& self@.wf()
    }

    /// A client that connects: it starts with its startup message.
    pub fn connect(id: ClientId, config: ReplayConfig, stats: &mut ReplayStats) -> (r: Self)
        requires
            config.wf(),
        ensures
            r.wf(),
            r@ == (ReplayClientView {
                id,
                config,
                addr: config.server,
                state: ClientState::Connecting,
                pending: Seq::empty(),
                waiting_for_sync: false,
                inbox: Seq::empty(),
                outbox: proto::startup_bytes(config.startup()),
            }),
            final(stats)@ == counted_sends(old(stats)@, 1),
    {
        let addr = config.server;
        let msg = startup_message(
            config.application_name.as_str(),
            config.user.as_str(),
            config.dbname.as_str(),
        );
        let mut client = ReplayClient {
            id,
            config,
            addr,
            state: ClientState::Connecting,
            pending_frames: VecDeque::new(),
            waiting_for_sync: false,
            parse_buf: Vec::new(),
            parsed: 0,
            outbox: Vec::new(),
        };
        proof {
            reveal_with_fuel(counted_sends, 2);
        }
        client.queue(msg.as_slice(), stats);
        proof {
            assert(client@.pending =~= Seq::empty());
            assert(client@.inbox =~= Seq::empty());
            assert(client@.outbox =~= msg@);
        }
        client
    }

    /// The connection is there, from this address.
    pub fn on_connected(&mut self, local_addr: Addr)
        requires
            old(self).wf(),
        ensures
            final(self).wf(),
            final(self)@ == (ReplayClientView { addr: local_addr, ..old(self)@ }),
    {
        self.addr = local_addr;
    }

    /// The server has closed the connection.
    pub fn on_eof(&mut self)
        requires
            old(self).wf(),
        ensures
            final(self).wf(),
            final(self)@ == (ReplayClientView { state: ClientState::Dead, ..old(self)@ }),
    {
        self.state = ClientState::Dead;
    }

    /// Reading or writing has failed.
    pub fn on_io_error(&mut self)
        requires
            old(self).wf(),
        ensures
            final(self).wf(),
            final(self)@ == (ReplayClientView { state: ClientState::Dead, ..old(self)@ }),
    {
        self.state = ClientState::Dead;
    }

    /// Puts bytes in the outbox as one request.
    fn queue(&mut self, bytes: &[u8], stats: &mut ReplayStats)
        ensures
            *final(self) == (ReplayClient { outbox: final(self).outbox, ..*old(self) }),
            final(self).outbox@ == old(self).outbox@ + bytes@,
            final(stats)@ == counted_sends(old(stats)@, 1),
    {
        proof {
            reveal_with_fuel(counted_sends, 2);
        }
        stats.log_send();
        push_bytes(&mut self.outbox, bytes);
    }

    /// Gives the waiting frames their turn.
    fn send_pending(&mut self, stats: &mut ReplayStats)
        ensures
            final(self)@ == old(self)@.pending_sent(),
            final(self).parsed == old(self).parsed,
            final(self).parse_buf == old(self).parse_buf,
            final(stats)@ == counted_sends(old(stats)@, old(self)@.turn()),
    {
        let ghost start = self@;
        let ghost all = self@.pending;
        let ghost mut k: int = 0;
        proof {
            lemma_sync_index(all);
            assert(all.skip(0) =~= all);
            assert(all.take(0) =~= Seq::empty());
            assert(self@.outbox =~= start.outbox + joined_frames(all.take(0)));
        }
        while self.pending_frames.len() > 0
            invariant
                0 <= k <= sync_index(all) <= all.len(),
                all == start.pending,
                start == old(self)@,
                self@ == (ReplayClientView {
                    pending: all.skip(k),
                    outbox: start.outbox + joined_frames(all.take(k)),
                    ..start
                }),
                self.parsed == old(self).parsed,
                self.parse_buf == old(self).parse_buf,
                stats@ == counted_sends(old(stats)@, k),
                forall|i: int| 0 <= i < sync_index(all) ==> (#[trigger] all[i]).0 != tags::F_SYNC,
                sync_index(all) < all.len() ==> all[sync_index(all)].0 == tags::F_SYNC,
            decreases self.pending_frames@.len(),
        {
            let ghost before = self@.pending;
            assert(before.len() == self.pending_frames@.len());
            assert(before.len() == all.len() - k);
            if let Some(frame) = self.pending_frames.pop_front() {
                assert(self@.pending =~= before.drop_first());
                assert(self@.pending =~= all.skip(k + 1));
                assert(before[0] == (frame.tag, frame.data@));
                assert(all[k] == (frame.tag, frame.data@));
                self.queue(frame.data.as_slice(), stats);
                proof {
                    lemma_joined_push(all.take(k), all[k]);
                    assert(all.take(k).push(all[k]) =~= all.take(k + 1));
                    assert(self@.outbox =~= start.outbox + joined_frames(all.take(k + 1)));
                    reveal_with_fuel(counted_sends, 2);
                }
                if frame.tag == tags::F_SYNC {
                    self.waiting_for_sync = true;
                    assert(k == sync_index(all));
                    assert(self@ =~= start.pending_sent());
                    return;
                }
                proof {
                    k = k + 1;
                }
            }
        }
        assert(self@.pending.len() == self.pending_frames@.len());
        assert(k == all.len());
        assert(self@ =~= start.pending_sent());
    }

    /// Takes in how the server wants the client to log in.
    fn handle_auth(&mut self, auth: &Authentication, stats: &mut ReplayStats)
        requires
            old(self).config.wf(),
        ensures
            ({
                let (v, n) = old(self)@.logged_in(BackendMessage::Authentication(*auth)@);
                &&& final(self)@ == v
                &&& final(stats)@ == counted_sends(old(stats)@, n)
            }),
            final(self).parsed == old(self).parsed,
            final(self).parse_buf == old(self).parse_buf,
    {
        match auth {
            Authentication::Accepted => {},
            Authentication::Cleartext => match &self.config.password {
                Some(pass) => {
                    let msg = encode_password(pass.as_str());
                    self.queue(msg.as_slice(), stats);
                },
                None => self.state = ClientState::Dead,
            },
            Authentication::Md5 { salt } => match &self.config.password {
                Some(pass) => {
                    let hashed = hash_md5_password(
                        self.config.user.as_str(),
                        pass.as_str(),
                        salt,
                    );
                    proof {
                        is_ascii_chars_encode_utf8(hashed@);
                    }
                    let msg = encode_password(hashed.as_str());
                    self.queue(msg.as_slice(), stats);
                },
                None => self.state = ClientState::Dead,
            },
            Authentication::Unsupported(_) => self.state = ClientState::Dead,
        }
    }

    /// Takes in a frame of the server.
    fn handle_frame(&mut self, tag: u8, data: &[u8], stats: &mut ReplayStats)
        requires
            old(self).wf(),
        ensures
            final(self).wf(),
            final(self)@ == old(self)@.answered(tag, data@).0,
            final(self).parsed == old(self).parsed,
            final(self).parse_buf == old(self).parse_buf,
            final(stats)@ == old(self)@.answer_counted(tag, data@, old(stats)@),
    {
        proof {
            reveal(ReplayClientView::answered);
            reveal(ReplayClientView::answer_counted);
        }
        let ghost start = self@;
        let ghost counts = stats@;
        if self.state == ClientState::Connecting {
            match parse_message(tag, data) {
                Ok(msg) => match msg {
                    BackendMessage::Authentication(auth) => self.handle_auth(&auth, stats),
                    BackendMessage::ReadyForQuery => {
                        self.state = ClientState::Normal;
                        self.send_pending(stats);
                    },
                    _ => {},
                },
                Err(_) => {},
            }
        }
        let ghost mid = self@;
        let ghost n = if start.state == ClientState::Connecting {
            match proto::backend_message(tag, data@) {
                Some(m) => start.logged_in(m).1,
                None => 0,
            }
        } else {
            0
        };
        assert(stats@ == counted_sends(counts, n));
        if self.state == ClientState::Normal {
            if tag == tags::B_READY_FOR_QUERY {
                self.waiting_for_sync = false;
                let ghost ready = self@;
                self.send_pending(stats);
                proof {
                    lemma_turn(start);
                    lemma_turn(ready);
                    lemma_counts_add(counts, n, ready.turn());
                    lemma_pending_sent_wf(ready);
                }
            }
            stats.log_recv();
        }
        proof {
            lemma_answered_wf(start, tag, data@);
        }
    }

    /// Takes in bytes from the server, and handles the frames that they complete.
    /// The result is false where a frame has no room for its own length.
    pub fn on_read(&mut self, data: &[u8], stats: &mut ReplayStats) -> (r: bool)
        requires
            old(self).wf(),
        ensures
            final(self).wf(),
            (final(self)@, final(stats)@, r) == (ReplayClientView {
                inbox: old(self)@.inbox + data@,
                ..old(self)@
            }).read(old(stats)@),
    {
        if self.parsed > MAX_PARSED {
            let ghost before = self@;
            let rest = self.parse_buf.split_off(self.parsed);
            self.parse_buf = rest;
            self.parsed = 0;
            assert(self@ =~= before);
        }
        push_bytes(&mut self.parse_buf, data);
        let ghost all = ReplayClientView { inbox: old(self)@.inbox + data@, ..old(self)@ }.read(
            stats@,
        );
        assert(self@.inbox =~= old(self)@.inbox + data@);
        loop
            invariant
                self.wf(),
                self@.read(stats@) == all,
                all == (ReplayClientView {
                    inbox: old(self)@.inbox + data@,
                    ..old(self)@
                }).read(old(stats)@),
            decreases self@.inbox.len(),
        {
            let ghost before = self@;
            let rest = bytes_from(self.parse_buf.as_slice(), self.parsed);
            assert(rest@ =~= before.inbox);
            let (tag, frame_len) = match try_read_frame(rest) {
                Some(found) => found,
                None => return true,
            };
            if frame_len < 5 {
                return false;
            }
            let mut frame: Vec<u8> = Vec::new();
            push_bytes(&mut frame, bytes_at(rest, 5, frame_len - 5));
            assert(frame@ =~= before.inbox.subrange(5, frame_len as int));
            let ghost counts = stats@;
            self.handle_frame(tag, frame.as_slice(), stats);
            self.parsed = self.parsed + frame_len;
            proof {
                let next = ReplayClientView {
                    inbox: before.inbox.skip(frame_len as int),
                    ..before.answered(tag, frame@).0
                };
                assert(self@.inbox =~= before.inbox.skip(frame_len as int));
                assert(self@ == next);
            }
            if self.state == ClientState::Dead {
                return true;
            }
        }
    }

    /// Sends a frame, now or when its turn comes.
    pub fn send_frame(&mut self, tag: u8, data: Vec<u8>, stats: &mut ReplayStats)
        requires
            old(self).wf(),
        ensures
            final(self).wf(),
            final(self)@ == old(self)@.sent(tag, data@),
            final(stats)@ == counted_sends(
                old(stats)@,
                if old(self)@.sends_now() {
                    1
                } else {
                    0
                },
            ),
    {
        if self.state == ClientState::Dead {
            return;
        }
        if self.waiting_for_sync || self.state == ClientState::Connecting {
            let ghost before = self@.pending;
            self.pending_frames.push_back(PendingFrame { tag, data });
            assert(self@.pending =~= before.push((tag, data@)));
        } else {
            if tag == tags::F_SYNC {
                self.waiting_for_sync = true;
            }
            self.queue(data.as_slice(), stats);
        }
    }

    /// Sends a copy of a frame, now or when its turn comes.
    pub fn replay_frame(&mut self, tag: u8, data: &[u8], stats: &mut ReplayStats)
        requires
            old(self).wf(),
        ensures
            final(self).wf(),
            final(self)@ == old(self)@.sent(tag, data@),
            final(stats)@ == counted_sends(
                old(stats)@,
                if old(self)@.sends_now() {
                    1
                } else {
                    0
                },
            ),
    {
        let mut copy: Vec<u8> = Vec::new();
        push_bytes(&mut copy, data);
        assert(copy@ =~= data@);
        self.send_frame(tag, copy, stats);
    }

    /// There is nothing more to replay: the session ends after the frames that
    /// were given.
    pub fn on_replay_end(&mut self, stats: &mut ReplayStats)
        requires
            old(self).wf(),
        ensures
            final(self).wf(),
            final(self)@ == old(self)@.sent(tags::F_TERMINATE, terminate_bytes()),
            final(stats)@ == counted_sends(
                old(stats)@,
                if old(self)@.sends_now() {
                    1
                } else {
                    0
                },
            ),
    {
        let mut frame: Vec<u8> = Vec::new();
        frame.push(tags::F_TERMINATE);
        push_be32(&mut frame, 4);
        assert(frame@ =~= terminate_bytes());
        self.send_frame(tags::F_TERMINATE, frame, stats);
    }

    /// Whether the connection is over.
    pub fn is_dead(&self) -> (r: bool)
        ensures
            r == (self@.state == ClientState::Dead),
    {
        self.state == ClientState::Dead
    }

    /// Whether there is something to be sent.
    pub fn has_pending_write(&self) -> (r: bool)
        ensures
            r == (self@.outbox.len() > 0),
    {
        self.outbox.len() > 0
    }

    /// What is to be sent.
    pub fn read_outbox(&self) -> (r: &[u8])
        ensures
            r@ == self@.outbox,
    {
        self.outbox.as_slice()
    }

    /// What was to be sent is taken care of.
    pub fn clear_outbox(&mut self)
        requires
            old(self).wf(),
        ensures
            final(self).wf(),
            final(self)@ == (ReplayClientView { outbox: Seq::empty(), ..old(self)@ }),
    {
        self.outbox = Vec::new();
    }

    /// Takes what is to be sent.
    pub fn take_outbox(&mut self) -> (r: Vec<u8>)
        requires
            old(self).wf(),
        ensures
            final(self).wf(),
            r@ == old(self)@.outbox,
            final(self)@ == (ReplayClientView { outbox: Seq::empty(), ..old(self)@ }),
    {
        let mut out: Vec<u8> = Vec::new();
        std::mem::swap(&mut out, &mut self.outbox);
        out
    }

    /// Puts back what could not be sent, in front of what is to be sent.
    pub fn requeue_unwritten(&mut self, remaining: Vec<u8>)
        requires
            old(self).wf(),
        ensures
            final(self).wf(),
            final(self)@ == (ReplayClientView {
                outbox: remaining@ + old(self)@.outbox,
                ..old(self)@
            }),
    {
        if remaining.len() == 0 {
            assert(remaining@ + self@.outbox =~= self@.outbox);
            return;
        }
        let mut combined = remaining;
        push_bytes(&mut combined, self.outbox.as_slice());
        self.outbox = combined;
    }
}

/// The first frame that asks the server to be ready.
proof fn lemma_sync_index(pending: Seq<(u8, Seq<u8>)>)
    ensures
        0 <= sync_index(pending) <= pending.len(),
        forall|i: int| 0 <= i < sync_index(pending) ==> (#[trigger] pending[i]).0 != tags::F_SYNC,
        sync_index(pending) < pending.len() ==> pending[sync_index(pending)].0 == tags::F_SYNC,
    decreases pending.len(),
{
    if pending.len() > 0 && pending[0].0 != tags::F_SYNC {
        let rest = pending.drop_first();
        lemma_sync_index(rest);
        assert forall|i: int| 0 <= i < sync_index(pending) implies (#[trigger] pending[i]).0
            != tags::F_SYNC by {
            if i > 0 {
                assert(pending[i] == rest[i - 1]);
            }
        }
    }
}

/// One more frame at the end of joined frames.
proof fn lemma_joined_push(pending: Seq<(u8, Seq<u8>)>, frame: (u8, Seq<u8>))
    ensures
        joined_frames(pending.push(frame)) == joined_frames(pending) + frame.1,
    decreases pending.len(),
{
    if pending.len() == 0 {
        assert(pending.push(frame).drop_first() =~= Seq::empty());
        assert(pending.push(frame)[0] == frame);
        assert(frame.1 + joined_frames(Seq::empty()) =~= frame.1);
        assert(joined_frames(pending.push(frame)) =~= frame.1);
        assert(joined_frames(pending) + frame.1 =~= frame.1);
    } else {
        lemma_joined_push(pending.drop_first(), frame);
        assert(pending.push(frame).drop_first() =~= pending.drop_first().push(frame));
        assert(joined_frames(pending.push(frame)) =~= joined_frames(pending) + frame.1);
    }
}

/// Counts add up.
proof fn lemma_counts_add(s: ReplayStatsView, m: int, n: int)
    requires
        0 <= m,
        0 <= n,
    ensures
        counted_sends(counted_sends(s, m), n) == counted_sends(s, m + n),
    decreases n,
{
    if n > 0 {
        lemma_counts_add(s, m, n - 1);
    }
}

/// A turn takes some of the waiting frames.
proof fn lemma_turn(v: ReplayClientView)
    ensures
        0 <= v.turn() <= v.pending.len(),
{
    lemma_sync_index(v.pending);
}

/// After a turn either the server is asked to be ready, or nothing waits.
proof fn lemma_pending_sent_wf(v: ReplayClientView)
    requires
        v.config.wf(),
    ensures
        v.pending_sent().wf(),
{
    lemma_sync_index(v.pending);
}

/// A frame of the server leaves the client in order.
proof fn lemma_answered_wf(v: ReplayClientView, tag: u8, data: Seq<u8>)
    requires
        v.wf(),
    ensures
        v.answered(tag, data).0.wf(),
        v.answered(tag, data).1 >= 0,
        v.answered(tag, data).0.inbox == v.inbox,
{
    reveal(ReplayClientView::answered);
    let ready = ReplayClientView { state: ClientState::Normal, ..v };
    lemma_pending_sent_wf(ready);
    lemma_turn(ready);
    let again = ReplayClientView { waiting_for_sync: false, ..ready.pending_sent() };
    lemma_pending_sent_wf(again);
    lemma_turn(again);
    let back = ReplayClientView { waiting_for_sync: false, ..v };
    lemma_pending_sent_wf(back);
    lemma_turn(back);
}

/// Joined frames in two parts.
pub(crate) proof fn lemma_joined_split(pending: Seq<(u8, Seq<u8>)>, k: int)
    requires
        0 <= k <= pending.len(),
    ensures
        joined_frames(pending) == joined_frames(pending.take(k)) + joined_frames(pending.skip(k)),
    decreases k,
{
    if k == 0 {
        assert(pending.take(0) =~= Seq::empty());
        assert(pending.skip(0) =~= pending);
        assert(joined_frames(pending) =~= joined_frames(pending.take(0)) + joined_frames(
            pending.skip(0),
        ));
    } else {
        let rest = pending.drop_first();
        lemma_joined_split(rest, k - 1);
        assert(pending.take(k).drop_first() =~= rest.take(k - 1));
        assert(rest.skip(k - 1) =~= pending.skip(k));
        assert(joined_frames(pending) =~= joined_frames(pending.take(k)) + joined_frames(
            pending.skip(k),
        ));
    }
}

/// What a client sends and will send: the outbox, and the frames that wait.
pub open spec fn sending(v: ReplayClientView) -> Seq<u8> {
    v.outbox + joined_frames(v.pending)
}

/// Frames are sent in the order in which they are given: a new frame comes
/// behind everything that was given before, whether or not it has to wait.
pub proof fn law_sent_in_order(v: ReplayClientView, tag: u8, data: Seq<u8>)
    requires
        v.wf(),
        v.state != ClientState::Dead,
    ensures
        sending(v.sent(tag, data)) == sending(v) + data,
        v.sent(tag, data).wf(),
{
    let w = v.sent(tag, data);
    if v.sends_now() {
        assert(sending(w) =~= sending(v) + data);
    } else {
        lemma_joined_push(v.pending, (tag, data));
        assert(sending(w) =~= sending(v) + data);
    }
}

/// A turn of the waiting frames changes nothing about what is sent in the end.
pub proof fn law_turn_keeps_order(v: ReplayClientView)
    ensures
        sending(v.pending_sent()) == sending(v),
{
    lemma_turn(v);
    lemma_joined_split(v.pending, v.turn());
    assert(sending(v.pending_sent()) =~= sending(v));
}

/// Once connected, a frame of the server changes nothing about what is sent in
/// the end: it can only give waiting frames their turn.
pub proof fn law_answer_keeps_order(v: ReplayClientView, tag: u8, data: Seq<u8>)
    requires
        v.state == ClientState::Normal,
    ensures
        sending(v.answered(tag, data).0) == sending(v),
        v.answered(tag, data).0.state == ClientState::Normal,
{
    reveal(ReplayClientView::answered);
    law_turn_keeps_order(ReplayClientView { waiting_for_sync: false, ..v });
}

/// Nothing is sent past a request for the server to be ready until the server is
/// ready: a frame that is given meanwhile leaves the outbox as it is, and so does
/// every other frame of the server.
pub proof fn law_waits_for_ready(v: ReplayClientView, tag: u8, data: Seq<u8>)
    requires
        v.state == ClientState::Normal,
        v.waiting_for_sync,
    ensures
        v.sent(tag, data).outbox == v.outbox,
        v.sent(tag, data).waiting_for_sync,
        tag != tags::B_READY_FOR_QUERY ==> v.answered(tag, data).0 == v,
{
    reveal(ReplayClientView::answered);
}

} // verus!
