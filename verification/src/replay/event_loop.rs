//! The decisions of the loop that drives all replaying clients: which command is
//! due, what a completed operation means, and what to submit next.
use std::collections::VecDeque;

use vstd::prelude::*;
use vstd::std_specs::vecdeque::*;

use crate::capture::reader::ClientId;
use crate::replay::client;
use crate::replay::client::{ClientState, ReplayClient, ReplayClientView};
use crate::replay::stats::{ReplayStats, ReplayStatsView};
use crate::utils::addr::Addr;
use crate::utils::stream::Stream;

verus! {

/// Marks the operation that waits to be woken.
pub const OP_WAKE: u64 = 0xFFFF_FFFF_FFFF_FFFF;

/// Marks the operation that waits for the next command to be due.
pub const OP_TIMEOUT: u64 = 0xFFFF_FFFF_FFFF_FFFE;

/// Marks operations that connect.
pub const KIND_CONNECT: u64 = 0x1_0000_0000;

/// Marks operations that read.
pub const KIND_READ: u64 = 0x2_0000_0000;

/// Marks operations that write.
pub const KIND_WRITE: u64 = 0x3_0000_0000;

/// The part of a mark that tells the kind of operation.
pub const KIND_MASK: u64 = 0xFFFF_FFFF_0000_0000;

/// The part of a mark that tells the client.
pub const ID_MASK: u64 = 0xFFFF_FFFF;

/// How many bytes are read at once.
pub const READ_BUF_SIZE: usize = 65536;

/// After how many commands the submissions are flushed.
pub const FLUSH_EVERY: u32 = 256;

/// The mark of an operation of a client.
pub fn make_ud(kind: u64, id: ClientId) -> (r: u64)
    ensures
        r == kind | id as u64,
{
    kind | id as u64
}

/// The kind of operation that a mark tells.
pub fn ud_kind(ud: u64) -> (r: u64)
    ensures
        r == ud & KIND_MASK,
{
    ud & KIND_MASK
}

/// The client that a mark tells.
pub fn ud_id(ud: u64) -> (r: ClientId)
    ensures
        r == ud & ID_MASK,
{
    let low: u64 = ud & ID_MASK;
    assert(ud & 0xFFFF_FFFF <= 0xFFFF_FFFF) by (bit_vector);
    low as ClientId
}

/// A mark tells the kind of operation and the client that it was made of, and is
/// not mistaken for one of the marks that belong to no client.
pub proof fn law_marks(kind: u64, id: ClientId)
    requires
        kind == KIND_CONNECT || kind == KIND_READ || kind == KIND_WRITE,
    ensures
        (kind | id as u64) & KIND_MASK == kind,
        (kind | id as u64) & ID_MASK == id,
        kind | id as u64 != OP_WAKE,
        kind | id as u64 != OP_TIMEOUT,
{
    assert((kind | id as u64) & 0xFFFF_FFFF_0000_0000 == kind && (kind | id as u64) & 0xFFFF_FFFF
        == id && kind | id as u64 != 0xFFFF_FFFF_FFFF_FFFF && kind | id as u64
        != 0xFFFF_FFFF_FFFF_FFFE) by (bit_vector)
        requires
            kind == 0x1_0000_0000 || kind == 0x2_0000_0000 || kind == 0x3_0000_0000,
    ;
}

/// What has completed.
#[derive(Debug, Clone, Copy, PartialEq, Eq, Structural)]
pub enum Completed {
    Wake,
    Timeout,
    Connect(ClientId),
    Read(ClientId),
    Write(ClientId),
    Unknown,
}

/// What a mark tells of the operation that has completed.
pub open spec fn completed(ud: u64) -> Completed {
    let id = (ud & ID_MASK) as ClientId;
    if ud == OP_WAKE {
        Completed::Wake
    } else if ud == OP_TIMEOUT {
        Completed::Timeout
    } else if ud & KIND_MASK == KIND_CONNECT {
        Completed::Connect(id)
    } else if ud & KIND_MASK == KIND_READ {
        Completed::Read(id)
    } else if ud & KIND_MASK == KIND_WRITE {
        Completed::Write(id)
    } else {
        Completed::Unknown
    }
}

/// What a mark tells of the operation that has completed.
pub fn classify(ud: u64) -> (r: Completed)
    ensures
        r == completed(ud),
{
    if ud == OP_WAKE {
        return Completed::Wake;
    }
    if ud == OP_TIMEOUT {
        return Completed::Timeout;
    }
    let kind: u64 = ud_kind(ud);
    let id: ClientId = ud_id(ud);
    if kind == KIND_CONNECT {
        Completed::Connect(id)
    } else if kind == KIND_READ {
        Completed::Read(id)
    } else if kind == KIND_WRITE {
        Completed::Write(id)
    } else {
        Completed::Unknown
    }
}

/// What the loop is told to do, and when (in microseconds after the start).
pub enum ConnCommand {
    Connect { id: ClientId, ts: u64 },
    Send { id: ClientId, ts: u64, tag: u8, data: Vec<u8>, flush: bool },
    Terminate { ts: u64 },
}

impl ConnCommand {
    /// When the command is due.
    pub open spec fn due(self) -> u64 {
        match self {
            ConnCommand::Connect { ts, .. } => ts,
            ConnCommand::Send { ts, .. } => ts,
            ConnCommand::Terminate { ts } => ts,
        }
    }

    /// When the command is due.
    pub fn ts(&self) -> (r: u64)
        ensures
            r == self.due(),
    {
        match self {
            ConnCommand::Connect { ts, .. } => *ts,
            ConnCommand::Send { ts, .. } => *ts,
            ConnCommand::Terminate { ts } => *ts,
        }
    }
}

/// The commands that are not carried out yet, and whether more can come.
pub struct ReplayLoop {
    pub pending_commands: VecDeque<ConnCommand>,
    pub rx_closed: bool,
}

impl ReplayLoop {
    /// No commands yet.
    pub fn new() -> (r: Self)
        ensures
            r.pending_commands@.len() == 0,
            !r.rx_closed,
    {
        ReplayLoop { pending_commands: VecDeque::new(), rx_closed: false }
    }

    /// Takes in a command.
    pub fn push(&mut self, cmd: ConnCommand)
        ensures
            final(self).pending_commands@ == old(self).pending_commands@.push(cmd),
            final(self).rx_closed == old(self).rx_closed,
    {
        self.pending_commands.push_back(cmd);
    }

    /// No more commands can come.
    pub fn close(&mut self)
        ensures
            final(self).pending_commands@ == old(self).pending_commands@,
            final(self).rx_closed,
    {
        self.rx_closed = true;
    }

    /// How long to wait for the first command to be due: seconds, and nanoseconds
    /// beyond them.
    pub fn timeout(&self, now: u64) -> (r: Option<(u64, u32)>)
        ensures
            match r {
                Some((sec, nsec)) => self.pending_commands@.len() > 0 && nsec < 1_000_000_000
                    && sec * 1_000_000 + nsec / 1000 == if self.pending_commands@[0].due() > now {
                    self.pending_commands@[0].due() - now
                } else {
                    0
                } && nsec % 1000 == 0,
                None => self.pending_commands@.len() == 0,
            },
    {
        if self.pending_commands.len() == 0 {
            return None;
        }
        let delta_us: u64 = self.pending_commands[0].ts().saturating_sub(now);
        let sec: u64 = delta_us / 1_000_000;
        let nsec: u32 = ((delta_us % 1_000_000) * 1000) as u32;
        assert((delta_us % 1_000_000) * 1000 / 1000 == delta_us % 1_000_000) by (nonlinear_arith);
        Some((sec, nsec))
    }

    /// Takes the first command, if it is due.
    pub fn next_ready(&mut self, now: u64) -> (r: Option<ConnCommand>)
        ensures
            final(self).rx_closed == old(self).rx_closed,
            match r {
                Some(cmd) => old(self).pending_commands@.len() > 0 && cmd == old(
                    self,
                ).pending_commands@[0] && cmd.due() <= now && final(self).pending_commands@
                    == old(self).pending_commands@.drop_first(),
                None => (old(self).pending_commands@.len() == 0 || old(
                    self,
                ).pending_commands@[0].due() > now) && final(self).pending_commands@ == old(
                    self,
                ).pending_commands@,
            },
    {
        if self.pending_commands.len() == 0 || self.pending_commands[0].ts() > now {
            return None;
        }
        let r = self.pending_commands.pop_front();
        assert(self.pending_commands@ =~= old(self).pending_commands@.drop_first());
        r
    }

    /// Whether the loop is over.
    pub fn finished(&self, connections: usize) -> (r: bool)
        ensures
            r == (self.rx_closed && self.pending_commands@.len() == 0 && connections == 0),
    {
        self.rx_closed && self.pending_commands.len() == 0 && connections == 0
    }
}

/// Whether submissions are flushed after the given number of commands.
pub fn flush_due(count: u32) -> (r: bool)
    ensures
        r == (count % FLUSH_EVERY == 0),
{
    count % FLUSH_EVERY == 0
}

/// What becomes of a connection after an operation has completed.
#[derive(Debug, Clone, Copy, PartialEq, Eq, Structural)]
pub enum ConnFate {
    /// It goes on: reading and writing are submitted again.
    Keep,
    /// It is over.
    Remove,
    /// The server has sent a frame without room for its own length.
    ShortFrame,
}

/// A client with what is on its way to the server, and with the operations that
/// are under way or have to be submitted again.
#[verifier::ext_equal]
pub struct ConnectionView {
    pub client: ReplayClientView,
    pub unwritten: Seq<u8>,
    pub read_in_flight: bool,
    pub read_pending: bool,
    pub write_in_flight: bool,
    pub write_pending: bool,
}

/// The connection of a client.
pub struct Connection {
    pub id: ClientId,
    pub client: ReplayClient,
    pub write_stream: Stream,
    pub read_in_flight: bool,
    pub read_pending: bool,
    pub write_in_flight: bool,
    pub write_pending: bool,
}

impl View for Connection {
    type V = ConnectionView;

    open spec fn view(&self) -> ConnectionView {
        ConnectionView {
            client: self.client@,
            unwritten: self.write_stream@,
            read_in_flight: self.read_in_flight,
            read_pending: self.read_pending,
            write_in_flight: self.write_in_flight,
            write_pending: self.write_pending,
        }
    }
}

impl Connection {
    /// The client and the bytes on their way are in order.
    pub open spec fn wf(self) -> bool {
        self.client.wf() && self.write_stream.wf()
    }

    /// A connection with nothing under way.
    pub fn new(id: ClientId, client: ReplayClient) -> (r: Self)
        requires
            client.wf(),
        ensures
            r.wf(),
            r.id == id,
            r.write_stream.written() == 0,
            r.write_stream.kept() == 0,
            r.write_stream.threshold() == READ_BUF_SIZE,
            r@ == (ConnectionView {
                client: client@,
                unwritten: Seq::empty(),
                read_in_flight: false,
                read_pending: false,
                write_in_flight: false,
                write_pending: false,
            }),
    {
        Connection {
            id,
            client,
            write_stream: Stream::new(READ_BUF_SIZE),
            read_in_flight: false,
            read_pending: false,
            write_in_flight: false,
            write_pending: false,
        }
    }

    /// Whether a read has to be submitted.
    pub fn wants_read(&self) -> (r: bool)
        ensures
            r == (!self@.read_in_flight && self.client@.state != ClientState::Dead),
    {
        !self.read_in_flight && !self.client.is_dead()
    }

    /// A read was submitted, or there was no room for it.
    pub fn read_submitted(&mut self, accepted: bool)
        requires
            old(self).wf(),
        ensures
            final(self).wf(),
            final(self).id == old(self).id,
            final(self).write_stream == old(self).write_stream,
            final(self)@ == if accepted {
                ConnectionView { read_in_flight: true, read_pending: false, ..old(self)@ }
            } else {
                ConnectionView { read_pending: true, ..old(self)@ }
            },
    {
        if accepted {
            self.read_in_flight = true;
            self.read_pending = false;
        } else {
            self.read_pending = true;
        }
    }

    /// Whether what the client sends next finds room among the bytes on their way.
    pub fn has_room(&self) -> (r: bool)
        ensures
            r == (self.write_stream.written() + self.client@.outbox.len() <= usize::MAX),
    {
        self.write_stream.has_room(self.client.read_outbox().len())
    }

    /// Prepares a write. The result says whether one has to be submitted, of all
    /// the bytes on their way.
    pub fn prepare_write(&mut self) -> (r: bool)
        requires
            old(self).wf(),
            !old(self)@.write_in_flight ==> old(self).write_stream.written() + old(
                self,
            ).client@.outbox.len() <= usize::MAX,
        ensures
            final(self).wf(),
            final(self).id == old(self).id,
            r == (!old(self)@.write_in_flight && final(self)@.unwritten.len() > 0),
            final(self).write_stream.threshold() == old(self).write_stream.threshold(),
            final(self).write_stream.kept() == old(self).write_stream.kept(),
            final(self).write_stream.written() == old(self).write_stream.written() + if old(
                self,
            )@.write_in_flight {
                0
            } else {
                old(self)@.client.outbox.len() as int
            },
            final(self)@ == if old(self)@.write_in_flight {
                old(self)@
            } else {
                ConnectionView {
                    client: ReplayClientView { outbox: Seq::empty(), ..old(self)@.client },
                    unwritten: old(self)@.unwritten + old(self)@.client.outbox,
                    ..old(self)@
                }
            },
    {
        if self.write_in_flight {
            return false;
        }
        self.write_stream.write(self.client.read_outbox());
        self.client.clear_outbox();
        self.write_stream.data().len() > 0
    }

    /// A write was submitted, or there was no room for it.
    pub fn write_submitted(&mut self, accepted: bool)
        requires
            old(self).wf(),
        ensures
            final(self).wf(),
            final(self).id == old(self).id,
            final(self).write_stream == old(self).write_stream,
            final(self)@ == if accepted {
                ConnectionView { write_in_flight: true, write_pending: false, ..old(self)@ }
            } else {
                ConnectionView { write_pending: true, ..old(self)@ }
            },
    {
        if accepted {
            self.write_in_flight = true;
            self.write_pending = false;
        } else {
            self.write_pending = true;
        }
    }

    /// Connecting has completed.
    pub fn on_connect_completion(&mut self, result: i32, local_addr: Addr) -> (r: ConnFate)
        requires
            old(self).wf(),
        ensures
            final(self).wf(),
            final(self).id == old(self).id,
            final(self).write_stream == old(self).write_stream,
            (final(self)@, r) == if result < 0 {
                (old(self)@, ConnFate::Remove)
            } else {
                (
                    ConnectionView {
                        client: ReplayClientView { addr: local_addr, ..old(self)@.client },
                        ..old(self)@
                    },
                    ConnFate::Keep,
                )
            },
    {
        if result < 0 {
            return ConnFate::Remove;
        }
        self.client.on_connected(local_addr);
        ConnFate::Keep
    }

    /// Reading has completed: `data` is what was read, where `result` counts
    /// bytes.
    pub fn on_read_completion(
        &mut self,
        result: i32,
        data: &[u8],
        stats: &mut ReplayStats,
    ) -> (r: ConnFate)
        requires
            old(self).wf(),
            result > 0 ==> data@.len() == result,
        ensures
            final(self).wf(),
            final(self).id == old(self).id,
            final(self).write_stream == old(self).write_stream,
            ({
                let (c, s, sound) = read_result(old(self)@.client, result, data@, old(stats)@);
                &&& final(self)@ == (ConnectionView {
                    client: c,
                    read_in_flight: false,
                    ..old(self)@
                })
                &&& final(stats)@ == s
                &&& r == if !sound {
                    ConnFate::ShortFrame
                } else if c.state == ClientState::Dead {
                    ConnFate::Remove
                } else {
                    ConnFate::Keep
                }
            }),
    {
        self.read_in_flight = false;
        if result < 0 {
            self.client.on_io_error();
        } else if result == 0 {
            self.client.on_eof();
        } else {
            if !self.client.on_read(data, stats) {
                return ConnFate::ShortFrame;
            }
        }
        if self.client.is_dead() {
            return ConnFate::Remove;
        }
        ConnFate::Keep
    }

    /// Writing has completed: `result` counts the bytes that were written.
    pub fn on_write_completion(&mut self, result: i32) -> (r: ConnFate)
        requires
            old(self).wf(),
        ensures
            final(self).wf(),
            final(self).id == old(self).id,
            final(self).write_stream.written() == old(self).write_stream.written(),
            final(self).write_stream.threshold() == old(self).write_stream.threshold(),
            final(self).write_stream.kept() == if result < 0 {
                old(self).write_stream.kept()
            } else {
                old(self).write_stream.kept_of(
                    old(self).write_stream.kept() + if result <= old(self)@.unwritten.len() {
                        result as int
                    } else {
                        old(self)@.unwritten.len() as int
                    },
                )
            },
            final(self)@ == if result < 0 {
                ConnectionView {
                    client: ReplayClientView { state: ClientState::Dead, ..old(self)@.client },
                    write_in_flight: false,
                    ..old(self)@
                }
            } else {
                ConnectionView {
                    unwritten: if result <= old(self)@.unwritten.len() {
                        old(self)@.unwritten.skip(result as int)
                    } else {
                        Seq::empty()
                    },
                    write_in_flight: false,
                    ..old(self)@
                }
            },
            r == if final(self)@.client.state == ClientState::Dead {
                ConnFate::Remove
            } else {
                ConnFate::Keep
            },
    {
        self.write_in_flight = false;
        if result < 0 {
            self.client.on_io_error();
        } else {
            self.write_stream.mark_read(result as usize);
        }
        if self.client.is_dead() {
            return ConnFate::Remove;
        }
        ConnFate::Keep
    }

    /// Carries out a command to send a frame.
    pub fn replay_frame(&mut self, tag: u8, data: &[u8], stats: &mut ReplayStats)
        requires
            old(self).wf(),
        ensures
            final(self).wf(),
            final(self).id == old(self).id,
            final(self).write_stream == old(self).write_stream,
            final(self)@ == (ConnectionView {
                client: old(self)@.client.sent(tag, data@),
                ..old(self)@
            }),
            final(stats)@ == client::counted_sends(
                old(stats)@,
                if old(self)@.client.sends_now() {
                    1
                } else {
                    0
                },
            ),
    {
        self.client.replay_frame(tag, data, stats);
    }

    /// Carries out the command to end.
    pub fn on_replay_end(&mut self, stats: &mut ReplayStats)
        requires
            old(self).wf(),
        ensures
            final(self).wf(),
            final(self).id == old(self).id,
            final(self).write_stream == old(self).write_stream,
            final(self)@ == (ConnectionView {
                client: old(self)@.client.sent(
                    crate::proto::tags::F_TERMINATE,
                    client::terminate_bytes(),
                ),
                ..old(self)@
            }),
            final(stats)@ == client::counted_sends(
                old(stats)@,
                if old(self)@.client.sends_now() {
                    1
                } else {
                    0
                },
            ),
    {
        self.client.on_replay_end(stats);
    }
}

/// What a completed read does to a client and to the counts, and whether all
/// frames had room for their own length.
pub open spec fn read_result(
    c: ReplayClientView,
    result: i32,
    data: Seq<u8>,
    s: ReplayStatsView,
) -> (ReplayClientView, ReplayStatsView, bool) {
    if result <= 0 {
        (ReplayClientView { state: ClientState::Dead, ..c }, s, true)
    } else {
        ReplayClientView { inbox: c.inbox + data, ..c }.read(s)
    }
}

/// What a connection has yet to send: the bytes on their way, the outbox, and the
/// frames that wait.
pub open spec fn yet_to_send(v: ConnectionView) -> Seq<u8> {
    v.unwritten + client::sending(v.client)
}

/// Preparing a write moves bytes on and changes nothing about what is sent.
pub proof fn law_prepare_keeps_order(v: ConnectionView)
    ensures
        yet_to_send(
            ConnectionView {
                client: ReplayClientView { outbox: Seq::empty(), ..v.client },
                unwritten: v.unwritten + v.client.outbox,
                ..v
            },
        ) == yet_to_send(v),
{
    let w = ConnectionView {
        client: ReplayClientView { outbox: Seq::empty(), ..v.client },
        unwritten: v.unwritten + v.client.outbox,
        ..v
    };
    assert(yet_to_send(w) =~= yet_to_send(v));
}

} // verus!
