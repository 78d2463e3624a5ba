//! From captured frames to commands for the replay loop.
use std::collections::HashMap;

use vstd::prelude::*;

use crate::capture::frame_buffer;
use crate::capture::frame_buffer::{ConnState, FrameBuffer, FrameBufferView, FrameInfo};
use crate::capture::reader::ClientId;
use crate::replay::event_loop::ConnCommand;
use crate::utils::wire::push_bytes;

verus! {

/// How far (in microseconds) reading may be ahead of the replay.
pub const READ_AHEAD_US: u64 = 1_000_000;

/// What a command says.
#[verifier::ext_equal]
pub enum ConnCommandView {
    Connect { id: ClientId, ts: u64 },
    Send { id: ClientId, ts: u64, tag: u8, data: Seq<u8>, flush: bool },
    Terminate { ts: u64 },
}

impl View for ConnCommand {
    type V = ConnCommandView;

    open spec fn view(&self) -> ConnCommandView {
        match *self {
            ConnCommand::Connect { id, ts } => ConnCommandView::Connect { id, ts },
            ConnCommand::Send { id, ts, tag, data, flush } => ConnCommandView::Send {
                id,
                ts,
                tag,
                data: data@,
                flush,
            },
            ConnCommand::Terminate { ts } => ConnCommandView::Terminate { ts },
        }
    }
}

/// What commands say.
pub open spec fn command_views(commands: Seq<ConnCommand>) -> Seq<ConnCommandView> {
    Seq::new(commands.len(), |i: int| commands[i]@)
}

/// A client: when it was first heard of, whether its startup message was seen,
/// and whether it was told to connect.
#[derive(Debug, Clone, Copy, PartialEq, Eq, Structural)]
pub struct ClientInfo {
    pub id: ClientId,
    pub first_ts: u64,
    pub found_startup: bool,
    pub connected: bool,
}

/// Whether a client can be told something: there is a frame, or the connection is
/// past its start.
pub open spec fn forwards(v: FrameBufferView) -> bool {
    frame_buffer::session_frames(v).len() > 0 || v.state == ConnState::Normal || v.state == ConnState::CopyIn
}

impl ClientInfo {
    /// With the startup messages that were seen.
    pub open spec fn noticed(self, v: FrameBufferView) -> ClientInfo {
        ClientInfo {
            found_startup: self.found_startup || frame_buffer::startup_frames(v.frames) > 0,
            ..self
        }
    }

    /// After the frames of a buffer.
    pub open spec fn forwarded(self, v: FrameBufferView) -> ClientInfo {
        ClientInfo { connected: self.connected || forwards(v), ..self.noticed(v) }
    }

    /// The command to connect, where the client was not told yet: at the time when
    /// it was first heard of, or at once where its start was not seen.
    pub open spec fn connecting(self, v: FrameBufferView) -> Seq<ConnCommandView> {
        if self.connected {
            Seq::empty()
        } else {
            seq![
                ConnCommandView::Connect {
                    id: self.id,
                    ts: if self.noticed(v).found_startup {
                        self.first_ts
                    } else {
                        0
                    },
                },
            ]
        }
    }

    /// The commands to send the frames. The last one is flushed.
    pub open spec fn sending(self, v: FrameBufferView, ts: u64) -> Seq<ConnCommandView> {
        let frames = frame_buffer::session_frames(v);
        Seq::new(
            frames.len(),
            |i: int|
                ConnCommandView::Send {
                    id: self.id,
                    ts,
                    tag: frames[i].tag,
                    data: v.frame_bytes(frames[i]),
                    flush: i == frames.len() - 1,
                },
        )
    }

    /// The commands for the frames of a buffer.
    pub open spec fn commands(self, v: FrameBufferView, ts: u64) -> Seq<ConnCommandView> {
        if forwards(v) {
            self.connecting(v) + self.sending(v, ts)
        } else {
            Seq::empty()
        }
    }

    /// Takes the frames out of a buffer, and gives the commands for them.
    pub fn forward_frames(&mut self, ts: u64, buf: &mut FrameBuffer) -> (r: Vec<ConnCommand>)
        requires
            old(buf)@.wf(),
        ensures
            final(buf)@ == (FrameBufferView { frames: Seq::empty(), ..old(buf)@ }),
            final(buf)@.wf(),
            *final(self) == old(self).forwarded(old(buf)@),
            command_views(r@) == old(self).commands(old(buf)@, ts),
    {
        let ghost start = buf@;
        let startup: bool = buf.drop_startup_frames();
        proof {
            frame_buffer::lemma_startup_frames(start.frames);
            lemma_no_startup_frames(frame_buffer::session_frames(start));
        }
        if startup {
            self.found_startup = true;
        }
        let mut commands: Vec<ConnCommand> = Vec::new();
        let state = buf.conn_state();
        if buf.peek_frame().is_none() && state != ConnState::Normal && state
            != ConnState::CopyIn {
            assert(buf@.frames =~= Seq::empty());
            assert(command_views(commands@) =~= Seq::empty());
            return commands;
        }
        if !self.connected {
            let connect_ts: u64 = if self.found_startup {
                self.first_ts
            } else {
                0
            };
            commands.push(ConnCommand::Connect { id: self.id, ts: connect_ts });
            self.connected = true;
        }
        self.send_frames(ts, buf, &mut commands);
        proof {
            let head = old(self).connecting(start);
            let now = FrameBufferView { frames: frame_buffer::session_frames(start), ..start };
            assert(frame_buffer::session_frames(now) =~= frame_buffer::session_frames(start));
            assert(self.sending(now, ts) =~= old(self).sending(start, ts));
            assert(command_views(commands@) =~= head + old(self).sending(start, ts));
        }
        commands
    }

    /// Takes all frames out of a buffer, and appends the commands to send them.
    fn send_frames(&self, ts: u64, buf: &mut FrameBuffer, commands: &mut Vec<ConnCommand>)
        requires
            old(buf)@.wf(),
            frame_buffer::startup_frames(old(buf)@.frames) == 0,
        ensures
            final(buf)@ == (FrameBufferView { frames: Seq::empty(), ..old(buf)@ }),
            final(buf)@.wf(),
            command_views(final(commands)@) == command_views(old(commands)@) + self.sending(
                old(buf)@,
                ts,
            ),
    {
        let ghost start = buf@;
        let ghost head = command_views(commands@);
        let ghost all = self.sending(start, ts);
        let ghost mut i: int = 0;
        proof {
            assert(start.frames.skip(0) =~= start.frames);
            assert(frame_buffer::session_frames(start) =~= start.frames);
            assert(command_views(commands@) =~= head + all.take(0));
        }
        loop
            invariant_except_break
                0 <= i <= start.frames.len(),
                all == self.sending(start, ts),
                frame_buffer::session_frames(start) == start.frames,
                buf@ == (FrameBufferView { frames: start.frames.skip(i), ..start }),
                buf@.wf(),
                command_views(commands@) == head + all.take(i),
            ensures
                buf@ == (FrameBufferView { frames: Seq::empty(), ..start }),
                buf@.wf(),
                command_views(commands@) == head + all,
            decreases start.frames.len() - i,
        {
            let ghost before = buf@.frames;
            match buf.pop_frame() {
                None => {
                    assert(buf@.frames =~= Seq::empty());
                    assert(all.take(i) =~= all);
                    break;
                },
                Some(f) => {
                    assert(f == start.frames[i]);
                    assert(before.drop_first() =~= start.frames.skip(i + 1));
                    let mut data: Vec<u8> = Vec::new();
                    push_bytes(&mut data, buf.read_frame(&f));
                    assert(data@ =~= start.frame_bytes(f));
                    let flush: bool = buf.peek_frame().is_none();
                    let ghost sent = commands@;
                    commands.push(ConnCommand::Send { id: self.id, ts, tag: f.tag, data, flush });
                    proof {
                        assert(command_views(commands@) =~= command_views(sent).push(
                            commands@.last()@,
                        ));
                        assert(commands@.last()@ == all[i]);
                        assert(all.take(i).push(all[i]) =~= all.take(i + 1));
                        assert(command_views(commands@) =~= head + all.take(i + 1));
                        i = i + 1;
                    }
                },
            }
        }
    }
}

/// Behind the frames without type byte comes one that has one.
proof fn lemma_no_startup_frames(frames: Seq<FrameInfo>)
    requires
        frames.len() > 0 ==> frames[0].tag != 0,
    ensures
        frame_buffer::startup_frames(frames) == 0,
{
}

/// All clients that were heard of.
pub struct ReplayManager {
    clients: HashMap<ClientId, ClientInfo>,
}

impl View for ReplayManager {
    type V = Map<ClientId, ClientInfo>;

    closed spec fn view(&self) -> Map<ClientId, ClientInfo> {
        self.clients@
    }
}

/// What is known of a client that is heard of at `ts`.
pub open spec fn known(m: Map<ClientId, ClientInfo>, id: ClientId, ts: u64) -> ClientInfo {
    if m.contains_key(id) {
        m[id]
    } else {
        ClientInfo { id, first_ts: ts, found_startup: false, connected: false }
    }
}

impl ReplayManager {
    /// No client was heard of yet.
    pub fn new() -> (r: Self)
        ensures
            r@ == Map::<ClientId, ClientInfo>::empty(),
    {
        ReplayManager { clients: HashMap::new() }
    }

    /// Takes the frames of a client out of its buffer, and gives the commands for
    /// them.
    pub fn on_data(&mut self, id: ClientId, ts: u64, buf: &mut FrameBuffer) -> (r: Vec<
        ConnCommand,
    >)
        requires
            old(buf)@.wf(),
        ensures
            final(buf)@ == (FrameBufferView { frames: Seq::empty(), ..old(buf)@ }),
            final(buf)@.wf(),
            final(self)@ == old(self)@.insert(
                id,
                known(old(self)@, id, ts).forwarded(old(buf)@),
            ),
            command_views(r@) == known(old(self)@, id, ts).commands(old(buf)@, ts),
    {
        broadcast use vstd::std_specs::hash::group_hash_axioms;

        let mut info = match self.clients.get(&id) {
            Some(info) => *info,
            None => ClientInfo { id, first_ts: ts, found_startup: false, connected: false },
        };
        let commands = info.forward_frames(ts, buf);
        self.clients.insert(id, info);
        commands
    }
}

/// Whether reading has to pause: what was read lies too far ahead of the replay,
/// which has run for `elapsed_us` microseconds.
pub fn too_far_ahead(ts: u64, elapsed_us: u64) -> (r: bool)
    ensures
        r == (ts - elapsed_us > READ_AHEAD_US),
{
    ts.saturating_sub(elapsed_us) > READ_AHEAD_US
}

/// A client is told to connect once, in front of everything that it is told to
/// send; and the frames that it is told to send are those of the buffer, in
/// order, the last one flushed.
pub proof fn law_commands(info: ClientInfo, v: FrameBufferView, ts: u64)
    ensures
        ({
            let c = info.commands(v, ts);
            let after = info.forwarded(v);
            &&& c.len() > 0 ==> after.connected
            &&& info.connected ==> forall|i: int| 0 <= i < c.len() ==> c[i] is Send
            &&& !info.connected && c.len() > 0 ==> c[0] is Connect && forall|i: int|
                1 <= i < c.len() ==> c[i] is Send
            &&& forall|i: int|
                #![trigger c[i]]
                0 <= i < c.len() && c[i] is Send ==> c[i]->flush == (i == c.len() - 1)
        }),
{
}

} // verus!
