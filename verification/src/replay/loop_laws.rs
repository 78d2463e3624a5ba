//! What holds of the loop that drives the clients of a replay, and of the times at which
//! it acts.
use vstd::prelude::*;

use crate::capture::reader::ClientId;
use crate::replay::client::{ClientState, ReplayClientView};
use crate::replay::event_loop;
use crate::replay::event_loop::{Completed, ConnCommand};
use crate::replay::frame_tags;
use crate::replay::pacer;
use crate::replay::state;
use crate::replay::stats::ReplayStatsView;

verus! {

/// What has completed is what was marked: connecting, reading or writing, and for whom; or
/// one of the two operations that belong to no client.
pub proof fn law_completed(id: ClientId)
    ensures
        event_loop::completed(event_loop::KIND_CONNECT | id as u64) == Completed::Connect(id),
        event_loop::completed(event_loop::KIND_READ | id as u64) == Completed::Read(id),
        event_loop::completed(event_loop::KIND_WRITE | id as u64) == Completed::Write(id),
        event_loop::completed(event_loop::OP_WAKE) == Completed::Wake,
        event_loop::completed(event_loop::OP_TIMEOUT) == Completed::Timeout,
{
    event_loop::law_marks(event_loop::KIND_CONNECT, id);
    event_loop::law_marks(event_loop::KIND_READ, id);
    event_loop::law_marks(event_loop::KIND_WRITE, id);
}

/// A command is due at its own time.
pub proof fn law_due(cmd: ConnCommand)
    ensures
        match cmd {
            ConnCommand::Connect { id: _, ts } => cmd.due() == ts,
            ConnCommand::Send { ts, .. } => cmd.due() == ts,
            ConnCommand::Terminate { ts } => cmd.due() == ts,
        },
{
}

/// A read that fails, or that finds the end, ends the connection and changes nothing else;
/// every other one hands the bytes that were read on, behind those that were not handled.
pub proof fn law_read_completed(
    c: ReplayClientView,
    result: i32,
    data: Seq<u8>,
    s: ReplayStatsView,
)
    ensures
        result <= 0 ==> event_loop::read_result(c, result, data, s) == (
            ReplayClientView { state: ClientState::Dead, ..c },
            s,
            true,
        ),
        result > 0 ==> event_loop::read_result(c, result, data, s) == (ReplayClientView {
            inbox: c.inbox + data,
            ..c
        }).read(s),
{
}

/// What was captured some time after the start of the capture is due as long after the
/// start of the replay; what was captured before is due at once.
pub proof fn law_due_after(origin: u64, target: u64)
    ensures
        origin <= target ==> pacer::due_after(origin, target) == target - origin,
        target <= origin ==> pacer::due_after(origin, target) == 0,
{
}

/// Two things that were captured one after the other are due one after the other, and as
/// far apart.
pub proof fn law_due_in_order(origin: u64, a: u64, b: u64)
    requires
        a <= b,
    ensures
        pacer::due_after(origin, a) <= pacer::due_after(origin, b),
        origin <= a ==> pacer::due_after(origin, b) - pacer::due_after(origin, a) == b - a,
{
}

/// The frames that are replayed: `Q`, `P`, `B`, `D`, `E`, `F`, `S` and `X`.
pub proof fn law_replayed_types(tag: u8)
    ensures
        frame_tags::replayed(tag) <==> {
            ||| tag == 0x51
            ||| tag == 0x50
            ||| tag == 0x42
            ||| tag == 0x44
            ||| tag == 0x45
            ||| tag == 0x46
            ||| tag == 0x53
            ||| tag == 0x58
        },
{
}

/// The frames that are sent one by one: `Q`, `P`, `B`, `D`, `E` and `S`.
pub proof fn law_sent_types(tag: u8)
    ensures
        state::sent_tag(tag) <==> {
            ||| tag == 0x51
            ||| tag == 0x50
            ||| tag == 0x42
            ||| tag == 0x44
            ||| tag == 0x45
            ||| tag == 0x53
        },
{
}

} // verus!
