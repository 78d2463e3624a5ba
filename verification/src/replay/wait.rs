//! Waiting with a precision that sleeping does not have: sleep most of the time,
//! and spin for the rest. Times are in microseconds.
use vstd::prelude::*;

use crate::replay::pacer;

verus! {

/// How long before the time sleeping ends and spinning begins.
pub const SPIN_MARGIN_US: u64 = 1000;

/// How to wait.
#[derive(Debug, Clone, Copy, PartialEq, Eq, Structural)]
pub enum WaitPlan {
    /// The time has come.
    Done,
    /// Spin.
    Spin,
    /// Sleep so long, and spin for the rest.
    Sleep(u64),
}

/// A replay of a capture that starts at `pcap_ts`.
#[derive(Debug, Clone, Copy)]
pub struct WaitInfo {
    pub pcap_ts: u64,
}

impl WaitInfo {
    /// A replay starts of a capture that starts at `pcap_ts`.
    pub fn start(pcap_ts: u64) -> (r: Self)
        ensures
            r.pcap_ts == pcap_ts,
    {
        WaitInfo { pcap_ts }
    }

    /// How long it is to the time of `target`; negative where that has passed. The
    /// replay has run for `elapsed_us`.
    pub fn time_to(&self, target: u64, elapsed_us: u64) -> (r: i64)
        requires
            pacer::due_after(self.pcap_ts, target) <= i64::MAX,
            elapsed_us <= i64::MAX,
        ensures
            r == pacer::due_after(self.pcap_ts, target) - elapsed_us,
    {
        target.saturating_sub(self.pcap_ts) as i64 - elapsed_us as i64
    }

    /// How to wait for the time of `target`.
    pub fn plan(&self, target: u64, elapsed_us: u64) -> (r: WaitPlan)
        requires
            pacer::due_after(self.pcap_ts, target) <= i64::MAX,
            elapsed_us <= i64::MAX,
        ensures
            ({
                let left = pacer::due_after(self.pcap_ts, target) - elapsed_us;
                r == if left <= 0 {
                    WaitPlan::Done
                } else if left <= SPIN_MARGIN_US {
                    WaitPlan::Spin
                } else {
                    WaitPlan::Sleep((left - SPIN_MARGIN_US) as u64)
                }
            }),
    {
        let delta: i64 = self.time_to(target, elapsed_us);
        if delta <= 0 {
            return WaitPlan::Done;
        }
        let left: u64 = delta as u64;
        if left > SPIN_MARGIN_US {
            WaitPlan::Sleep(left - SPIN_MARGIN_US)
        } else {
            WaitPlan::Spin
        }
    }

    /// How long after the start the time of `target` comes.
    pub fn deadline(&self, target: u64) -> (r: u64)
        ensures
            r == pacer::due_after(self.pcap_ts, target),
    {
        target.saturating_sub(self.pcap_ts)
    }
}

} // verus!
