//! Counters of a replay. They start again after the largest number.
use vstd::prelude::*;

verus! {

/// How many requests were sent in all, and how many requests and responses there
/// were since each count was last read.
pub struct ReplayStats {
    total_req: u64,
    delta_req: u64,
    delta_recv: u64,
}

/// The counts.
pub struct ReplayStatsView {
    pub total_req: u64,
    pub delta_req: u64,
    pub delta_recv: u64,
}

impl View for ReplayStats {
    type V = ReplayStatsView;

    closed spec fn view(&self) -> ReplayStatsView {
        ReplayStatsView {
            total_req: self.total_req,
            delta_req: self.delta_req,
            delta_recv: self.delta_recv,
        }
    }
}

/// The count after one more.
pub open spec fn counted(n: u64) -> u64 {
    if n == u64::MAX {
        0
    } else {
        (n + 1) as u64
    }
}

impl ReplayStats {
    /// Nothing counted yet.
    pub fn new() -> (r: Self)
        ensures
            r@ == (ReplayStatsView { total_req: 0, delta_req: 0, delta_recv: 0 }),
    {
        ReplayStats { total_req: 0, delta_req: 0, delta_recv: 0 }
    }

    /// Counts a request.
    pub fn log_send(&mut self)
        ensures
            final(self)@ == (ReplayStatsView {
                total_req: counted(old(self)@.total_req),
                delta_req: counted(old(self)@.delta_req),
                ..old(self)@
            }),
    {
        self.total_req = self.total_req.wrapping_add(1);
        self.delta_req = self.delta_req.wrapping_add(1);
    }

    /// Counts a response.
    pub fn log_recv(&mut self)
        ensures
            final(self)@ == (ReplayStatsView {
                delta_recv: counted(old(self)@.delta_recv),
                ..old(self)@
            }),
    {
        self.delta_recv = self.delta_recv.wrapping_add(1);
    }

    /// The requests in all.
    pub fn read_total_sent(&self) -> (r: u64)
        ensures
            r == self@.total_req,
    {
        self.total_req
    }

    /// The requests since the last time this was asked.
    pub fn read_delta_sent(&mut self) -> (r: u64)
        ensures
            r == old(self)@.delta_req,
            final(self)@ == (ReplayStatsView { delta_req: 0, ..old(self)@ }),
    {
        let n: u64 = self.delta_req;
        self.delta_req = 0;
        n
    }

    /// The responses since the last time this was asked.
    pub fn read_delta_recv(&mut self) -> (r: u64)
        ensures
            r == old(self)@.delta_recv,
            final(self)@ == (ReplayStatsView { delta_recv: 0, ..old(self)@ }),
    {
        let n: u64 = self.delta_recv;
        self.delta_recv = 0;
        n
    }
}

} // verus!
