//! When to send what was captured: each frame as long after the start of the
//! replay as it came after the start of the capture. Times are in microseconds,
//! where nothing else is said.
use vstd::prelude::*;

verus! {

/// How long after the start something is due that was captured at `target`, in a
/// capture that starts at `origin`.
pub open spec fn due_after(origin: u64, target: u64) -> int {
    if target > origin {
        target - origin
    } else {
        0
    }
}

/// Paces what was captured from `origin` on.
#[derive(Debug, Clone, Copy)]
pub struct Pacer {
    pub origin: u64,
}

impl Pacer {
    /// A replay starts of a capture that starts at `origin`.
    pub fn start(origin: u64) -> (r: Self)
        ensures
            r.origin == origin,
    {
        Pacer { origin }
    }

    /// How long it is to the time of `target`; negative where that has passed. The
    /// replay has run for `elapsed_us`.
    pub fn time_to(&self, target: u64, elapsed_us: u64) -> (r: i64)
        requires
            due_after(self.origin, target) <= i64::MAX,
            elapsed_us <= i64::MAX,
        ensures
            r == due_after(self.origin, target) - elapsed_us,
    {
        target.saturating_sub(self.origin) as i64 - elapsed_us as i64
    }

    /// How many nanoseconds to wait for the time of `target`, if it has not come.
    /// The replay has run for `elapsed_ns` nanoseconds.
    pub fn wait_for(&self, target: u64, elapsed_ns: u128) -> (r: Option<u128>)
        ensures
            match r {
                Some(ns) => elapsed_ns < due_after(self.origin, target) * 1000 && ns == due_after(
                    self.origin,
                    target,
                ) * 1000 - elapsed_ns,
                None => elapsed_ns >= due_after(self.origin, target) * 1000,
            },
    {
        let target_ns: u128 = target.saturating_sub(self.origin) as u128 * 1000;
        if elapsed_ns >= target_ns {
            return None;
        }
        Some(target_ns - elapsed_ns)
    }
}

} // verus!
