//! How far a replay is behind its source, or ahead of it.
use vstd::prelude::*;

verus! {

/// How many comparisons there may be: so many differences add up within the limits of
/// the sums.
pub const MAX_UPDATES: u64 = 0x7FFF_FFFF_FFFF_FFFF;

/// Counts, sums and extreme values of the differences, in microseconds. A frame that
/// is not behind counts as ahead, and its difference is not positive.
#[derive(Debug, Clone, Copy)]
pub struct CompareStats {
    pub src_frames: u64,
    pub replay_frames: u64,
    pub cnt_behind: u64,
    pub sum_behind: u128,
    pub max_behind: u64,
    pub cnt_ahead: u64,
    pub sum_ahead: i128,
    pub max_ahead: i128,
    pub total_updates: u64,
}

impl Default for CompareStats {
    fn default() -> (r: Self)
        ensures
            r.wf(),
            r == CompareStats::zero(),
    {
        CompareStats {
            src_frames: 0,
            replay_frames: 0,
            cnt_behind: 0,
            sum_behind: 0,
            max_behind: 0,
            cnt_ahead: 0,
            sum_ahead: 0,
            max_ahead: 0,
            total_updates: 0,
        }
    }
}

impl CompareStats {
    /// Nothing was compared yet.
    pub open spec fn zero() -> CompareStats {
        CompareStats {
            src_frames: 0,
            replay_frames: 0,
            cnt_behind: 0,
            sum_behind: 0,
            max_behind: 0,
            cnt_ahead: 0,
            sum_ahead: 0,
            max_ahead: 0,
            total_updates: 0,
        }
    }

    /// Every comparison was counted once, and no sum is larger than its count
    /// allows.
    pub open spec fn wf(self) -> bool {
        &&& self.cnt_behind + self.cnt_ahead == self.total_updates
        &&& self.sum_behind <= self.cnt_behind * u64::MAX
        &&& -self.cnt_ahead * u64::MAX <= self.sum_ahead <= 0
    }

    /// After one comparison.
    pub open spec fn paired(self, src_ts: u64, replay_ts: u64) -> CompareStats {
        if replay_ts > src_ts {
            let delta = (replay_ts - src_ts) as u64;
            CompareStats {
                cnt_behind: (self.cnt_behind + 1) as u64,
                sum_behind: (self.sum_behind + delta) as u128,
                max_behind: if delta > self.max_behind {
                    delta
                } else {
                    self.max_behind
                },
                total_updates: (self.total_updates + 1) as u64,
                ..self
            }
        } else {
            let delta = (replay_ts - src_ts) as i128;
            CompareStats {
                cnt_ahead: (self.cnt_ahead + 1) as u64,
                sum_ahead: (self.sum_ahead + delta) as i128,
                max_ahead: if delta < self.max_ahead {
                    delta
                } else {
                    self.max_ahead
                },
                total_updates: (self.total_updates + 1) as u64,
                ..self
            }
        }
    }

    /// Takes in one comparison: how long after the connection the frame came, in the
    /// source and in the replay.
    pub fn pair_ts(&mut self, src_ts: u64, replay_ts: u64)
        requires
            old(self).wf(),
            old(self).total_updates < MAX_UPDATES,
        ensures
            final(self).wf(),
            *final(self) == old(self).paired(src_ts, replay_ts),
    {
        self.total_updates += 1;
        if replay_ts > src_ts {
            let delta: u64 = replay_ts - src_ts;
            self.cnt_behind += 1;
            self.sum_behind += delta as u128;
            if delta > self.max_behind {
                self.max_behind = delta;
            }
        } else {
            let delta: i128 = replay_ts as i128 - src_ts as i128;
            self.cnt_ahead += 1;
            self.sum_ahead += delta;
            if delta < self.max_ahead {
                self.max_ahead = delta;
            }
        }
    }
}

/// The statistics after comparisons, each the time of a frame in the source and in the
/// replay.
pub open spec fn compared(s: CompareStats, pairs: Seq<(u64, u64)>) -> CompareStats
    decreases pairs.len(),
{
    if pairs.len() == 0 {
        s
    } else {
        compared(s, pairs.drop_last()).paired(pairs.last().0, pairs.last().1)
    }
}

/// How far the replay is behind its source, if it is; negative where it is ahead.
pub open spec fn lag(p: (u64, u64)) -> int {
    p.1 - p.0
}

/// The sum of those lags that are positive.
pub open spec fn lags_behind(pairs: Seq<(u64, u64)>) -> int
    decreases pairs.len(),
{
    if pairs.len() == 0 {
        0
    } else {
        lags_behind(pairs.drop_last()) + vstd::math::max(lag(pairs.last()), 0)
    }
}

/// The sum of those lags that are not positive.
pub open spec fn lags_ahead(pairs: Seq<(u64, u64)>) -> int
    decreases pairs.len(),
{
    if pairs.len() == 0 {
        0
    } else {
        lags_ahead(pairs.drop_last()) + vstd::math::min(lag(pairs.last()), 0)
    }
}

/// The sum of all lags.
pub open spec fn lags(pairs: Seq<(u64, u64)>) -> int
    decreases pairs.len(),
{
    if pairs.len() == 0 {
        0
    } else {
        lags(pairs.drop_last()) + lag(pairs.last())
    }
}

/// After any comparisons: each was counted, as behind where its lag is positive and as
/// ahead otherwise; the sums are those of the lags; the largest lag is at least each of
/// them and is one of them, or zero where there was none; and the lag that is furthest
/// ahead is at most each of those that are not positive and is one of them, or zero. The
/// counts of frames are left alone.
pub proof fn law_compared(pairs: Seq<(u64, u64)>)
    requires
        pairs.len() <= 0x7FFF_FFFF_FFFF_FFFF,
    ensures
        ({
            let s = compared(CompareStats::zero(), pairs);
            &&& s.wf()
            &&& s.src_frames == 0
            &&& s.replay_frames == 0
            &&& s.total_updates == pairs.len()
            &&& s.cnt_behind == pairs.filter(|p: (u64, u64)| p.1 > p.0).len()
            &&& s.cnt_ahead == pairs.filter(|p: (u64, u64)| p.1 <= p.0).len()
            &&& s.sum_behind == lags_behind(pairs)
            &&& s.sum_ahead == lags_ahead(pairs)
            &&& s.sum_behind + s.sum_ahead == lags(pairs)
            &&& s.max_behind >= 0
            &&& s.max_ahead <= 0
            &&& forall|i: int|
                #![trigger pairs[i]]
                0 <= i < pairs.len() ==> s.max_ahead <= lag(pairs[i]) <= s.max_behind
            &&& s.max_behind == 0 || exists|i: int|
                #![trigger pairs[i]]
                0 <= i < pairs.len() && lag(pairs[i]) == s.max_behind
            &&& s.max_ahead == 0 || exists|i: int|
                #![trigger pairs[i]]
                0 <= i < pairs.len() && lag(pairs[i]) == s.max_ahead
        }),
    decreases pairs.len(),
{
    let behind = |p: (u64, u64)| p.1 > p.0;
    let ahead = |p: (u64, u64)| p.1 <= p.0;
    reveal(Seq::filter);
    if pairs.len() > 0 {
        let prev = pairs.drop_last();
        let p = pairs.last();
        law_compared(prev);
        let before = compared(CompareStats::zero(), prev);
        let s = compared(CompareStats::zero(), pairs);
        assert(s == before.paired(p.0, p.1));
        assert(before.sum_behind <= 0x7FFF_FFFF_FFFF_FFFF * 0xFFFF_FFFF_FFFF_FFFF) by (
        nonlinear_arith)
            requires
                before.sum_behind <= before.cnt_behind * u64::MAX,
                before.cnt_behind <= 0x7FFF_FFFF_FFFF_FFFF,
        ;
        assert(before.sum_ahead >= -0x7FFF_FFFF_FFFF_FFFF * 0xFFFF_FFFF_FFFF_FFFF) by (
        nonlinear_arith)
            requires
                before.sum_ahead >= -before.cnt_ahead * u64::MAX,
                before.cnt_ahead <= 0x7FFF_FFFF_FFFF_FFFF,
        ;
        assert forall|i: int| #![trigger pairs[i]] 0 <= i < pairs.len() implies s.max_ahead <= lag(
            pairs[i],
        ) <= s.max_behind by {
            if i < prev.len() {
                assert(prev[i] == pairs[i]);
            }
        }
        assert(s.max_behind == 0 || exists|i: int|
            #![trigger pairs[i]]
            0 <= i < pairs.len() && lag(pairs[i]) == s.max_behind) by {
            if s.max_behind == before.max_behind && s.max_behind != 0 {
                let i = choose|i: int|
                    #![trigger prev[i]]
                    0 <= i < prev.len() && lag(prev[i]) == before.max_behind;
                assert(pairs[i] == prev[i]);
            } else {
                assert(pairs[pairs.len() - 1] == p);
            }
        }
        assert(s.max_ahead == 0 || exists|i: int|
            #![trigger pairs[i]]
            0 <= i < pairs.len() && lag(pairs[i]) == s.max_ahead) by {
            if s.max_ahead == before.max_ahead && s.max_ahead != 0 {
                let i = choose|i: int|
                    #![trigger prev[i]]
                    0 <= i < prev.len() && lag(prev[i]) == before.max_ahead;
                assert(pairs[i] == prev[i]);
            } else {
                assert(pairs[pairs.len() - 1] == p);
            }
        }
    }
}

} // verus!
