//! The reward curve: a height-indexed table determining the base reward.

use vstd::prelude::*;

verus! {

/// An ordered sequence of breakpoints `(block_height, reward_amount)`,
/// non-decreasing in height. An empty curve means the configured fallback
/// reward applies everywhere.
pub struct RewardCurve {
    points: Vec<(u64, u128)>,
}

/// Breakpoint heights never decrease along the sequence.
pub open spec fn heights_non_decreasing(s: Seq<(u64, u128)>) -> bool {
    forall|i: int, j: int| 0 <= i <= j < s.len() ==> (#[trigger] s[i]).0 <= (#[trigger] s[j]).0
}

/// The reward at `height`: the amount of the latest breakpoint whose height
/// is at most `height`, or `fallback` when no breakpoint applies yet.
pub open spec fn spec_evaluate(s: Seq<(u64, u128)>, height: u64, fallback: u128) -> u128
    decreases s.len(),
{
    if s.len() == 0 {
        fallback
    } else if s.last().0 <= height {
        s.last().1
    } else {
        spec_evaluate(s.drop_last(), height, fallback)
    }
}

impl View for RewardCurve {
    type V = Seq<(u64, u128)>;

    closed spec fn view(&self) -> Seq<(u64, u128)> {
        self.points@
    }
}

impl RewardCurve {
    /// A curve is well formed when its breakpoint heights never decrease.
    pub open spec fn wf(self) -> bool {
        heights_non_decreasing(self@)
    }

    /// Validates a breakpoint table at genesis: accepts it only when the
    /// heights never decrease, so a badly ordered configuration halts
    /// initialization instead of silently mis-evaluating.
    pub fn new(points: Vec<(u64, u128)>) -> (r: Option<RewardCurve>)
        ensures
            heights_non_decreasing(points@) ==> (r matches Some(c) && c@ == points@ && c.wf()),
            !heights_non_decreasing(points@) ==> r is None,
    {
        let mut i: usize = 1;
        let n = points.len();
        while i < n
            invariant
                1 <= i,
                n == points@.len(),
                i <= n || n == 0,
                forall|p: int, q: int| 0 <= p <= q < i && q < n ==> (#[trigger] points@[p]).0 <= (
                #[trigger] points@[q]).0,
            decreases n - i,
        {
            if points[i - 1].0 > points[i].0 {
                return None;
            }
            proof {
                assert forall|p: int, q: int| 0 <= p <= q < i + 1 && q < n implies (
                #[trigger] points@[p]).0 <= (#[trigger] points@[q]).0 by {
                    if p < q && q == i {
                        assert(points@[p].0 <= points@[i - 1].0);
                        assert(points@[i - 1].0 <= points@[i as int].0);
                    }
                }
            }
            i = i + 1;
        }
        Some(RewardCurve { points })
    }

    /// An empty curve: the fallback reward applies at every height.
    pub fn empty() -> (r: RewardCurve)
        ensures
            r@ == Seq::<(u64, u128)>::empty(),
            r.wf(),
    {
        let points: Vec<(u64, u128)> = Vec::new();
        proof {
            assert(points@ =~= Seq::<(u64, u128)>::empty());
        }
        RewardCurve { points }
    }

    /// Number of breakpoints.
    pub fn len(&self) -> (r: usize)
        ensures
            r == self@.len(),
    {
        self.points.len()
    }

    /// The reward at `height`: the latest breakpoint at or before `height`
    /// decides; before the first breakpoint (or on an empty curve) the
    /// configured `fallback` reward applies.
    pub fn evaluate(&self, height: u64, fallback: u128) -> (r: u128)
        ensures
            r == spec_evaluate(self@, height, fallback),
    {
        let mut i = self.points.len();
        proof {
            assert(self@.take(i as int) =~= self@);
        }
        while i > 0
            invariant
                i <= self.points.len(),
                spec_evaluate(self@, height, fallback) == spec_evaluate(
                    self@.take(i as int), height, fallback,
                ),
            decreases i,
        {
            i = i - 1;
            let p = self.points[i];
            proof {
                assert(self@.take(i + 1).last() == self@[i as int]);
                assert(self@.take(i + 1).drop_last() =~= self@.take(i as int));
            }
            if p.0 <= height {
                return p.1;
            }
        }
        proof {
            assert(self@.take(0) =~= Seq::<(u64, u128)>::empty());
        }
        fallback
    }
}

} // verus!
