//! Configuration of the vesting policy and of the whole reward mechanism.
//!
//! Everything here is fixed at chain genesis. An invalid configuration is a
//! startup failure: the checked constructors return `None` and initialization
//! must halt rather than proceed.

use vstd::prelude::*;
use crate::curve::RewardCurve;
use crate::taxation::TaxRate;

verus! {

/// One unit of the base currency.
pub const DOLLARS: u128 = 1;

/// Number of blocks in one day; unlock heights snap down to this granularity.
pub const DAYS: u64 = 1;

/// Parameters of the vesting policy: how much of a reward is immediately
/// spendable, into how many tranches the rest is divided, over how many
/// blocks they vest, and the granularity unlock heights are snapped to.
#[derive(Clone, Copy, PartialEq, Eq, Structural)]
pub struct LockParams {
    /// Amount of a reward that is spendable at once; the rest vests.
    pub immediate: u128,
    /// Number of equal tranches the locked remainder is divided into.
    pub divide: u64,
    /// Length of the whole vesting window, in blocks.
    pub total_lock_period: u64,
    /// Day length in blocks; every unlock height is a multiple of it.
    pub day_blocks: u64,
    /// Ceiling on simultaneously outstanding lock entries for one account.
    pub max_locks: u32,
}

impl LockParams {
    /// A parameter set the generator can run on: at least one tranche, a
    /// positive granularity, and no more tranches per reward than the
    /// account-wide lock ceiling.
    pub open spec fn wf(self) -> bool {
        &&& self.divide >= 1
        &&& self.day_blocks >= 1
        &&& self.divide <= self.max_locks
    }

    /// Checks the well-formedness invariant on concrete values.
    pub fn check(&self) -> (r: bool)
        ensures
            r == self.wf(),
    {
        self.divide >= 1 && self.day_blocks >= 1 && self.divide <= self.max_locks as u64
    }

    /// The policy the chain ships with: one unit spendable at once, the rest
    /// in ten tranches over a hundred days, unlocking on day boundaries.
    pub fn chain_default() -> (r: LockParams)
        ensures
            r == spec_chain_default_params(),
            r.wf(),
    {
        LockParams {
            immediate: DOLLARS,
            divide: 10,
            total_lock_period: 100 * DAYS,
            day_blocks: DAYS,
            max_locks: 100,
        }
    }
}

/// The policy the chain ships with, as a specification-level value.
pub open spec fn spec_chain_default_params() -> LockParams {
    LockParams { immediate: 1, divide: 10, total_lock_period: 100, day_blocks: 1, max_locks: 100 }
}

/// The full genesis configuration of the reward mechanism.
pub struct RewardConfig {
    /// Base reward; also the fallback where the curve has no breakpoint yet.
    pub reward: u128,
    /// Fraction of each reward redirected to the donation destination.
    pub taxation: TaxRate,
    /// Height-indexed table of base-reward changes.
    pub curve: RewardCurve,
    /// Account receiving the taxed share.
    pub donation_destination: u64,
    /// The vesting policy.
    pub lock_params: LockParams,
}

impl RewardConfig {
    /// A configuration is valid when every component is: the taxation rate
    /// lies in `[0, 1]`, the curve is ordered, and the vesting parameters
    /// are well formed.
    pub open spec fn wf(self) -> bool {
        &&& self.taxation.wf()
        &&& self.curve.wf()
        &&& self.lock_params.wf()
    }

    /// Validates a configuration at genesis; an invalid one must halt
    /// initialization. The taxation rate and the curve carry their own
    /// invariants from their checked constructors, so only the vesting
    /// parameters remain to check.
    pub fn check(&self) -> (r: bool)
        requires
            self.taxation.wf(),
            self.curve.wf(),
        ensures
            r == self.wf(),
    {
        self.lock_params.check()
    }
}

} // verus!
