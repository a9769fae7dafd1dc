//! The per-block entry point: evaluate the reward, split it, vest the
//! miner's share and compute the ledger instructions for this block.
//!
//! The surrounding state-transition framework must invoke `process_block`
//! exactly once per block height, after the block's author is known; the
//! function itself is pure, so that guarantee is the caller's only duty.
//! The ledger collaborator then performs the returned instructions in
//! order.

use vstd::prelude::*;
use crate::applier::AccountLockState;
use crate::applier::apply;
use crate::applier::spec_apply;
use crate::config::RewardConfig;
use crate::curve::spec_evaluate;
use crate::schedule::LockPolicy;
use crate::schedule::LockSchedule;
use crate::schedule::generate;
use crate::schedule::keys_above;
use crate::schedule::spec_generate;
use crate::schedule::sum_amounts;
use crate::taxation::spec_donation;
use crate::taxation::split;

verus! {

/// Fixed identifier of the single replace-style lock this mechanism keeps
/// per account; re-issuing under the same identifier replaces the amount.
pub const REWARDS_LOCK_ID: u64 = 1;

/// One instruction to the ledger collaborator.
#[derive(Clone, Copy, PartialEq, Eq, Structural, Debug)]
pub enum LedgerOp {
    /// Create `amount` new units in `account`'s balance.
    Mint { account: u64, amount: u128 },
    /// Replace the lock kept under `lock_id` on `account` with `amount`.
    SetLock { lock_id: u64, account: u64, amount: u128 },
}

/// The observable record emitted for each rewarded block.
#[derive(Clone, Copy, PartialEq, Eq, Structural, Debug)]
pub struct RewardEvent {
    /// The block's author.
    pub author: u64,
    /// The share minted to the author.
    pub miner_amount: u128,
    /// The share minted to the donation destination.
    pub donation_amount: u128,
}

/// Everything one block's reward processing decides: the amounts, the fresh
/// schedule, the account's merged lock state, the ledger instructions and
/// the event to emit.
pub struct BlockOutcome {
    /// The base reward at this height.
    pub reward: u128,
    /// The author's share of the reward.
    pub miner_amount: u128,
    /// The donation destination's share of the reward.
    pub donation_amount: u128,
    /// The schedule vesting the author's share.
    pub schedule: LockSchedule,
    /// The author's outstanding locks after merging the schedule in.
    pub new_locks: AccountLockState,
    /// The still-locked balance the replace-style lock must cover.
    pub lock_amount: u128,
    /// The ledger instructions for this block, in order.
    pub ops: Vec<LedgerOp>,
    /// The event reporting this block's reward.
    pub event: RewardEvent,
}

/// Processes the reward of one block: evaluates the curve at `height`,
/// splits the reward between `author` and the donation destination, vests
/// the author's share into a schedule, merges it into the author's
/// outstanding locks, and lists the ledger instructions — mint the donation,
/// mint the author's share, and replace the author's rewards lock with the
/// still-locked balance.
pub fn process_block(
    config: &RewardConfig,
    author: u64,
    height: u64,
    locks: &AccountLockState,
) -> (r: BlockOutcome)
    requires
        config.wf(),
        locks.wf(),
    ensures
        r.reward == spec_evaluate(config.curve@, height, config.reward),
        r.miner_amount + r.donation_amount == r.reward,
        r.donation_amount == spec_donation(r.reward, config.taxation.spec_parts()),
        r.schedule@ == spec_generate(height, r.miner_amount, config.lock_params),
        r.schedule.wf(),
        sum_amounts(r.schedule@) <= r.miner_amount,
        r.new_locks@ == spec_apply(
            locks@, r.schedule@, height, config.lock_params.max_locks as int,
        ),
        r.new_locks.wf(),
        r.new_locks@.len() <= config.lock_params.max_locks,
        keys_above(r.new_locks@, height),
        r.lock_amount == (if sum_amounts(r.new_locks@) > u128::MAX {
            u128::MAX as int
        } else {
            sum_amounts(r.new_locks@)
        }),
        r.event == (RewardEvent {
            author,
            miner_amount: r.miner_amount,
            donation_amount: r.donation_amount,
        }),
        r.ops@ == seq![
            LedgerOp::Mint { account: config.donation_destination, amount: r.donation_amount },
            LedgerOp::Mint { account: author, amount: r.miner_amount },
            LedgerOp::SetLock {
                lock_id: REWARDS_LOCK_ID,
                account: author,
                amount: r.lock_amount,
            },
        ],
{
    let reward = config.curve.evaluate(height, config.reward);
    let (miner_amount, donation_amount) = split(reward, config.taxation);
    let schedule = generate(height, miner_amount, &config.lock_params);
    let (new_locks, lock_amount) = apply(
        locks, &schedule, height, config.lock_params.max_locks,
    );
    let mut ops: Vec<LedgerOp> = Vec::new();
    ops.push(LedgerOp::Mint { account: config.donation_destination, amount: donation_amount });
    ops.push(LedgerOp::Mint { account: author, amount: miner_amount });
    ops.push(
        LedgerOp::SetLock { lock_id: REWARDS_LOCK_ID, account: author, amount: lock_amount },
    );
    proof {
        assert(ops@ =~= seq![
            LedgerOp::Mint { account: config.donation_destination, amount: donation_amount },
            LedgerOp::Mint { account: author, amount: miner_amount },
            LedgerOp::SetLock { lock_id: REWARDS_LOCK_ID, account: author, amount: lock_amount },
        ]);
    }
    let event = RewardEvent { author, miner_amount, donation_amount };
    BlockOutcome {
        reward,
        miner_amount,
        donation_amount,
        schedule,
        new_locks,
        lock_amount,
        ops,
        event,
    }
}

/// Like `process_block`, but with the vesting policy supplied as a type
/// implementing `LockPolicy` instead of drawn from the configuration's
/// vesting parameters.
pub fn process_block_with<P: LockPolicy>(
    config: &RewardConfig,
    author: u64,
    height: u64,
    locks: &AccountLockState,
) -> (r: BlockOutcome)
    requires
        config.taxation.wf(),
        config.curve.wf(),
        locks.wf(),
    ensures
        r.reward == spec_evaluate(config.curve@, height, config.reward),
        r.miner_amount + r.donation_amount == r.reward,
        r.donation_amount == spec_donation(r.reward, config.taxation.spec_parts()),
        r.schedule@ == P::spec_locks(height, r.miner_amount),
        r.schedule.wf(),
        sum_amounts(r.schedule@) <= r.miner_amount,
        r.new_locks@ == spec_apply(locks@, r.schedule@, height, P::spec_max_locks() as int),
        r.new_locks.wf(),
        r.new_locks@.len() <= P::spec_max_locks(),
        keys_above(r.new_locks@, height),
        r.lock_amount == (if sum_amounts(r.new_locks@) > u128::MAX {
            u128::MAX as int
        } else {
            sum_amounts(r.new_locks@)
        }),
        r.event == (RewardEvent {
            author,
            miner_amount: r.miner_amount,
            donation_amount: r.donation_amount,
        }),
        r.ops@ == seq![
            LedgerOp::Mint { account: config.donation_destination, amount: r.donation_amount },
            LedgerOp::Mint { account: author, amount: r.miner_amount },
            LedgerOp::SetLock {
                lock_id: REWARDS_LOCK_ID,
                account: author,
                amount: r.lock_amount,
            },
        ],
{
    let reward = config.curve.evaluate(height, config.reward);
    let (miner_amount, donation_amount) = split(reward, config.taxation);
    let schedule = P::generate_reward_locks(height, miner_amount);
    let max = P::max_locks();
    let (new_locks, lock_amount) = apply(locks, &schedule, height, max);
    let mut ops: Vec<LedgerOp> = Vec::new();
    ops.push(LedgerOp::Mint { account: config.donation_destination, amount: donation_amount });
    ops.push(LedgerOp::Mint { account: author, amount: miner_amount });
    ops.push(
        LedgerOp::SetLock { lock_id: REWARDS_LOCK_ID, account: author, amount: lock_amount },
    );
    proof {
        assert(ops@ =~= seq![
            LedgerOp::Mint { account: config.donation_destination, amount: donation_amount },
            LedgerOp::Mint { account: author, amount: miner_amount },
            LedgerOp::SetLock { lock_id: REWARDS_LOCK_ID, account: author, amount: lock_amount },
        ]);
    }
    let event = RewardEvent { author, miner_amount, donation_amount };
    BlockOutcome {
        reward,
        miner_amount,
        donation_amount,
        schedule,
        new_locks,
        lock_amount,
        ops,
        event,
    }
}

} // verus!
