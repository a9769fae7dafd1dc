//! The lock-schedule data type and the generator that vests a block reward
//! into equal tranches at day-aligned future unlock heights.

use vstd::prelude::*;
use crate::arith::lemma_saturating_mul_u64_monotone;
use crate::arith::lemma_snap_down_monotone;
use crate::arith::lemma_snap_down_props;
use crate::arith::saturating_mul_u64;
use crate::arith::snap_down;
use crate::arith::spec_saturating_add_u64;
use crate::arith::spec_saturating_sub_u128;
use crate::arith::spec_saturating_mul_u64;
use crate::arith::spec_snap_down;
use crate::config::LockParams;
use crate::config::spec_chain_default_params;

verus! {

/// An ordered schedule of future unlock events: each entry maps an unlock
/// block height to the amount that becomes spendable no earlier than that
/// height. Keys are strictly increasing.
pub struct LockSchedule {
    entries: Vec<(u64, u128)>,
}

/// The keys of the entry sequence are strictly increasing.
pub open spec fn keys_strictly_increasing(s: Seq<(u64, u128)>) -> bool {
    forall|i: int, j: int| 0 <= i < j < s.len() ==> (#[trigger] s[i]).0 < (#[trigger] s[j]).0
}

/// Every key of the entry sequence is a multiple of the day length.
pub open spec fn keys_aligned(s: Seq<(u64, u128)>, day: u64) -> bool {
    forall|i: int| 0 <= i < s.len() ==> (#[trigger] s[i]).0 % day == 0
}

/// Every key of the entry sequence is strictly above `h`.
pub open spec fn keys_above(s: Seq<(u64, u128)>, h: u64) -> bool {
    forall|i: int| 0 <= i < s.len() ==> (#[trigger] s[i]).0 > h
}

/// Every key of the entry sequence is strictly below `b`.
pub open spec fn keys_below(s: Seq<(u64, u128)>, b: u64) -> bool {
    forall|i: int| 0 <= i < s.len() ==> (#[trigger] s[i]).0 < b
}

/// The sum of all amounts in the entry sequence, as an unbounded integer.
pub open spec fn sum_amounts(s: Seq<(u64, u128)>) -> int
    decreases s.len(),
{
    if s.len() == 0 {
        0
    } else {
        sum_amounts(s.drop_last()) + s.last().1
    }
}

/// A sum of unsigned amounts is never negative.
pub proof fn lemma_sum_nonneg(s: Seq<(u64, u128)>)
    ensures
        sum_amounts(s) >= 0,
    decreases s.len(),
{
    if s.len() > 0 {
        lemma_sum_nonneg(s.drop_last());
    }
}

/// Summing distributes over concatenation.
pub proof fn lemma_sum_concat(x: Seq<(u64, u128)>, y: Seq<(u64, u128)>)
    ensures
        sum_amounts(x + y) == sum_amounts(x) + sum_amounts(y),
    decreases y.len(),
{
    if y.len() == 0 {
        assert(x + y =~= x);
    } else {
        lemma_sum_concat(x, y.drop_last());
        assert((x + y).drop_last() =~= x + y.drop_last());
        assert((x + y).last() == y.last());
    }
}

impl View for LockSchedule {
    type V = Seq<(u64, u128)>;

    closed spec fn view(&self) -> Seq<(u64, u128)> {
        self.entries@
    }
}

impl LockSchedule {
    /// A schedule is well formed when its unlock heights strictly increase.
    pub open spec fn wf(self) -> bool {
        keys_strictly_increasing(self@)
    }

    /// Number of entries.
    pub fn len(&self) -> (r: usize)
        ensures
            r == self@.len(),
    {
        self.entries.len()
    }

    /// Whether the schedule holds no entries at all.
    pub fn is_empty(&self) -> (r: bool)
        ensures
            r == (self@.len() == 0),
    {
        self.entries.len() == 0
    }

    /// The entry at position `i`: `(unlock_height, amount)`.
    pub fn get(&self, i: usize) -> (r: (u64, u128))
        requires
            i < self@.len(),
        ensures
            r == self@[i as int],
    {
        self.entries[i]
    }

    /// Read-only access to the entry list.
    pub fn entries(&self) -> (r: &Vec<(u64, u128)>)
        ensures
            r@ == self@,
    {
        &self.entries
    }
}

/// The part of a reward that vests rather than being spendable at once.
pub open spec fn spec_locked_reward(total_reward: u128, params: LockParams) -> u128 {
    spec_saturating_sub_u128(total_reward, params.immediate)
}

/// The amount of one tranche: the locked reward divided into `divide` equal
/// parts; the remainder of the integer division is not redistributed.
pub open spec fn spec_tranche_amount(total_reward: u128, params: LockParams) -> u128
    recommends
        params.wf(),
{
    spec_locked_reward(total_reward, params) / (params.divide as u128)
}

/// The unlock height of tranche `i`: the current height plus `i + 1` equal
/// steps through the vesting window, snapped down to a day boundary. The
/// additions saturate, so a height near the end of the block-number range
/// clamps instead of wrapping.
pub open spec fn spec_unlock_height(current_height: u64, i: u64, params: LockParams) -> u64
    recommends
        params.wf(),
        i < params.divide,
{
    let step = params.total_lock_period / params.divide;
    spec_snap_down(
        spec_saturating_add_u64(current_height, spec_saturating_mul_u64((i + 1) as u64, step)),
        params.day_blocks,
    )
}

/// Inserting at the tail of a schedule whose last key may equal the new key:
/// the later write overwrites the earlier entry at the same key.
pub open spec fn spec_insert_tail(s: Seq<(u64, u128)>, k: u64, v: u128) -> Seq<(u64, u128)> {
    if s.len() > 0 && s.last().0 == k {
        s.drop_last().push((k, v))
    } else {
        s.push((k, v))
    }
}

/// The schedule after inserting the first `n` tranches, each of amount `v`,
/// in tranche order with last-write-wins on colliding keys.
pub open spec fn spec_fill(current_height: u64, v: u128, params: LockParams, n: int) -> Seq<
    (u64, u128),
>
    decreases n,
{
    if n <= 0 {
        Seq::empty()
    } else {
        spec_insert_tail(
            spec_fill(current_height, v, params, n - 1),
            spec_unlock_height(current_height, (n - 1) as u64, params),
            v,
        )
    }
}

/// The full generated schedule: empty when nothing vests, otherwise all
/// `divide` tranches of the tranche amount.
pub open spec fn spec_generate(current_height: u64, total_reward: u128, params: LockParams) -> Seq<
    (u64, u128),
>
    recommends
        params.wf(),
{
    if spec_locked_reward(total_reward, params) == 0 {
        Seq::empty()
    } else {
        spec_fill(current_height, spec_tranche_amount(total_reward, params), params,
            params.divide as int)
    }
}

/// Tranche unlock heights are monotone in the tranche index.
pub proof fn lemma_unlock_height_monotone(current_height: u64, i: u64, j: u64, params: LockParams)
    requires
        params.wf(),
        i <= j,
        j < params.divide,
    ensures
        spec_unlock_height(current_height, i, params) <= spec_unlock_height(
            current_height, j, params,
        ),
{
    let step = params.total_lock_period / params.divide;
    lemma_saturating_mul_u64_monotone((i + 1) as u64, (j + 1) as u64, step);
    lemma_snap_down_monotone(
        spec_saturating_add_u64(current_height, spec_saturating_mul_u64((i + 1) as u64, step)),
        spec_saturating_add_u64(current_height, spec_saturating_mul_u64((j + 1) as u64, step)),
        params.day_blocks,
    );
}

/// Every tranche unlock height lies on a day boundary.
pub proof fn lemma_unlock_height_aligned(current_height: u64, i: u64, params: LockParams)
    requires
        params.wf(),
    ensures
        spec_unlock_height(current_height, i, params) % params.day_blocks == 0,
{
    let step = params.total_lock_period / params.divide;
    lemma_snap_down_props(
        spec_saturating_add_u64(current_height, spec_saturating_mul_u64((i + 1) as u64, step)),
        params.day_blocks,
    );
}

/// Structure of a partially filled schedule: at most one entry per tranche,
/// strictly increasing day-aligned keys, every amount equal to the tranche
/// amount, and the last key equal to the latest tranche's height.
pub proof fn lemma_fill_props(current_height: u64, v: u128, params: LockParams, n: int)
    requires
        params.wf(),
        0 <= n <= params.divide,
    ensures
        ({
            let s = spec_fill(current_height, v, params, n);
            &&& s.len() <= n
            &&& keys_strictly_increasing(s)
            &&& keys_aligned(s, params.day_blocks)
            &&& forall|idx: int| 0 <= idx < s.len() ==> (#[trigger] s[idx]).1 == v
            &&& n > 0 ==> s.len() >= 1 && s.last() == (
                spec_unlock_height(current_height, (n - 1) as u64, params),
                v,
            )
            &&& sum_amounts(s) == s.len() * v
            &&& forall|t: u64| t < n ==> s.contains(
                (#[trigger] spec_unlock_height(current_height, t, params), v),
            )
            &&& forall|idx: int| 0 <= idx < s.len() ==> exists|t: u64|
                t < n && (#[trigger] s[idx]) == (
                spec_unlock_height(current_height, t, params), v)
        }),
    decreases n,
{
    if n > 0 {
        lemma_fill_props(current_height, v, params, n - 1);
        let s0 = spec_fill(current_height, v, params, n - 1);
        let k = spec_unlock_height(current_height, (n - 1) as u64, params);
        let s = spec_fill(current_height, v, params, n);
        lemma_unlock_height_aligned(current_height, (n - 1) as u64, params);
        if n - 1 > 0 {
            lemma_unlock_height_monotone(
                current_height, (n - 2) as u64, (n - 1) as u64, params,
            );
        }
        if s0.len() > 0 && s0.last().0 == k {
            assert(s == s0.drop_last().push((k, v)));
            assert(sum_amounts(s0) == sum_amounts(s0.drop_last()) + v);
            assert(s.drop_last() =~= s0.drop_last());
            assert(sum_amounts(s) == sum_amounts(s0.drop_last()) + v);
            assert(sum_amounts(s) == s.len() * v);
        } else {
            assert(s == s0.push((k, v)));
            assert(s.drop_last() =~= s0);
            assert(sum_amounts(s) == sum_amounts(s0) + v);
            assert(s.len() == s0.len() + 1);
            assert((s0.len() + 1) * v == s0.len() * v + v) by (nonlinear_arith);
            if s0.len() > 0 {
                assert(s0.last().0 < k);
            }
        }
        assert(s.last() == (k, v));
        assert forall|t: u64| t < n implies s.contains(
            (#[trigger] spec_unlock_height(current_height, t, params), v),
        ) by {
            let h = spec_unlock_height(current_height, t, params);
            if t == n - 1 {
                assert(s[s.len() - 1] == (h, v));
            } else {
                assert(s0.contains((h, v)));
                let idx = choose|idx: int| 0 <= idx < s0.len() && s0[idx] == (h, v);
                if s0.len() > 0 && s0.last().0 == k {
                    if idx < s0.len() - 1 {
                        assert(s[idx] == s0[idx]);
                    } else {
                        assert(s0[idx] == s0.last());
                        assert(h == k);
                        assert(s[s.len() - 1] == (h, v));
                    }
                } else {
                    assert(s[idx] == s0[idx]);
                }
            }
        }
        assert forall|idx: int| 0 <= idx < s.len() implies exists|t: u64|
            t < n && (#[trigger] s[idx]) == (spec_unlock_height(current_height, t, params), v) by {
            if idx == s.len() - 1 {
                let t0 = (n - 1) as u64;
                assert(t0 < n && s[idx] == (spec_unlock_height(current_height, t0, params), v));
            } else {
                if s0.len() > 0 && s0.last().0 == k {
                    assert(s[idx] == s0[idx]);
                } else {
                    assert(s[idx] == s0[idx]);
                }
                let t0 = choose|t: u64|
                    t < n - 1 && s0[idx] == (spec_unlock_height(current_height, t, params), v);
                assert(t0 < n && s[idx] == (spec_unlock_height(current_height, t0, params), v));
            }
        }
    }
}

/// What the generated schedule holds, stated without reference to the
/// insertion order: when anything vests, the entries are exactly the
/// snapped tranche unlock heights, each carrying the tranche amount.
pub proof fn lemma_generate_keys(current_height: u64, total_reward: u128, params: LockParams)
    requires
        params.wf(),
    ensures
        ({
            let s = spec_generate(current_height, total_reward, params);
            let v = spec_tranche_amount(total_reward, params);
            &&& spec_locked_reward(total_reward, params) > 0 ==> forall|t: u64|
                t < params.divide ==> s.contains(
                    (#[trigger] spec_unlock_height(current_height, t, params), v),
                )
            &&& forall|idx: int| 0 <= idx < s.len() ==> exists|t: u64|
                t < params.divide && (#[trigger] s[idx]) == (
                spec_unlock_height(current_height, t, params), v)
        }),
{
    if spec_locked_reward(total_reward, params) > 0 {
        lemma_fill_props(
            current_height,
            spec_tranche_amount(total_reward, params),
            params,
            params.divide as int,
        );
    }
}

/// Generates the vesting schedule for a reward earned at `current_height`.
///
/// An `immediate` amount is left spendable; the rest, if any, is divided
/// into `divide` equal tranches unlocking at day-aligned heights spread over
/// the vesting window. When two tranches snap to the same day boundary the
/// later write overwrites the earlier entry. The division's remainder is not
/// redistributed, so at most `total_reward` is ever locked.
pub fn generate(current_height: u64, total_reward: u128, params: &LockParams) -> (r: LockSchedule)
    requires
        params.wf(),
    ensures
        r@ == spec_generate(current_height, total_reward, *params),
        r.wf(),
        keys_aligned(r@, params.day_blocks),
        r@.len() <= params.divide,
        r@.len() <= params.max_locks,
        sum_amounts(r@) <= spec_locked_reward(total_reward, *params),
        sum_amounts(r@) <= total_reward,
        forall|idx: int| 0 <= idx < r@.len() ==> (#[trigger] r@[idx]).1 == spec_tranche_amount(
            total_reward, *params,
        ),
        total_reward <= params.immediate ==> r@.len() == 0,
{
    let locked = total_reward.saturating_sub(params.immediate);
    let mut entries: Vec<(u64, u128)> = Vec::new();
    if locked > 0 {
        let tranche = locked / (params.divide as u128);
        let step = params.total_lock_period / params.divide;
        let mut i: u64 = 0;
        while i < params.divide
            invariant
                params.wf(),
                i <= params.divide,
                locked == spec_locked_reward(total_reward, *params),
                locked > 0,
                tranche == spec_tranche_amount(total_reward, *params),
                step == params.total_lock_period / params.divide,
                entries@ == spec_fill(current_height, tranche, *params, i as int),
            decreases params.divide - i,
        {
            let est = current_height.saturating_add(saturating_mul_u64(i + 1, step));
            let actual = snap_down(est, params.day_blocks);
            assert(actual == spec_unlock_height(current_height, i, *params));
            let n = entries.len();
            if n > 0 && entries[n - 1].0 == actual {
                entries.pop();
            }
            entries.push((actual, tranche));
            assert(entries@ =~= spec_fill(current_height, tranche, *params, i + 1));
            i = i + 1;
        }
        proof {
            lemma_fill_props(current_height, tranche, *params, params.divide as int);
            lemma_sum_bounded(total_reward, tranche, entries@.len() as int, *params);
        }
    }
    proof {
        if locked == 0 {
            assert(entries@ =~= Seq::<(u64, u128)>::empty());
        }
    }
    LockSchedule { entries }
}

/// With at most `divide` entries of one tranche amount each, the schedule's
/// sum stays within the locked reward.
proof fn lemma_sum_bounded(total_reward: u128, tranche: u128, len: int, params: LockParams)
    requires
        params.wf(),
        0 <= len <= params.divide,
        tranche == spec_tranche_amount(total_reward, params),
    ensures
        len * tranche <= spec_locked_reward(total_reward, params),
{
    let locked = spec_locked_reward(total_reward, params) as int;
    let d = params.divide as int;
    assert(len * (locked / d) <= d * (locked / d) <= locked) by (nonlinear_arith)
        requires 0 <= len <= d && locked >= 0 && d >= 1,
    ;
}

/// The generator is deterministic, hence idempotent: any two schedules
/// generated from the same height, reward and parameters are equal.
pub proof fn lemma_generate_deterministic(
    a: LockSchedule,
    b: LockSchedule,
    current_height: u64,
    total_reward: u128,
    params: LockParams,
)
    requires
        a@ == spec_generate(current_height, total_reward, params),
        b@ == spec_generate(current_height, total_reward, params),
    ensures
        a@ == b@,
{
}

/// The pluggable vesting policy: how a reward earned at a height becomes a
/// lock schedule, and the ceiling on outstanding lock entries per account.
/// An alternative policy substitutes here without touching the orchestrator.
pub trait LockPolicy {
    /// The schedule the policy produces, as a function of the inputs alone.
    spec fn spec_locks(current_height: u64, total_reward: u128) -> Seq<(u64, u128)>;

    /// The entry-count ceiling the policy promises to stay under.
    spec fn spec_max_locks() -> u32;

    /// Vests `total_reward` earned at `current_block` into a schedule of
    /// future unlock events; never locks more than the reward.
    fn generate_reward_locks(current_block: u64, total_reward: u128) -> (r: LockSchedule)
        ensures
            r@ == Self::spec_locks(current_block, total_reward),
            r.wf(),
            sum_amounts(r@) <= total_reward,
            r@.len() <= Self::spec_max_locks(),
    ;

    /// Ceiling on simultaneously outstanding lock entries for one account.
    fn max_locks() -> (r: u32)
        ensures
            r == Self::spec_max_locks(),
            r >= 1,
    ;
}

/// The chain's concrete vesting policy, fixed to the default parameters.
pub struct GenerateRewardLocks;

impl LockPolicy for GenerateRewardLocks {
    /// The default-parameter schedule: one unit spendable at once, the rest
    /// in ten equal tranches over a hundred days.
    open spec fn spec_locks(current_height: u64, total_reward: u128) -> Seq<(u64, u128)> {
        spec_generate(current_height, total_reward, spec_chain_default_params())
    }

    /// Max locks when one tranche unlocks every day across the whole
    /// vesting window.
    open spec fn spec_max_locks() -> u32 {
        100
    }

    fn generate_reward_locks(current_block: u64, total_reward: u128) -> (r: LockSchedule) {
        let params = LockParams::chain_default();
        generate(current_block, total_reward, &params)
    }

    fn max_locks() -> (r: u32) {
        100
    }
}

} // verus!
