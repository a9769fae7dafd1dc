use rewards::AccountLockState;
use rewards::GenerateRewardLocks;
use rewards::LedgerOp;
use rewards::LockParams;
use rewards::LockPolicy;
use rewards::LockSchedule;
use rewards::RewardConfig;
use rewards::RewardCurve;
use rewards::TaxRate;
use rewards::orchestrator::REWARDS_LOCK_ID;
use rewards::orchestrator::process_block;
use rewards::schedule::generate;

fn entries_of(s: &LockSchedule) -> Vec<(u64, u128)> {
    let mut out = Vec::new();
    let mut i = 0;
    while i < s.len() {
        out.push(s.get(i));
        i += 1;
    }
    out
}

fn state_entries(s: &AccountLockState) -> Vec<(u64, u128)> {
    let mut out = Vec::new();
    let mut i = 0;
    while i < s.len() {
        out.push(s.get(i));
        i += 1;
    }
    out
}

#[test]
fn scenario_default_vesting_schedule() {
    // reward 60 at height 1: 1 immediate, 59 locked, tranches of 5,
    // remainder 9 dropped, unlocks every ten blocks for a hundred blocks.
    let s = GenerateRewardLocks::generate_reward_locks(1, 60);
    let expected: Vec<(u64, u128)> = vec![
        (11, 5),
        (21, 5),
        (31, 5),
        (41, 5),
        (51, 5),
        (61, 5),
        (71, 5),
        (81, 5),
        (91, 5),
        (101, 5),
    ];
    assert_eq!(entries_of(&s), expected);
    let total: u128 = entries_of(&s).iter().map(|e| e.1).sum();
    assert_eq!(total, 50);
}

#[test]
fn zero_reward_yields_empty_schedule() {
    let s = GenerateRewardLocks::generate_reward_locks(1, 0);
    assert!(s.is_empty());
}

#[test]
fn reward_equal_to_immediate_yields_empty_schedule() {
    let s = GenerateRewardLocks::generate_reward_locks(1, 1);
    assert!(s.is_empty());
    assert_eq!(s.len(), 0);
}

#[test]
fn generate_is_idempotent() {
    let a = GenerateRewardLocks::generate_reward_locks(7, 1234);
    let b = GenerateRewardLocks::generate_reward_locks(7, 1234);
    assert_eq!(entries_of(&a), entries_of(&b));
}

#[test]
fn schedule_sum_never_exceeds_reward() {
    for total in [0u128, 1, 2, 9, 10, 11, 59, 60, 61, 1_000_003, u128::MAX] {
        let s = GenerateRewardLocks::generate_reward_locks(1, total);
        let mut sum: u128 = 0;
        for e in entries_of(&s) {
            sum = sum.checked_add(e.1).expect("schedule sum overflowed");
        }
        assert!(sum <= total);
    }
}

#[test]
fn schedule_len_bounded_by_divide_and_max_locks() {
    for total in [0u128, 5, 60, 10_000] {
        let s = GenerateRewardLocks::generate_reward_locks(1, total);
        assert!(s.len() <= 10);
        assert!(s.len() <= GenerateRewardLocks::max_locks() as usize);
    }
}

#[test]
fn schedule_keys_strictly_increasing_and_day_aligned() {
    let params = LockParams {
        immediate: 1,
        divide: 8,
        total_lock_period: 200,
        day_blocks: 25,
        max_locks: 16,
    };
    assert!(params.check());
    let s = generate(123, 5_000, &params);
    let entries = entries_of(&s);
    assert!(!entries.is_empty());
    for w in entries.windows(2) {
        assert!(w[0].0 < w[1].0);
    }
    for e in &entries {
        assert_eq!(e.0 % 25, 0);
    }
}

#[test]
fn colliding_tranches_overwrite_at_the_snapped_height() {
    // step 1, day length 10: tranche heights 2..=11 snap onto {0, 10}.
    let params = LockParams {
        immediate: 1,
        divide: 10,
        total_lock_period: 10,
        day_blocks: 10,
        max_locks: 10,
    };
    assert!(params.check());
    let s = generate(1, 101, &params);
    assert_eq!(entries_of(&s), vec![(0, 10), (10, 10)]);
}

#[test]
fn max_locks_is_one_per_day_of_the_window() {
    assert_eq!(GenerateRewardLocks::max_locks(), 100);
}

#[test]
fn split_hundred_at_ten_percent() {
    let rate = TaxRate::from_percent(10).unwrap();
    let (miner, donation) = rewards::taxation::split(100, rate);
    assert_eq!((miner, donation), (90, 10));
}

#[test]
fn split_preserves_total() {
    let cases = [
        (0u128, 10u32),
        (1, 10),
        (99, 33),
        (100, 0),
        (100, 100),
        (12_345_678_901_234_567_890, 37),
        (u128::MAX, 50),
    ];
    for (total, percent) in cases {
        let rate = TaxRate::from_percent(percent).unwrap();
        let (miner, donation) = rewards::taxation::split(total, rate);
        assert_eq!(miner + donation, total);
        if percent == 0 {
            assert_eq!(donation, 0);
        }
        if percent == 100 {
            assert_eq!(miner, 0);
        }
    }
}

#[test]
fn tax_rate_rejects_more_than_one_whole() {
    assert!(TaxRate::from_percent(101).is_none());
    assert!(TaxRate::from_parts(1_000_000_001).is_none());
    assert_eq!(TaxRate::from_parts(250_000_000).unwrap().parts(), 250_000_000);
}

#[test]
fn empty_curve_uses_the_fallback_reward() {
    let curve = RewardCurve::empty();
    assert_eq!(curve.evaluate(0, 60), 60);
    assert_eq!(curve.evaluate(u64::MAX, 60), 60);
}

#[test]
fn curve_picks_the_latest_breakpoint_at_or_before_the_height() {
    let curve = RewardCurve::new(vec![(10, 100), (20, 50)]).unwrap();
    assert_eq!(curve.evaluate(5, 60), 60);
    assert_eq!(curve.evaluate(10, 60), 100);
    assert_eq!(curve.evaluate(15, 60), 100);
    assert_eq!(curve.evaluate(20, 60), 50);
    assert_eq!(curve.evaluate(1_000_000, 60), 50);
}

#[test]
fn curve_rejects_decreasing_heights() {
    assert!(RewardCurve::new(vec![(20, 50), (10, 100)]).is_none());
    assert!(RewardCurve::new(vec![(10, 100), (10, 80)]).is_some());
}

#[test]
fn apply_drops_expired_entries() {
    let state = AccountLockState::from_entries(vec![(5, 10), (20, 10)]).unwrap();
    let empty_schedule = GenerateRewardLocks::generate_reward_locks(10, 0);
    let (new_state, locked) = rewards::applier::apply(&state, &empty_schedule, 10, 100);
    assert_eq!(state_entries(&new_state), vec![(20, 10)]);
    assert_eq!(locked, 10);
}

#[test]
fn apply_adds_amounts_meeting_at_an_equal_height() {
    // one tranche of 7 unlocking at height 30
    let params = LockParams {
        immediate: 0,
        divide: 1,
        total_lock_period: 20,
        day_blocks: 1,
        max_locks: 5,
    };
    let schedule = generate(10, 7, &params);
    assert_eq!(entries_of(&schedule), vec![(30, 7)]);
    let state = AccountLockState::from_entries(vec![(30, 7)]).unwrap();
    let (new_state, locked) = rewards::applier::apply(&state, &schedule, 10, 5);
    assert_eq!(state_entries(&new_state), vec![(30, 14)]);
    assert_eq!(locked, 14);
}

#[test]
fn apply_consolidates_the_earliest_entries_when_over_the_bound() {
    let state = AccountLockState::from_entries(vec![(11, 1), (21, 1), (31, 1)]).unwrap();
    let empty_schedule = GenerateRewardLocks::generate_reward_locks(0, 0);
    let (new_state, locked) = rewards::applier::apply(&state, &empty_schedule, 0, 2);
    assert_eq!(state_entries(&new_state), vec![(21, 2), (31, 1)]);
    assert_eq!(locked, 3);
}

#[test]
fn account_state_rejects_unordered_entries() {
    assert!(AccountLockState::from_entries(vec![(20, 1), (10, 1)]).is_none());
    assert!(AccountLockState::from_entries(vec![(10, 1), (10, 1)]).is_none());
    assert!(AccountLockState::from_entries(vec![]).is_some());
}

#[test]
fn process_block_at_genesis_configuration() {
    // reward 60, taxation 10%, empty curve, donation destination 255
    let config = RewardConfig {
        reward: 60,
        taxation: TaxRate::from_percent(10).unwrap(),
        curve: RewardCurve::empty(),
        donation_destination: 255,
        lock_params: LockParams::chain_default(),
    };
    assert!(config.check());
    let author = 42;
    let locks = AccountLockState::empty();
    let outcome = process_block(&config, author, 1, &locks);
    assert_eq!(outcome.reward, 60);
    assert_eq!(outcome.donation_amount, 6);
    assert_eq!(outcome.miner_amount, 54);
    // miner share 54: 1 immediate, 53 locked, tranches of 5
    let expected_schedule: Vec<(u64, u128)> = vec![
        (11, 5),
        (21, 5),
        (31, 5),
        (41, 5),
        (51, 5),
        (61, 5),
        (71, 5),
        (81, 5),
        (91, 5),
        (101, 5),
    ];
    assert_eq!(entries_of(&outcome.schedule), expected_schedule);
    assert_eq!(state_entries(&outcome.new_locks), expected_schedule);
    assert_eq!(outcome.lock_amount, 50);
    assert_eq!(outcome.event.author, author);
    assert_eq!(outcome.event.miner_amount, 54);
    assert_eq!(outcome.event.donation_amount, 6);
    assert_eq!(
        outcome.ops,
        vec![
            LedgerOp::Mint { account: 255, amount: 6 },
            LedgerOp::Mint { account: author, amount: 54 },
            LedgerOp::SetLock { lock_id: REWARDS_LOCK_ID, account: author, amount: 50 },
        ]
    );
}

#[test]
fn process_block_with_injected_policy_matches_the_default() {
    let config = RewardConfig {
        reward: 60,
        taxation: TaxRate::from_percent(10).unwrap(),
        curve: RewardCurve::empty(),
        donation_destination: 255,
        lock_params: LockParams::chain_default(),
    };
    let locks = AccountLockState::empty();
    let a = process_block(&config, 9, 1, &locks);
    let b = rewards::orchestrator::process_block_with::<GenerateRewardLocks>(&config, 9, 1, &locks);
    assert_eq!(a.miner_amount, b.miner_amount);
    assert_eq!(a.donation_amount, b.donation_amount);
    assert_eq!(entries_of(&a.schedule), entries_of(&b.schedule));
    assert_eq!(a.lock_amount, b.lock_amount);
    assert_eq!(a.ops, b.ops);
}

#[test]
fn process_block_keeps_the_lock_count_bounded_over_many_blocks() {
    let config = RewardConfig {
        reward: 60,
        taxation: TaxRate::from_percent(10).unwrap(),
        curve: RewardCurve::empty(),
        donation_destination: 255,
        lock_params: LockParams::chain_default(),
    };
    let mut locks = AccountLockState::empty();
    let mut height = 1;
    for _ in 0..300 {
        let outcome = process_block(&config, 7, height, &locks);
        locks = outcome.new_locks;
        assert!(locks.len() <= 100);
        height += 1;
    }
}
