use meta_pool::batch::{next_movement, plan_batches};
use meta_pool::diversifier::{DiversifierError, PoolSet};
use meta_pool::types::{MAX_NEARS_SINGLE_MOVEMENT, NEARS_PER_BATCH, ONE_NEAR};
use meta_pool::unlock::is_withdrawable;
use meta_pool::ledger::Account;

#[test]
fn batches_cover_the_amount() {
    assert_eq!(plan_batches(250, 100), vec![100, 100, 50]);
    assert_eq!(plan_batches(300, 100), vec![100, 100, 100]);
    assert_eq!(plan_batches(7, 100), vec![7]);
    assert_eq!(plan_batches(0, 100), Vec::<u128>::new());
    for (a, c) in [(1u128, 1u128), (1000, 7), (99, 100), (101, 100)] {
        let v = plan_batches(a, c);
        assert_eq!(v.iter().sum::<u128>(), a);
        assert!(v.iter().all(|&x| x > 0 && x <= c));
    }
}

#[test]
fn movement_split_above_one_and_a_half_batches() {
    assert_eq!(next_movement(151_000 * ONE_NEAR), NEARS_PER_BATCH);
    assert_eq!(next_movement(MAX_NEARS_SINGLE_MOVEMENT), 150_000 * ONE_NEAR);
    assert_eq!(next_movement(51_000 * ONE_NEAR), 51_000 * ONE_NEAR);
}

#[test]
fn unlock_after_four_epochs() {
    for e in 0..14u64 {
        assert!(!is_withdrawable(10, e));
    }
    for e in 14..40u64 {
        assert!(is_withdrawable(10, e));
    }
    assert!(!is_withdrawable(10, 13));
    assert!(is_withdrawable(10, 14));
    assert!(is_withdrawable(10, 100));
    assert!(!is_withdrawable(10, 9));
    assert!(!is_withdrawable(u64::MAX, u64::MAX));
}

#[test]
fn second_request_resets_the_wait() {
    let mut a = Account::new();
    a.unstaked_requested_epoch_height = 10;
    assert!(a.can_withdraw(14));
    a.unstaked_requested_epoch_height = 12;
    assert!(!a.can_withdraw(14));
    assert!(!a.can_withdraw(15));
    assert!(a.can_withdraw(16));
}

fn three_pools() -> PoolSet {
    let mut s = PoolSet::new();
    s.add_pool(String::from("a"), 5000).ok().unwrap();
    s.add_pool(String::from("b"), 3000).ok().unwrap();
    s.add_pool(String::from("c"), 2000).ok().unwrap();
    s
}

#[test]
fn weights_cannot_exceed_whole() {
    let mut s = three_pools();
    assert_eq!(s.weight_total(), 10_000);
    assert_eq!(s.add_pool(String::from("d"), 1), Err(DiversifierError::WeightsAboveTotal));
    assert_eq!(s.len(), 3);
    assert_eq!(s.set_weight(1, 3001), Err(DiversifierError::WeightsAboveTotal));
    assert_eq!(s.set_weight(1, 1000), Ok(()));
    assert_eq!(s.weight_total(), 8000);
    assert_eq!(s.add_pool(String::from("d"), 2000), Ok(()));
    assert_eq!(s.weight_total(), 10_000);
    assert_eq!(s.set_weight(9, 0), Err(DiversifierError::NoSuchPool));
}

#[test]
fn stake_goes_to_most_under_allocated_pool() {
    let mut s = three_pools();
    assert_eq!(s.choose_stake_pool(0), None);
    assert_eq!(s.choose_stake_pool(1000), Some(0));
    s.record_stake(0, 600).ok().unwrap();
    s.record_stake(1, 100).ok().unwrap();
    // deviations at total 1000: a = 5000000 - 6000000, b = 3000000 - 1000000, c = 2000000;
    // b and c tie and the lower index wins
    assert_eq!(s.choose_stake_pool(1000), Some(1));
    s.record_stake(1, 100).ok().unwrap();
    assert_eq!(s.choose_stake_pool(1000), Some(2));
    s.set_weight(2, 0).ok().unwrap();
    assert_eq!(s.choose_stake_pool(1000), Some(1));
}

#[test]
fn unstake_comes_from_most_over_allocated_pool() {
    let mut s = three_pools();
    assert_eq!(s.choose_unstake_pool(0), None);
    s.record_stake(0, 500).ok().unwrap();
    s.record_stake(1, 400).ok().unwrap();
    s.record_stake(2, 100).ok().unwrap();
    assert_eq!(s.choose_unstake_pool(1000), Some(1));
    assert_eq!(s.record_unstake(1, 1000, 42), Ok(400));
    let b = s.get(1);
    assert_eq!((b.staked, b.unstaked, b.unstaked_requested_epoch_height), (0, 400, 42));
    assert_eq!(s.choose_unstake_pool(600), Some(0));
    assert_eq!(s.record_unstake(0, 100, 43), Ok(100));
    assert_eq!(s.get(0).info().staked, 400);
    assert_eq!(s.record_unstake(5, 1, 1), Err(DiversifierError::NoSuchPool));
}

#[test]
fn huge_balances_compare_without_overflow() {
    let mut s = PoolSet::new();
    s.add_pool(String::from("a"), 10_000).ok().unwrap();
    s.add_pool(String::from("b"), 0).ok().unwrap();
    s.record_stake(1, u128::MAX).ok().unwrap();
    assert_eq!(s.choose_stake_pool(u128::MAX), Some(0));
    assert_eq!(s.choose_unstake_pool(u128::MAX), Some(1));
    assert_eq!(s.record_stake(1, 1), Err(DiversifierError::Overflow));
}

#[test]
fn unstake_cascades_to_next_over_allocated_pool() {
    let mut s = three_pools();
    s.record_stake(0, 500).ok().unwrap();
    s.record_stake(1, 400).ok().unwrap();
    s.record_stake(2, 100).ok().unwrap();
    // b is the most over-allocated, then a
    assert_eq!(s.unstake_cascade(1000, 600, 9), Ok(600));
    assert_eq!(s.get(1).staked, 0);
    assert_eq!(s.get(1).unstaked, 400);
    assert_eq!(s.get(0).staked, 300);
    assert_eq!(s.get(0).unstaked_requested_epoch_height, 9);
    assert_eq!(s.get(2).staked, 100);
    assert_eq!(s.unstake_cascade(400, 1000, 10), Ok(400));
    for i in 0..3 {
        assert_eq!(s.get(i).staked, 0);
    }
    assert_eq!(s.unstake_cascade(0, 5, 11), Ok(0));
}

#[test]
fn unstake_cascade_refused_when_a_pool_could_overflow() {
    let mut s = PoolSet::new();
    s.add_pool(String::from("a"), 100).ok().unwrap();
    s.record_stake(0, u128::MAX).ok().unwrap();
    s.record_unstake(0, 1, 1).ok().unwrap();
    s.record_stake(0, 1).ok().unwrap();
    assert_eq!(s.unstake_cascade(1, 1, 2), Err(DiversifierError::Overflow));
    assert_eq!(s.get(0).staked, u128::MAX);
}
