use meta_pool::ledger::{Account, GlobalLedger};
use meta_pool::vesting::{VestingError, VestingRecord};

fn grant() -> VestingRecord {
    VestingRecord::new(1000, 100, 100, 200)
}

#[test]
fn locked_halfway_through_linear_release() {
    assert_eq!(grant().compute_amount_locked(150), 500);
}

#[test]
fn fully_locked_before_start() {
    let r = grant();
    assert_eq!(r.compute_amount_locked(0), 1000);
    assert_eq!(r.compute_amount_locked(99), 1000);
    assert_eq!(r.compute_amount_locked(100), 1000);
}

#[test]
fn locked_until_takes_precedence_over_linear_release() {
    let r = VestingRecord::new(1000, 150, 100, 200);
    assert_eq!(r.compute_amount_locked(120), 1000);
    assert_eq!(r.compute_amount_locked(149), 1000);
    assert_eq!(r.compute_amount_locked(150), 500);
    assert_eq!(r.compute_amount_locked(175), 250);
}

#[test]
fn nothing_locked_at_or_after_end() {
    let r = grant();
    assert_eq!(r.compute_amount_locked(200), 0);
    assert_eq!(r.compute_amount_locked(u64::MAX), 0);
}

#[test]
fn locked_amount_never_increases() {
    let r = VestingRecord::new(999, 130, 100, 200);
    let mut prev = u128::MAX;
    for t in 0..260u64 {
        let v = r.compute_amount_locked(t);
        assert!(v <= prev);
        assert!(v <= 999);
        prev = v;
    }
    assert_eq!(r.compute_amount_locked(199), 9);
}

#[test]
fn linear_release_rounds_down() {
    let r = VestingRecord::new(10, 0, 0, 3);
    assert_eq!(r.compute_amount_locked(1), 6);
    assert_eq!(r.compute_amount_locked(2), 3);
}

#[test]
fn large_amount_does_not_overflow() {
    let r = VestingRecord::new(u128::MAX, 0, 0, u64::MAX);
    assert_eq!(r.compute_amount_locked(1 << 63), ((1u128 << 64) + 1) * ((1u128 << 63) - 1));
}

#[test]
fn start_equal_to_end_releases_at_once() {
    let r = VestingRecord::new(5, 10, 20, 20);
    assert_eq!(r.compute_amount_locked(19), 5);
    assert_eq!(r.compute_amount_locked(20), 0);
}

#[test]
fn check_rejects_each_invalid_grant() {
    assert_eq!(VestingRecord::check(0, 1, 1, 2), Err(VestingError::ZeroAmount));
    assert_eq!(VestingRecord::check(1, 1, 3, 2), Err(VestingError::StartAfterEnd));
    assert_eq!(VestingRecord::check(1, 2, 1, 2), Err(VestingError::LockedUntilNotBeforeEnd));
    assert_eq!(VestingRecord::check(1, 1, 1, 2), Ok(()));
}

#[test]
fn new_keeps_fields() {
    let r = VestingRecord::new(7, 1, 2, 3);
    assert_eq!(r.amount, 7);
    assert_eq!(r.locked_until_timestamp, 1);
    assert_eq!(r.linear_start_timestamp, 2);
    assert_eq!(r.linear_end_timestamp, 3);
    let j = r.to_json();
    assert_eq!((j.amount, j.locked_until_timestamp, j.linear_start_timestamp, j.linear_end_timestamp), (7, 1, 2, 3));
}

#[test]
fn vesting_caps_what_may_be_withdrawn() {
    let mut a = Account::new();
    a.unstaked = 800;
    a.unstaked_requested_epoch_height = 10;
    let grant = Some(VestingRecord::new(1000, 100, 100, 200));
    assert_eq!(a.withdrawable(&grant, 150, 13), 0);
    assert_eq!(a.withdrawable(&grant, 150, 14), 300);
    assert_eq!(a.withdrawable(&grant, 50, 14), 0);
    assert_eq!(a.withdrawable(&grant, 200, 14), 800);
    assert_eq!(a.withdrawable(&None, 0, 14), 800);
}

#[test]
fn reward_fee_fraction_in_basis_points() {
    let l = GlobalLedger::new(50).ok().unwrap();
    let f = l.reward_fee_fraction();
    assert_eq!((f.numerator, f.denominator), (50, 10_000));
}
