use meta_pool::ledger::{Account, GlobalLedger, LedgerError};
use meta_pool::types::DEFAULT_OWNER_FEE_BASIS_POINTS;
use meta_pool::views::{trip_rewards, TripMeter};

fn ledger(fee: u16) -> GlobalLedger {
    GlobalLedger::new(fee).ok().unwrap()
}

#[test]
fn stake_rewards_unstake_scenario() {
    let mut l = ledger(DEFAULT_OWNER_FEE_BASIS_POINTS);
    let mut user = Account::new();
    let mut owner = Account::new();
    assert_eq!(l.stake(&mut user, 1000), Ok(1000));
    assert_eq!(l.total_for_staking, 1000);
    assert_eq!(l.total_stake_shares, 1000);
    assert_eq!(l.report_rewards(&mut owner, 100), Ok(0));
    assert_eq!(l.total_for_staking, 1100);
    assert_eq!(l.total_stake_shares, 1000);
    assert_eq!(l.accumulated_staked_rewards, 100);
    assert_eq!(l.unstake(&mut user, 1000, 7), Ok(1100));
    assert_eq!(l.total_for_staking, 0);
    assert_eq!(l.total_stake_shares, 0);
    assert_eq!(l.total_for_unstaking, 1100);
    assert_eq!(user.unstaked, 1100);
    assert_eq!(user.stake_shares, 0);
    assert_eq!(user.unstaked_requested_epoch_height, 7);
}

#[test]
fn stake_then_unstake_returns_the_amount() {
    for a in [1u128, 2, 999, 1_000_000, u128::MAX / 2] {
        let mut l = ledger(0);
        let mut user = Account::new();
        let shares = l.stake(&mut user, a).ok().unwrap();
        assert_eq!(l.unstake(&mut user, shares, 1), Ok(a));
    }
    let mut l = ledger(0);
    let mut first = Account::new();
    let mut second = Account::new();
    l.stake(&mut first, 500).ok().unwrap();
    let shares = l.stake(&mut second, 321).ok().unwrap();
    assert_eq!(shares, 321);
    assert_eq!(l.unstake(&mut second, shares, 1), Ok(321));
}

#[test]
fn stake_at_higher_price_mints_fewer_shares() {
    let mut l = ledger(0);
    let mut a = Account::new();
    let mut b = Account::new();
    let mut owner = Account::new();
    l.stake(&mut a, 1000).ok().unwrap();
    l.report_rewards(&mut owner, 1000).ok().unwrap();
    assert_eq!(l.stake(&mut b, 500), Ok(250));
    assert_eq!(l.total_for_staking, 2500);
    assert_eq!(l.total_stake_shares, 1250);
    assert_eq!(l.unstake(&mut a, 1000, 3), Ok(2000));
}

#[test]
fn share_price_never_falls_with_rewards() {
    let mut l = ledger(1000);
    let mut user = Account::new();
    let mut owner = Account::new();
    l.stake(&mut user, 3333).ok().unwrap();
    let mut prev = (l.total_for_staking, l.total_stake_shares);
    for delta in [0u128, 1, 7, 100, 12345, 3] {
        l.report_rewards(&mut owner, delta).ok().unwrap();
        let now = (l.total_for_staking, l.total_stake_shares);
        assert!(now.0 * prev.1 >= prev.0 * now.1);
        prev = now;
    }
}

#[test]
fn owner_fee_is_minted_as_shares_worth_the_fee() {
    let mut l = ledger(1000);
    let mut user = Account::new();
    let mut owner = Account::new();
    l.stake(&mut user, 1000).ok().unwrap();
    // fee 10, minted at 1000 shares per 1090 units of value not paid as fee
    assert_eq!(l.report_rewards(&mut owner, 100), Ok(9));
    assert_eq!(owner.stake_shares, 9);
    assert_eq!(l.total_stake_shares, 1009);
    assert_eq!(l.total_for_staking, 1100);
    assert_eq!(l.unstake(&mut owner, 9, 1), Ok(9));
}

#[test]
fn unstake_more_than_owned_is_refused() {
    let mut l = ledger(0);
    let mut a = Account::new();
    let mut b = Account::new();
    l.stake(&mut a, 10).ok().unwrap();
    l.stake(&mut b, 10).ok().unwrap();
    assert_eq!(l.unstake(&mut a, 11, 1), Err(LedgerError::NotEnoughShares));
    assert_eq!(a.stake_shares, 10);
    assert_eq!(l.total_stake_shares, 20);
    assert_eq!(l.total_for_unstaking, 0);
}

#[test]
fn overflowing_stake_is_refused_without_change() {
    let mut l = ledger(0);
    let mut a = Account::new();
    l.stake(&mut a, u128::MAX).ok().unwrap();
    assert_eq!(l.stake(&mut a, 1), Err(LedgerError::Overflow));
    assert_eq!(l.total_for_staking, u128::MAX);
    assert_eq!(a.stake_shares, u128::MAX);
    let mut owner = Account::new();
    assert_eq!(l.report_rewards(&mut owner, 1), Err(LedgerError::Overflow));
}

#[test]
fn fee_above_whole_is_refused() {
    assert!(matches!(GlobalLedger::new(10_001), Err(LedgerError::FeeTooHigh)));
    assert!(GlobalLedger::new(10_000).is_ok());
}

#[test]
fn share_value_and_views() {
    let mut l = ledger(0);
    let mut a = Account::new();
    let mut owner = Account::new();
    l.stake(&mut a, 200).ok().unwrap();
    l.report_rewards(&mut owner, 100).ok().unwrap();
    assert_eq!(l.value_of_shares(100), 150);
    l.unstake(&mut a, 100, 10).ok().unwrap();
    let h = l.human_readable_account(String::from("alice"), &a, 13);
    assert_eq!(h.account_id, "alice");
    assert_eq!(h.unstaked_balance, 150);
    assert_eq!(h.staked_balance, 150);
    assert!(!h.can_withdraw);
    assert!(l.human_readable_account(String::from("alice"), &a, 14).can_withdraw);
    let c = l.contract_info(String::from("owner"), 5);
    assert_eq!(c.total_for_staking, 150);
    assert_eq!(c.total_stake_shares, 100);
    assert_eq!(c.total_for_unstaking, 150);
    assert_eq!(c.accumulated_staked_rewards, 100);
    assert_eq!(c.total_available, 5);
}

#[test]
fn trip_rewards_formula() {
    assert_eq!(trip_rewards(1100, 0, 1000, 0), Some(100));
    assert_eq!(trip_rewards(500, 100, 1000, 700), Some(100));
    assert_eq!(trip_rewards(10, 100, 0, 0), Some(0));
    assert_eq!(trip_rewards(u128::MAX, 0, 0, 1), None);
    assert_eq!(trip_rewards(u128::MAX, 1, 0, 1), Some(u128::MAX));
}

#[test]
fn account_info_derives_its_fields() {
    let mut l = ledger(0);
    let mut a = Account::new();
    let mut owner = Account::new();
    l.stake(&mut a, 1000).ok().unwrap();
    l.report_rewards(&mut owner, 100).ok().unwrap();
    l.unstake(&mut a, 100, 20).ok().unwrap();
    let trip = TripMeter { trip_start: 5, trip_start_skash: 0, trip_accum_stakes: 1000, trip_accum_unstakes: 110 };
    let info = l.account_info(String::from("bob"), &a, 7, &trip, 23).unwrap();
    assert_eq!(info.skash, 990);
    assert_eq!(info.unstaked, 110);
    assert_eq!(info.total, 7 + 990 + 110);
    assert_eq!(info.trip_rewards, 100);
    assert_eq!(info.unstaked_requested_epoch_height, 20);
    assert!(!info.can_withdraw);
    assert!(l.account_info(String::from("bob"), &a, u128::MAX, &trip, 24).is_none());
}
