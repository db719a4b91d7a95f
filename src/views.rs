use crate::diversifier::SubPool;
use crate::ledger::{Account, GlobalLedger, amount_for};
use crate::unlock::{is_withdrawable, withdrawable_at};
use crate::vesting::VestingRecord;
use crate::types::{BASIS_POINTS, EpochHeight, RewardFeeFraction};
use vstd::prelude::*;

verus! {

/// A vesting schedule as shown to callers.
pub struct VestingRecordJSON {
    pub amount: u128,
    pub locked_until_timestamp: u64,
    pub linear_start_timestamp: u64,
    pub linear_end_timestamp: u64,
}

/// An account as the staking-pool interface shows it.
pub struct HumanReadableAccount {
    pub account_id: String,
    /// Unstaked balance that can be withdrawn or staked again.
    pub unstaked_balance: u128,
    /// Value of the account's shares at the current price.
    pub staked_balance: u128,
    /// Whether the unstaked balance may be withdrawn now.
    pub can_withdraw: bool,
}

/// Full account data.
pub struct GetAccountInfoResult {
    pub account_id: String,
    /// Balance that can be withdrawn.
    pub available: u128,
    /// Value of the shares owned.
    pub skash: u128,
    /// Amount unstaked and waiting for withdrawal.
    pub unstaked: u128,
    /// Epoch of the latest unstake request.
    pub unstaked_requested_epoch_height: u64,
    pub can_withdraw: bool,
    /// Everything the account holds here.
    pub total: u128,
    /// When reward metering started, in nanoseconds.
    pub trip_start: u64,
    /// Share value held when metering started.
    pub trip_start_skash: u128,
    /// Staked since metering started.
    pub trip_accum_stakes: u128,
    /// Unstaked since metering started.
    pub trip_accum_unstakes: u128,
    /// Rewards earned since metering started.
    pub trip_rewards: u128,
}

/// An account's reward-metering figures, reset at the owner's will.
pub struct TripMeter {
    /// When metering started, in nanoseconds.
    pub trip_start: u64,
    /// Share value held when metering started.
    pub trip_start_skash: u128,
    /// Staked since metering started.
    pub trip_accum_stakes: u128,
    /// Unstaked since metering started.
    pub trip_accum_unstakes: u128,
}

/// One sub-pool's data.
pub struct GetSpInfoResult {
    pub account_id: String,
    pub weight_basis_points: u16,
    pub staked: u128,
    pub unstaked: u128,
    pub unstaked_requested_epoch_height: u64,
    pub last_asked_rewards_epoch_height: u64,
}

/// The pool's aggregate data.
pub struct GetContractInfoResult {
    pub owner_account_id: String,
    pub owner_fee_basis_points: u16,
    pub total_available: u128,
    pub total_for_staking: u128,
    pub total_actually_staked: u128,
    pub total_stake_shares: u128,
    pub total_for_unstaking: u128,
    pub total_actually_unstaked: u128,
    pub total_actually_unstaked_and_retrieved: u128,
    pub accumulated_staked_rewards: u128,
    pub staking_paused: bool,
    pub accounts_count: u64,
    pub staking_pools_count: u64,
}

/// Rewards over a metering period: the value now, with unstakes added back and stakes
/// taken out, less the value at the start; zero when that is negative.
pub open spec fn trip_rewards_of(current: int, start: int, stakes: int, unstakes: int) -> int {
    if current + unstakes >= stakes + start {
        current + unstakes - stakes - start
    } else {
        0
    }
}

/// Rewards over a metering period; see [`trip_rewards_of`].
pub fn trip_rewards(current: u128, start: u128, stakes: u128, unstakes: u128) -> (r: Option<u128>)
    ensures
        r is None <==> trip_rewards_of(current as int, start as int, stakes as int, unstakes as int)
            > u128::MAX,
        r matches Some(v) ==> v == trip_rewards_of(
            current as int,
            start as int,
            stakes as int,
            unstakes as int,
        ),
{
    if current >= stakes {
        let gained = current - stakes;
        if unstakes >= start {
            gained.checked_add(unstakes - start)
        } else {
            let short = start - unstakes;
            Some(if gained >= short { gained - short } else { 0 })
        }
    } else {
        let owed = stakes - current;
        if unstakes >= start {
            let extra = unstakes - start;
            Some(if extra >= owed { extra - owed } else { 0 })
        } else {
            Some(0)
        }
    }
}

impl VestingRecord {
    pub fn to_json(&self) -> (r: VestingRecordJSON)
        ensures
            r.amount == self.amount,
            r.locked_until_timestamp == self.locked_until_timestamp,
            r.linear_start_timestamp == self.linear_start_timestamp,
            r.linear_end_timestamp == self.linear_end_timestamp,
    {
        VestingRecordJSON {
            amount: self.amount,
            locked_until_timestamp: self.locked_until_timestamp,
            linear_start_timestamp: self.linear_start_timestamp,
            linear_end_timestamp: self.linear_end_timestamp,
        }
    }
}

impl SubPool {
    pub fn info(&self) -> (r: GetSpInfoResult)
        ensures
            r.account_id@ == self.account_id@,
            r.weight_basis_points == self.weight_basis_points,
            r.staked == self.staked,
            r.unstaked == self.unstaked,
            r.unstaked_requested_epoch_height == self.unstaked_requested_epoch_height,
            r.last_asked_rewards_epoch_height == self.last_asked_rewards_epoch_height,
    {
        GetSpInfoResult {
            account_id: self.account_id.clone(),
            weight_basis_points: self.weight_basis_points,
            staked: self.staked,
            unstaked: self.unstaked,
            unstaked_requested_epoch_height: self.unstaked_requested_epoch_height,
            last_asked_rewards_epoch_height: self.last_asked_rewards_epoch_height,
        }
    }
}

impl GlobalLedger {
    /// Value of `shares` at the current price.
    pub fn value_of_shares(&self, shares: u128) -> (r: u128)
        requires
            self.wf(),
            shares <= self.total_stake_shares,
        ensures
            r == amount_for(self.total_for_staking as int, self.total_stake_shares as int, shares as int),
            r <= self.total_for_staking,
    {
        if self.total_stake_shares == 0 {
            0
        } else {
            proof {
                crate::fixed_point::lemma_fraction_le_amount(
                    self.total_for_staking as int,
                    shares as int,
                    self.total_stake_shares as int,
                );
                assert((shares as int) * (self.total_for_staking as int) == (
                self.total_for_staking as int) * (shares as int)) by (nonlinear_arith);
            }
            crate::fixed_point::fraction_of(shares, self.total_for_staking, self.total_stake_shares)
        }
    }

    /// The owner's fee as a fraction.
    pub fn reward_fee_fraction(&self) -> (r: RewardFeeFraction)
        ensures
            r.numerator == self.owner_fee_basis_points,
            r.denominator == BASIS_POINTS,
    {
        RewardFeeFraction {
            numerator: self.owner_fee_basis_points as u32,
            denominator: BASIS_POINTS as u32,
        }
    }

    /// Full account data, with the balance available to it supplied by the caller. `None`
    /// when its total holdings or its trip rewards do not fit in 128 bits.
    pub fn account_info(
        &self,
        account_id: String,
        account: &Account,
        available: u128,
        trip: &TripMeter,
        current_epoch: EpochHeight,
    ) -> (r: Option<GetAccountInfoResult>)
        requires
            self.wf(),
            account.stake_shares <= self.total_stake_shares,
        ensures
            ({
                let skash = amount_for(
                    self.total_for_staking as int,
                    self.total_stake_shares as int,
                    account.stake_shares as int,
                );
                let rewards = trip_rewards_of(
                    skash,
                    trip.trip_start_skash as int,
                    trip.trip_accum_stakes as int,
                    trip.trip_accum_unstakes as int,
                );
                &&& r is None <==> available + skash + account.unstaked > u128::MAX || rewards > u128::MAX
                &&& r matches Some(i) ==> {
                    &&& i.account_id == account_id
                    &&& i.available == available
                    &&& i.skash == skash
                    &&& i.unstaked == account.unstaked
                    &&& i.unstaked_requested_epoch_height == account.unstaked_requested_epoch_height
                    &&& i.can_withdraw == withdrawable_at(account.unstaked_requested_epoch_height, current_epoch)
                    &&& i.total == available + skash + account.unstaked
                    &&& i.trip_start == trip.trip_start
                    &&& i.trip_start_skash == trip.trip_start_skash
                    &&& i.trip_accum_stakes == trip.trip_accum_stakes
                    &&& i.trip_accum_unstakes == trip.trip_accum_unstakes
                    &&& i.trip_rewards == rewards
                }
            }),
    {
        let skash = self.value_of_shares(account.stake_shares);
        let total = match available.checked_add(skash) {
            Some(v) => match v.checked_add(account.unstaked) {
                Some(t) => t,
                None => return None,
            },
            None => return None,
        };
        let rewards = match trip_rewards(
            skash,
            trip.trip_start_skash,
            trip.trip_accum_stakes,
            trip.trip_accum_unstakes,
        ) {
            Some(v) => v,
            None => return None,
        };
        Some(GetAccountInfoResult {
            account_id,
            available,
            skash,
            unstaked: account.unstaked,
            unstaked_requested_epoch_height: account.unstaked_requested_epoch_height,
            can_withdraw: is_withdrawable(account.unstaked_requested_epoch_height, current_epoch),
            total,
            trip_start: trip.trip_start,
            trip_start_skash: trip.trip_start_skash,
            trip_accum_stakes: trip.trip_accum_stakes,
            trip_accum_unstakes: trip.trip_accum_unstakes,
            trip_rewards: rewards,
        })
    }

    /// The account as the staking-pool interface shows it.
    pub fn human_readable_account(
        &self,
        account_id: String,
        account: &Account,
        current_epoch: EpochHeight,
    ) -> (r: HumanReadableAccount)
        requires
            self.wf(),
            account.stake_shares <= self.total_stake_shares,
        ensures
            r.account_id == account_id,
            r.unstaked_balance == account.unstaked,
            r.staked_balance == amount_for(
                self.total_for_staking as int,
                self.total_stake_shares as int,
                account.stake_shares as int,
            ),
            r.can_withdraw == withdrawable_at(account.unstaked_requested_epoch_height, current_epoch),
    {
        HumanReadableAccount {
            account_id,
            unstaked_balance: account.unstaked,
            staked_balance: self.value_of_shares(account.stake_shares),
            can_withdraw: is_withdrawable(account.unstaked_requested_epoch_height, current_epoch),
        }
    }

    /// The aggregate data, with the owner and the balance held here supplied by the caller.
    pub fn contract_info(&self, owner_account_id: String, total_available: u128) -> (r: GetContractInfoResult)
        ensures
            r.owner_account_id == owner_account_id,
            r.owner_fee_basis_points == self.owner_fee_basis_points,
            r.total_available == total_available,
            r.total_for_staking == self.total_for_staking,
            r.total_actually_staked == self.total_actually_staked,
            r.total_stake_shares == self.total_stake_shares,
            r.total_for_unstaking == self.total_for_unstaking,
            r.total_actually_unstaked == self.total_actually_unstaked,
            r.total_actually_unstaked_and_retrieved == self.total_actually_unstaked_and_retrieved,
            r.accumulated_staked_rewards == self.accumulated_staked_rewards,
            r.staking_paused == self.staking_paused,
            r.accounts_count == self.accounts_count,
            r.staking_pools_count == self.staking_pools_count,
    {
        GetContractInfoResult {
            owner_account_id,
            owner_fee_basis_points: self.owner_fee_basis_points,
            total_available,
            total_for_staking: self.total_for_staking,
            total_actually_staked: self.total_actually_staked,
            total_stake_shares: self.total_stake_shares,
            total_for_unstaking: self.total_for_unstaking,
            total_actually_unstaked: self.total_actually_unstaked,
            total_actually_unstaked_and_retrieved: self.total_actually_unstaked_and_retrieved,
            accumulated_staked_rewards: self.accumulated_staked_rewards,
            staking_paused: self.staking_paused,
            accounts_count: self.accounts_count,
            staking_pools_count: self.staking_pools_count,
        }
    }
}

} // verus!
