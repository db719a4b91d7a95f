use crate::ledger::Account;
use crate::vesting::VestingRecord;
use crate::types::{EpochHeight, NUM_EPOCHS_TO_UNLOCK};
use vstd::prelude::*;

verus! {

/// Funds requested at epoch `requested` may be withdrawn at epoch `current`.
pub open spec fn withdrawable_at(requested: u64, current: u64) -> bool {
    current >= requested + NUM_EPOCHS_TO_UNLOCK
}

/// Whether the wait that started at `requested_epoch` is over at `current_epoch`.
pub fn is_withdrawable(requested_epoch: EpochHeight, current_epoch: EpochHeight) -> (r: bool)
    ensures
        r == withdrawable_at(requested_epoch, current_epoch),
{
    current_epoch >= requested_epoch && current_epoch - requested_epoch >= NUM_EPOCHS_TO_UNLOCK
}

impl Account {
    /// Whether the account's unstaked balance may be withdrawn at `current_epoch`.
    pub fn can_withdraw(&self, current_epoch: EpochHeight) -> (r: bool)
        ensures
            r == withdrawable_at(self.unstaked_requested_epoch_height, current_epoch),
    {
        is_withdrawable(self.unstaked_requested_epoch_height, current_epoch)
    }

    /// What may leave the account now: nothing while its unstaked balance is still waiting,
    /// then all of that balance but what an optional vesting grant still locks.
    pub fn withdrawable(&self, vesting: &Option<VestingRecord>, now: u64, current_epoch: EpochHeight) -> (r:
        u128)
        requires
            vesting matches Some(v) ==> v.wf(),
        ensures
            r == withdrawable_amount(self.unstaked, *vesting, now, current_epoch, self.unstaked_requested_epoch_height),
            r <= self.unstaked,
    {
        if !self.can_withdraw(current_epoch) {
            return 0;
        }
        match vesting {
            None => self.unstaked,
            Some(v) => {
                let locked = v.compute_amount_locked(now);
                if self.unstaked > locked {
                    self.unstaked - locked
                } else {
                    0
                }
            },
        }
    }
}

/// The part of `balance` free to leave: zero before maturity, otherwise the balance less
/// what the grant locks at `now`, never below zero.
pub open spec fn withdrawable_amount(
    balance: u128,
    vesting: Option<VestingRecord>,
    now: u64,
    current_epoch: u64,
    requested_epoch: u64,
) -> int {
    if !withdrawable_at(requested_epoch, current_epoch) {
        0
    } else {
        match vesting {
            None => balance as int,
            Some(v) => if balance > v.locked_at(now) {
                balance - v.locked_at(now)
            } else {
                0
            },
        }
    }
}

/// A request at epoch `e` matures exactly at `e + 4`; a later request at `e2` replaces it,
/// so the pending balance then matures only at `e2 + 4`, even at epochs where the first
/// request alone would have matured.
pub proof fn lemma_unlock_maturity(e: u64, e2: u64, t: u64)
    requires
        e < e2,
    ensures
        t < e + NUM_EPOCHS_TO_UNLOCK ==> !withdrawable_at(e, t),
        t >= e + NUM_EPOCHS_TO_UNLOCK ==> withdrawable_at(e, t),
        withdrawable_at(e2, t) <==> t >= e2 + NUM_EPOCHS_TO_UNLOCK,
        e + NUM_EPOCHS_TO_UNLOCK <= t < e2 + NUM_EPOCHS_TO_UNLOCK ==> withdrawable_at(e, t)
            && !withdrawable_at(e2, t),
{
}

} // verus!
