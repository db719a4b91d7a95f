use crate::fixed_point::{checked_fraction_of, fraction, lemma_fraction_le_amount};
use crate::types::{BASIS_POINTS, EpochHeight};
use vstd::arithmetic::div_mod::*;
use vstd::prelude::*;

verus! {

/// What one account holds in the pool.
pub struct Account {
    /// Pool shares owned.
    pub stake_shares: u128,
    /// Native units unstaked and waiting to be withdrawn.
    pub unstaked: u128,
    /// Epoch of the latest unstake request; it governs the whole unstaked balance.
    pub unstaked_requested_epoch_height: EpochHeight,
}

/// The pool's aggregate counters.
pub struct GlobalLedger {
    /// Native units selected for staking; the share price is this over `total_stake_shares`.
    pub total_for_staking: u128,
    /// Native units confirmed staked in sub-pools.
    pub total_actually_staked: u128,
    /// Shares minted and not burnt.
    pub total_stake_shares: u128,
    /// Native units selected for unstaking.
    pub total_for_unstaking: u128,
    /// Native units confirmed unstaked in sub-pools.
    pub total_actually_unstaked: u128,
    /// Native units unstaked and brought back from the sub-pools.
    pub total_actually_unstaked_and_retrieved: u128,
    /// Sum of all rewards reported; it never decreases.
    pub accumulated_staked_rewards: u128,
    pub staking_paused: bool,
    /// Owner's fee on rewards, in basis points.
    pub owner_fee_basis_points: u16,
    pub accounts_count: u64,
    pub staking_pools_count: u64,
}

/// Why a ledger operation was refused; a refused operation changes nothing.
#[derive(Debug, PartialEq, Eq, Structural, Clone, Copy)]
pub enum LedgerError {
    /// A counter would exceed 128 bits.
    Overflow,
    /// More shares than the account (or the pool) holds.
    NotEnoughShares,
    /// A fee above 100%.
    FeeTooHigh,
}

/// Shares minted for `amount` at the price `f / s` (1:1 while no share exists).
pub open spec fn shares_for(f: int, s: int, amount: int) -> int {
    if s == 0 {
        amount
    } else {
        fraction(amount, s, f)
    }
}

/// Native units that `shares` are worth at the price `f / s`.
pub open spec fn amount_for(f: int, s: int, shares: int) -> int {
    if s == 0 {
        0
    } else {
        fraction(shares, f, s)
    }
}

/// `total_for_staking` after a stake of `amount`: set to it while no share exists.
pub open spec fn for_staking_after_stake(f: int, s: int, amount: int) -> int {
    if s == 0 {
        amount
    } else {
        f + amount
    }
}

/// The owner's cut of a reward `delta`.
pub open spec fn fee_of(delta: int, fee_basis_points: int) -> int {
    fraction(delta, fee_basis_points, BASIS_POINTS as int)
}

/// Shares minted to the owner for a fee `fee`, once the reward has raised the pool value
/// to `f`: priced so that they are worth the fee (rounded down). None while no share exists.
pub open spec fn fee_shares_for(f: int, s: int, fee: int) -> int {
    if s == 0 {
        0
    } else {
        fraction(fee, s, f - fee)
    }
}

/// Numerator of the share price, a fraction with a positive denominator (1 while no share exists).
pub open spec fn price_num(f: int, s: int) -> int {
    if s == 0 {
        1
    } else {
        f
    }
}

pub open spec fn price_den(f: int, s: int) -> int {
    if s == 0 {
        1
    } else {
        s
    }
}

/// The price `f2 / s2` is at least the price `f1 / s1`.
pub open spec fn price_at_least(f2: int, s2: int, f1: int, s1: int) -> bool {
    price_num(f2, s2) * price_den(f1, s1) >= price_num(f1, s1) * price_den(f2, s2)
}

pub open spec fn fits(x: int) -> bool {
    x <= u128::MAX
}

impl Account {
    pub fn new() -> (r: Account)
        ensures
            r.stake_shares == 0,
            r.unstaked == 0,
            r.unstaked_requested_epoch_height == 0,
    {
        Account { stake_shares: 0, unstaked: 0, unstaked_requested_epoch_height: 0 }
    }
}

impl GlobalLedger {
    /// Shares imply value, and the fee is at most 100%.
    pub open spec fn wf(&self) -> bool {
        &&& self.total_stake_shares > 0 ==> self.total_for_staking > 0
        &&& self.owner_fee_basis_points <= BASIS_POINTS
    }

    pub open spec fn same_counters_but_shares_and_value(&self, o: &GlobalLedger) -> bool {
        &&& self.total_actually_staked == o.total_actually_staked
        &&& self.total_actually_unstaked == o.total_actually_unstaked
        &&& self.total_actually_unstaked_and_retrieved == o.total_actually_unstaked_and_retrieved
        &&& self.staking_paused == o.staking_paused
        &&& self.owner_fee_basis_points == o.owner_fee_basis_points
        &&& self.accounts_count == o.accounts_count
        &&& self.staking_pools_count == o.staking_pools_count
    }

    pub open spec fn stake_fits(&self, account_shares: u128, amount: u128) -> bool {
        let f = self.total_for_staking as int;
        let s = self.total_stake_shares as int;
        let m = shares_for(f, s, amount as int);
        &&& fits(m)
        &&& fits(for_staking_after_stake(f, s, amount as int))
        &&& fits(s + m)
        &&& fits(account_shares + m)
    }

    pub open spec fn unstake_fits(&self, account_unstaked: u128, shares: u128) -> bool {
        let a = amount_for(self.total_for_staking as int, self.total_stake_shares as int, shares as int);
        &&& fits(self.total_for_unstaking + a)
        &&& fits(account_unstaked + a)
    }

    pub open spec fn rewards_fit(&self, owner_shares: u128, delta: u128) -> bool {
        let f2 = self.total_for_staking + delta;
        let m = fee_shares_for(f2, self.total_stake_shares as int, fee_of(delta as int, self.owner_fee_basis_points as int));
        &&& fits(f2)
        &&& fits(self.accumulated_staked_rewards + delta)
        &&& fits(m)
        &&& fits(self.total_stake_shares + m)
        &&& fits(owner_shares + m)
    }

    /// An empty ledger; refused when the fee is above 100%.
    pub fn new(owner_fee_basis_points: u16) -> (r: Result<GlobalLedger, LedgerError>)
        ensures
            r is Err <==> owner_fee_basis_points > BASIS_POINTS,
            r is Err ==> r == Err::<GlobalLedger, LedgerError>(LedgerError::FeeTooHigh),
            r matches Ok(l) ==> l.wf() && l.owner_fee_basis_points == owner_fee_basis_points
                && l.total_for_staking == 0 && l.total_actually_staked == 0
                && l.total_stake_shares == 0 && l.total_for_unstaking == 0
                && l.total_actually_unstaked == 0 && l.total_actually_unstaked_and_retrieved == 0
                && l.accumulated_staked_rewards == 0 && !l.staking_paused
                && l.accounts_count == 0 && l.staking_pools_count == 0,
    {
        if owner_fee_basis_points > BASIS_POINTS {
            return Err(LedgerError::FeeTooHigh);
        }
        Ok(GlobalLedger {
            total_for_staking: 0,
            total_actually_staked: 0,
            total_stake_shares: 0,
            total_for_unstaking: 0,
            total_actually_unstaked: 0,
            total_actually_unstaked_and_retrieved: 0,
            accumulated_staked_rewards: 0,
            staking_paused: false,
            owner_fee_basis_points,
            accounts_count: 0,
            staking_pools_count: 0,
        })
    }

    /// Buys shares with `amount` at the current price and credits them to `account`.
    /// Returns the shares minted.
    pub fn stake(&mut self, account: &mut Account, amount: u128) -> (r: Result<u128, LedgerError>)
        requires
            old(self).wf(),
        ensures
            final(self).wf(),
            r is Ok <==> old(self).stake_fits(old(account).stake_shares, amount),
            r is Err ==> r == Err::<u128, LedgerError>(LedgerError::Overflow) && *final(self)
                == *old(self) && *final(account) == *old(account),
            r matches Ok(m) ==> {
                let f = old(self).total_for_staking as int;
                let s = old(self).total_stake_shares as int;
                &&& m == shares_for(f, s, amount as int)
                &&& final(self).total_for_staking == for_staking_after_stake(f, s, amount as int)
                &&& final(self).total_stake_shares == s + m
                &&& final(self).total_for_unstaking == old(self).total_for_unstaking
                &&& final(self).accumulated_staked_rewards == old(self).accumulated_staked_rewards
                &&& final(self).same_counters_but_shares_and_value(old(self))
                &&& final(account).stake_shares == old(account).stake_shares + m
                &&& final(account).unstaked == old(account).unstaked
                &&& final(account).unstaked_requested_epoch_height
                    == old(account).unstaked_requested_epoch_height
            },
    {
        let minted: u128;
        let new_for_staking: u128;
        if self.total_stake_shares == 0 {
            minted = amount;
            new_for_staking = amount;
        } else {
            match checked_fraction_of(amount, self.total_stake_shares, self.total_for_staking) {
                Some(m) => minted = m,
                None => return Err(LedgerError::Overflow),
            }
            match self.total_for_staking.checked_add(amount) {
                Some(v) => new_for_staking = v,
                None => return Err(LedgerError::Overflow),
            }
        }
        let new_shares = match self.total_stake_shares.checked_add(minted) {
            Some(v) => v,
            None => return Err(LedgerError::Overflow),
        };
        let new_account_shares = match account.stake_shares.checked_add(minted) {
            Some(v) => v,
            None => return Err(LedgerError::Overflow),
        };
        self.total_for_staking = new_for_staking;
        self.total_stake_shares = new_shares;
        account.stake_shares = new_account_shares;
        Ok(minted)
    }

    /// Burns `shares` of `account` at the current price; their value moves to the account's
    /// unstaked balance, and the wait for it restarts from `current_epoch`.
    /// Returns the native units the shares were worth.
    pub fn unstake(&mut self, account: &mut Account, shares: u128, current_epoch: EpochHeight) -> (r:
        Result<u128, LedgerError>)
        requires
            old(self).wf(),
        ensures
            final(self).wf(),
            r == Err::<u128, LedgerError>(LedgerError::NotEnoughShares) <==> (shares
                > old(account).stake_shares || shares > old(self).total_stake_shares),
            r == Err::<u128, LedgerError>(LedgerError::Overflow) <==> (shares
                <= old(account).stake_shares && shares <= old(self).total_stake_shares
                && !old(self).unstake_fits(old(account).unstaked, shares)),
            r is Ok <==> (shares <= old(account).stake_shares && shares
                <= old(self).total_stake_shares && old(self).unstake_fits(old(account).unstaked, shares)),
            r is Err ==> *final(self) == *old(self) && *final(account) == *old(account),
            r matches Ok(a) ==> {
                let f = old(self).total_for_staking as int;
                let s = old(self).total_stake_shares as int;
                &&& a == amount_for(f, s, shares as int)
                &&& a <= f
                &&& final(self).total_for_staking == f - a
                &&& final(self).total_stake_shares == s - shares
                &&& final(self).total_for_unstaking == old(self).total_for_unstaking + a
                &&& final(self).accumulated_staked_rewards == old(self).accumulated_staked_rewards
                &&& final(self).same_counters_but_shares_and_value(old(self))
                &&& final(account).stake_shares == old(account).stake_shares - shares
                &&& final(account).unstaked == old(account).unstaked + a
                &&& final(account).unstaked_requested_epoch_height == current_epoch
            },
    {
        if shares > account.stake_shares || shares > self.total_stake_shares {
            return Err(LedgerError::NotEnoughShares);
        }
        let amount: u128;
        if self.total_stake_shares == 0 {
            amount = 0;
        } else {
            let f = self.total_for_staking;
            let s = self.total_stake_shares;
            proof {
                lemma_fraction_le_amount(f as int, shares as int, s as int);
                assert((shares as int) * (f as int) == (f as int) * (shares as int)) by (nonlinear_arith);
                if shares < s {
                    assert((shares as int) * (f as int) < (s as int) * (f as int)) by (nonlinear_arith)
                        requires shares < s, f > 0;
                    lemma_multiply_divide_lt((shares as int) * (f as int), s as int, f as int);
                }
            }
            amount = crate::fixed_point::fraction_of(shares, f, s);
        }
        let new_for_unstaking = match self.total_for_unstaking.checked_add(amount) {
            Some(v) => v,
            None => return Err(LedgerError::Overflow),
        };
        let new_unstaked = match account.unstaked.checked_add(amount) {
            Some(v) => v,
            None => return Err(LedgerError::Overflow),
        };
        self.total_for_staking = self.total_for_staking - amount;
        self.total_stake_shares = self.total_stake_shares - shares;
        self.total_for_unstaking = new_for_unstaking;
        account.stake_shares = account.stake_shares - shares;
        account.unstaked = new_unstaked;
        account.unstaked_requested_epoch_height = current_epoch;
        Ok(amount)
    }

    /// Adds a reward `delta` to the pool value without minting shares for it, which raises
    /// the share price; the owner's fee on it is minted to `owner` as shares worth the fee.
    /// Returns the shares minted to the owner.
    pub fn report_rewards(&mut self, owner: &mut Account, delta: u128) -> (r: Result<u128, LedgerError>)
        requires
            old(self).wf(),
        ensures
            final(self).wf(),
            r is Ok <==> old(self).rewards_fit(old(owner).stake_shares, delta),
            r is Err ==> r == Err::<u128, LedgerError>(LedgerError::Overflow) && *final(self)
                == *old(self) && *final(owner) == *old(owner),
            r matches Ok(m) ==> {
                let f2 = old(self).total_for_staking + delta;
                let s = old(self).total_stake_shares as int;
                &&& m == fee_shares_for(f2, s, fee_of(delta as int, old(self).owner_fee_basis_points as int))
                &&& final(self).total_for_staking == f2
                &&& final(self).total_stake_shares == s + m
                &&& final(self).accumulated_staked_rewards == old(self).accumulated_staked_rewards + delta
                &&& final(self).total_for_unstaking == old(self).total_for_unstaking
                &&& final(self).same_counters_but_shares_and_value(old(self))
                &&& final(owner).stake_shares == old(owner).stake_shares + m
                &&& final(owner).unstaked == old(owner).unstaked
                &&& final(owner).unstaked_requested_epoch_height
                    == old(owner).unstaked_requested_epoch_height
                &&& price_at_least(
                    final(self).total_for_staking as int,
                    final(self).total_stake_shares as int,
                    old(self).total_for_staking as int,
                    s,
                )
            },
    {
        let new_for_staking = match self.total_for_staking.checked_add(delta) {
            Some(v) => v,
            None => return Err(LedgerError::Overflow),
        };
        let new_accumulated = match self.accumulated_staked_rewards.checked_add(delta) {
            Some(v) => v,
            None => return Err(LedgerError::Overflow),
        };
        proof {
            lemma_fraction_le_amount(delta as int, self.owner_fee_basis_points as int, BASIS_POINTS as int);
        }
        let fee = crate::fixed_point::fraction_of(delta, self.owner_fee_basis_points as u128, BASIS_POINTS as u128);
        let fee_shares: u128;
        if self.total_stake_shares == 0 {
            fee_shares = 0;
        } else {
            match checked_fraction_of(fee, self.total_stake_shares, new_for_staking - fee) {
                Some(m) => fee_shares = m,
                None => return Err(LedgerError::Overflow),
            }
        }
        let new_shares = match self.total_stake_shares.checked_add(fee_shares) {
            Some(v) => v,
            None => return Err(LedgerError::Overflow),
        };
        let new_owner_shares = match owner.stake_shares.checked_add(fee_shares) {
            Some(v) => v,
            None => return Err(LedgerError::Overflow),
        };
        proof {
            if self.total_stake_shares > 0 {
                lemma_fee_keeps_price(
                    self.total_for_staking as int,
                    self.total_stake_shares as int,
                    delta as int,
                    fee as int,
                    fee_shares as int,
                );
            }
        }
        self.total_for_staking = new_for_staking;
        self.accumulated_staked_rewards = new_accumulated;
        self.total_stake_shares = new_shares;
        owner.stake_shares = new_owner_shares;
        Ok(fee_shares)
    }
}

proof fn lemma_fee_keeps_price(f: int, s: int, delta: int, fee: int, m: int)
    requires
        f > 0,
        s > 0,
        0 <= fee <= delta,
        m == fraction(fee, s, f + delta - fee),
    ensures
        (f + delta) * s >= f * (s + m),
{
    let d = f + delta - fee;
    lemma_fundamental_div_mod(fee * s, d);
    lemma_mod_pos_bound(fee * s, d);
    assert(m * d <= fee * s) by (nonlinear_arith)
        requires m == (fee * s) / d, fee * s == d * ((fee * s) / d) + (fee * s) % d, (fee * s) % d >= 0;
    assert(m >= 0) by {
        assert(fee * s >= 0) by (nonlinear_arith) requires fee >= 0, s > 0;
        lemma_div_pos_is_pos(fee * s, d);
    }
    assert(m * f <= m * d) by (nonlinear_arith) requires m >= 0, f <= d;
    assert(fee * s <= delta * s) by (nonlinear_arith) requires fee <= delta, s > 0;
    assert((f + delta) * s >= f * (s + m)) by (nonlinear_arith)
        requires m * f <= fee * s, fee * s <= delta * s;
}

/// Staking and then unstaking the minted shares gives back exactly the amount staked, when
/// no reward or fee comes in between and the price is one (which it is while no share
/// exists). At another price rounding may lose a unit.
pub proof fn lemma_stake_unstake_round_trip(f: u128, s: u128, amount: u128)
    requires
        s == 0 || s == f,
        amount > 0,
    ensures
        ({
            let m = shares_for(f as int, s as int, amount as int);
            let f2 = for_staking_after_stake(f as int, s as int, amount as int);
            amount_for(f2, s + m, m) == amount
        }),
{
    let a = amount as int;
    if s == 0 {
        lemma_div_multiples_vanish(a, a);
        assert(a * a == a * a);
    } else {
        lemma_div_multiples_vanish(a, s as int);
        assert(a * s == s * a) by (nonlinear_arith);
        let t = f + a;
        lemma_div_multiples_vanish(a, t);
        assert(a * t == t * a) by (nonlinear_arith);
    }
}

/// Over any sequence of ledger states in which each step keeps or raises the share price,
/// as every `report_rewards` does, the last price is at least the first.
pub proof fn lemma_price_never_falls(totals: Seq<(u128, u128)>)
    requires
        totals.len() > 0,
        forall|i: int|
            0 <= i < totals.len() - 1 ==> price_at_least(
                #[trigger] totals[i + 1].0 as int,
                totals[i + 1].1 as int,
                totals[i].0 as int,
                totals[i].1 as int,
            ),
    ensures
        price_at_least(
            totals.last().0 as int,
            totals.last().1 as int,
            totals[0].0 as int,
            totals[0].1 as int,
        ),
    decreases totals.len(),
{
    if totals.len() > 1 {
        let prefix = totals.drop_last();
        assert forall|i: int| 0 <= i < prefix.len() - 1 implies price_at_least(
            #[trigger] prefix[i + 1].0 as int,
            prefix[i + 1].1 as int,
            prefix[i].0 as int,
            prefix[i].1 as int,
        ) by {
            assert(prefix[i + 1] == totals[i + 1]);
            assert(prefix[i] == totals[i]);
        }
        lemma_price_never_falls(prefix);
        let n = totals.len() - 1;
        assert(prefix.last() == totals[n - 1]);
        let j = n - 1;
        assert(price_at_least(totals[j + 1].0 as int, totals[j + 1].1 as int, totals[j].0 as int, totals[j].1 as int));
        assert(j + 1 == n);
        lemma_price_transitive(
            totals[n].0 as int, totals[n].1 as int,
            totals[n - 1].0 as int, totals[n - 1].1 as int,
            totals[0].0 as int, totals[0].1 as int,
        );
    }
}

proof fn lemma_price_transitive(f3: int, s3: int, f2: int, s2: int, f1: int, s1: int)
    requires
        f1 >= 0, f2 >= 0, f3 >= 0, s1 >= 0, s2 >= 0, s3 >= 0,
        price_at_least(f3, s3, f2, s2),
        price_at_least(f2, s2, f1, s1),
    ensures
        price_at_least(f3, s3, f1, s1),
{
    let (a, b) = (price_num(f3, s3), price_den(f3, s3));
    let (c, d) = (price_num(f2, s2), price_den(f2, s2));
    let (e, g) = (price_num(f1, s1), price_den(f1, s1));
    assert(a * g >= e * b) by (nonlinear_arith)
        requires a * d >= c * b, c * g >= e * d, b > 0, d > 0, g > 0, a >= 0, c >= 0, e >= 0;
}

} // verus!
