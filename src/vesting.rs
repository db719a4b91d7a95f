use crate::fixed_point::{fraction, fraction_of, lemma_fraction_le_amount};
use crate::types::TimestampNano;
use vstd::arithmetic::div_mod::*;
use vstd::prelude::*;

verus! {

/// A grant whose tokens are released over time: fully locked until both
/// `linear_start_timestamp` and `locked_until_timestamp` have passed, then released
/// linearly until `linear_end_timestamp`.
pub struct VestingRecord {
    /// Total size of the grant.
    pub amount: u128,
    /// Until this instant the whole amount stays locked, whatever the linear schedule says.
    pub locked_until_timestamp: TimestampNano,
    /// Instant at which the linear release starts.
    pub linear_start_timestamp: TimestampNano,
    /// Instant at which everything is released.
    pub linear_end_timestamp: TimestampNano,
}

/// Why a vesting grant was refused.
#[derive(Debug, PartialEq, Eq, Structural, Clone, Copy)]
pub enum VestingError {
    /// The grant amount is zero.
    ZeroAmount,
    /// The linear release would start after it ends.
    StartAfterEnd,
    /// The full lock would last until the end of the release or later.
    LockedUntilNotBeforeEnd,
}

/// The conditions a grant must meet.
pub open spec fn valid_grant(amount: u128, locked_until: u64, start: u64, end: u64) -> bool {
    &&& amount > 0
    &&& start <= end
    &&& locked_until < end
}

/// The amount still locked at time `now`.
pub open spec fn amount_locked(amount: u128, locked_until: u64, start: u64, end: u64, now: u64) -> int {
    if now < start || now < locked_until {
        amount as int
    } else if now >= end {
        0
    } else {
        fraction(amount as int, end - now, end - start)
    }
}

impl VestingRecord {
    pub open spec fn wf(&self) -> bool {
        valid_grant(
            self.amount,
            self.locked_until_timestamp,
            self.linear_start_timestamp,
            self.linear_end_timestamp,
        )
    }

    pub open spec fn locked_at(&self, now: u64) -> int {
        amount_locked(
            self.amount,
            self.locked_until_timestamp,
            self.linear_start_timestamp,
            self.linear_end_timestamp,
            now,
        )
    }

    /// Creates a grant; the caller must have checked it with [`VestingRecord::check`].
    pub fn new(
        amount: u128,
        locked_until_timestamp: TimestampNano,
        linear_start_timestamp: TimestampNano,
        linear_end_timestamp: TimestampNano,
    ) -> (r: Self)
        requires
            valid_grant(amount, locked_until_timestamp, linear_start_timestamp, linear_end_timestamp),
        ensures
            r.wf(),
            r.amount == amount,
            r.locked_until_timestamp == locked_until_timestamp,
            r.linear_start_timestamp == linear_start_timestamp,
            r.linear_end_timestamp == linear_end_timestamp,
    {
        VestingRecord { amount, locked_until_timestamp, linear_start_timestamp, linear_end_timestamp }
    }

    /// Tells whether a grant may be created, and if not, the first rule it breaks.
    pub fn check(
        amount: u128,
        locked_until_timestamp: TimestampNano,
        linear_start_timestamp: TimestampNano,
        linear_end_timestamp: TimestampNano,
    ) -> (r: Result<(), VestingError>)
        ensures
            r is Ok <==> valid_grant(
                amount,
                locked_until_timestamp,
                linear_start_timestamp,
                linear_end_timestamp,
            ),
            r == Err::<(), VestingError>(VestingError::ZeroAmount) <==> amount == 0,
            r == Err::<(), VestingError>(VestingError::StartAfterEnd) <==> (amount > 0
                && linear_start_timestamp > linear_end_timestamp),
            r == Err::<(), VestingError>(VestingError::LockedUntilNotBeforeEnd) <==> (amount > 0
                && linear_start_timestamp <= linear_end_timestamp && locked_until_timestamp
                >= linear_end_timestamp),
    {
        if amount == 0 {
            Err(VestingError::ZeroAmount)
        } else if linear_start_timestamp > linear_end_timestamp {
            Err(VestingError::StartAfterEnd)
        } else if locked_until_timestamp >= linear_end_timestamp {
            Err(VestingError::LockedUntilNotBeforeEnd)
        } else {
            Ok(())
        }
    }

    /// The amount of the grant that is still locked at time `now`.
    pub fn compute_amount_locked(&self, now: u64) -> (r: u128)
        requires
            self.wf(),
        ensures
            r == self.locked_at(now),
            r <= self.amount,
            now < self.linear_start_timestamp || now < self.locked_until_timestamp ==> r
                == self.amount,
            now >= self.linear_end_timestamp ==> r == 0,
    {
        if now < self.linear_start_timestamp || now < self.locked_until_timestamp {
            self.amount
        } else if now >= self.linear_end_timestamp {
            0
        } else {
            let time_left = self.linear_end_timestamp - now;
            let total_time = self.linear_end_timestamp - self.linear_start_timestamp;
            proof {
                lemma_fraction_le_amount(self.amount as int, time_left as int, total_time as int);
            }
            fraction_of(self.amount, time_left as u128, total_time as u128)
        }
    }
}

/// The locked amount never grows as time passes, starts at the full amount, and is zero
/// from the end of the release on.
pub proof fn lemma_locked_non_increasing(r: VestingRecord, t1: u64, t2: u64)
    requires
        r.wf(),
        t1 <= t2,
    ensures
        r.locked_at(t2) <= r.locked_at(t1),
        0 <= r.locked_at(t2) <= r.amount,
        r.locked_until_timestamp <= r.linear_start_timestamp < r.linear_end_timestamp ==> r.locked_at(
            r.linear_start_timestamp,
        ) == r.amount,
        r.locked_at(r.linear_end_timestamp) == 0,
{
    let s = r.linear_start_timestamp as int;
    let e = r.linear_end_timestamp as int;
    let a = r.amount as int;
    if !(t1 < s || t1 < r.locked_until_timestamp) && t1 < e {
        lemma_fraction_le_amount(a, e - t1, e - s);
    }
    if !(t2 < s || t2 < r.locked_until_timestamp) && t2 < e {
        lemma_fraction_le_amount(a, e - t2, e - s);
        if !(t1 < s || t1 < r.locked_until_timestamp) {
            assert(a * (e - t2) <= a * (e - t1)) by (nonlinear_arith)
                requires a >= 0, e - t2 <= e - t1;
            lemma_div_is_ordered(a * (e - t2), a * (e - t1), e - s);
        }
    }
    if r.locked_until_timestamp <= r.linear_start_timestamp && s < e {
        lemma_div_multiples_vanish(a, e - s);
        assert(a * (e - s) == (e - s) * a) by (nonlinear_arith);
    }
}

} // verus!
