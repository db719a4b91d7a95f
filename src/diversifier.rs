use crate::fixed_point::{base128, mul_wide, wide_add, wide_lt, wide_value};
use crate::types::{BASIS_POINTS, EpochHeight};
use vstd::math::min;
use vstd::prelude::*;

verus! {

/// One external staking pool that the funds are spread over.
pub struct SubPool {
    pub account_id: String,
    /// Share of the total stake this pool should hold; 0 means unstake only.
    pub weight_basis_points: u16,
    /// Native units staked in this pool.
    pub staked: u128,
    /// Native units unstaked in this pool and not yet retrieved.
    pub unstaked: u128,
    /// Epoch of the latest unstake request sent to this pool.
    pub unstaked_requested_epoch_height: EpochHeight,
    /// Epoch at which the pool was last asked for its rewards.
    pub last_asked_rewards_epoch_height: EpochHeight,
}

/// Why a change to the pool set was refused; a refused change alters nothing.
#[derive(Debug, PartialEq, Eq, Structural, Clone, Copy)]
pub enum DiversifierError {
    /// The weights would add up to more than 100%.
    WeightsAboveTotal,
    /// No pool at that index.
    NoSuchPool,
    /// A counter would exceed 128 bits.
    Overflow,
}

/// How far a pool is below its target share of `total`, scaled by 10000:
/// positive when under-allocated, negative when over-allocated.
pub open spec fn deviation(p: SubPool, total: u128) -> int {
    p.weight_basis_points * total - p.staked * BASIS_POINTS
}

/// Sum of the weights of a sequence of pools.
pub open spec fn weight_sum(pools: Seq<SubPool>) -> int
    decreases pools.len(),
{
    if pools.len() == 0 {
        0
    } else {
        weight_sum(pools.drop_last()) + pools.last().weight_basis_points
    }
}

/// Sum of the stake held by a sequence of pools.
pub open spec fn staked_sum(pools: Seq<SubPool>) -> int
    decreases pools.len(),
{
    if pools.len() == 0 {
        0
    } else {
        staked_sum(pools.drop_last()) + pools.last().staked
    }
}

proof fn lemma_staked_sum_update(pools: Seq<SubPool>, i: int, p: SubPool)
    requires
        0 <= i < pools.len(),
    ensures
        staked_sum(pools.update(i, p)) == staked_sum(pools) - pools[i].staked + p.staked,
    decreases pools.len(),
{
    let u = pools.update(i, p);
    if i == pools.len() - 1 {
        assert(u.drop_last() =~= pools.drop_last());
    } else {
        lemma_staked_sum_update(pools.drop_last(), i, p);
        assert(u.drop_last() =~= pools.drop_last().update(i, p));
    }
}

/// Each pool can take back all its stake into its unstaked balance without overflow.
pub open spec fn can_absorb_unstakes(pools: Seq<SubPool>) -> bool {
    forall|j: int| 0 <= j < pools.len() ==> #[trigger] pools[j].unstaked + pools[j].staked <= u128::MAX
}

proof fn lemma_weight_sum_push(pools: Seq<SubPool>, p: SubPool)
    ensures
        weight_sum(pools.push(p)) == weight_sum(pools) + p.weight_basis_points,
{
    assert(pools.push(p).drop_last() =~= pools);
}

proof fn lemma_weight_sum_update(pools: Seq<SubPool>, i: int, p: SubPool)
    requires
        0 <= i < pools.len(),
    ensures
        weight_sum(pools.update(i, p)) == weight_sum(pools) - pools[i].weight_basis_points
            + p.weight_basis_points,
    decreases pools.len(),
{
    let u = pools.update(i, p);
    if i == pools.len() - 1 {
        assert(u.drop_last() =~= pools.drop_last());
    } else {
        lemma_weight_sum_update(pools.drop_last(), i, p);
        assert(u.drop_last() =~= pools.drop_last().update(i, p));
    }
}

proof fn lemma_weight_sum_bounds(pools: Seq<SubPool>, i: int)
    requires
        0 <= i < pools.len(),
    ensures
        pools[i].weight_basis_points <= weight_sum(pools),
        weight_sum(pools) >= 0,
    decreases pools.len(),
{
    lemma_weight_sum_nonneg(pools.drop_last());
    if i < pools.len() - 1 {
        lemma_weight_sum_bounds(pools.drop_last(), i);
    }
}

proof fn lemma_weight_sum_nonneg(pools: Seq<SubPool>)
    ensures
        weight_sum(pools) >= 0,
    decreases pools.len(),
{
    if pools.len() > 0 {
        lemma_weight_sum_nonneg(pools.drop_last());
    }
}

/// The wide values of `weight * total` and `staked * 10000`.
fn weighted_terms(p: &SubPool, total: u128) -> (r: ((u128, u128), (u128, u128)))
    ensures
        wide_value(r.0.0, r.0.1) == p.weight_basis_points * total,
        wide_value(r.1.0, r.1.1) == p.staked * BASIS_POINTS,
        r.0.0 < 0x1_0000,
        r.1.0 < 0x1_0000,
{
    let target = mul_wide(p.weight_basis_points as u128, total);
    let actual = mul_wide(p.staked, BASIS_POINTS as u128);
    proof {
        let w = p.weight_basis_points as int;
        let s = p.staked as int;
        assert(target.0 < 0x1_0000) by (nonlinear_arith)
            requires
                target.0 * base128() + target.1 == w * total,
                w < 0x1_0000,
                total < base128(),
                target.1 >= 0,
                target.0 >= 0,
        ;
        assert(actual.0 < 0x1_0000) by (nonlinear_arith)
            requires
                actual.0 * base128() + actual.1 == s * 10000,
                s < base128(),
                actual.1 >= 0,
                actual.0 >= 0,
        ;
    }
    (target, actual)
}

/// Whether pool `a` is further below its target than pool `b`.
fn deviation_exceeds(a: &SubPool, b: &SubPool, total: u128) -> (r: bool)
    ensures
        r == (deviation(*a, total) > deviation(*b, total)),
{
    let (ta, sa) = weighted_terms(a, total);
    let (tb, sb) = weighted_terms(b, total);
    let left = wide_add(tb, sa);
    let right = wide_add(ta, sb);
    wide_lt(left, right)
}

/// Whether pool `p` is below its target.
fn deviation_positive(p: &SubPool, total: u128) -> (r: bool)
    ensures
        r == (deviation(*p, total) > 0),
{
    let (t, s) = weighted_terms(p, total);
    wide_lt(s, t)
}

/// A pool may receive stake when it has a weight and is below its target.
pub open spec fn stake_candidate(p: SubPool, total: u128) -> bool {
    p.weight_basis_points > 0 && deviation(p, total) > 0
}

/// A pool may give back stake when it holds some.
pub open spec fn unstake_candidate(p: SubPool) -> bool {
    p.staked > 0
}

/// The sub-pools, with weights that never add up to more than 100%.
pub struct PoolSet {
    pools: Vec<SubPool>,
}

impl PoolSet {
    pub closed spec fn view(&self) -> Seq<SubPool> {
        self.pools@
    }

    pub open spec fn wf(&self) -> bool {
        weight_sum(self@) <= BASIS_POINTS
    }

    pub fn new() -> (r: PoolSet)
        ensures
            r.wf(),
            r@ == Seq::<SubPool>::empty(),
    {
        PoolSet { pools: Vec::new() }
    }

    pub fn len(&self) -> (r: usize)
        ensures
            r == self@.len(),
    {
        self.pools.len()
    }

    pub fn get(&self, i: usize) -> (r: &SubPool)
        requires
            i < self@.len(),
        ensures
            *r == self@[i as int],
    {
        &self.pools[i]
    }

    /// Adds a pool with nothing staked; refused if the weights would exceed 100%.
    pub fn add_pool(&mut self, account_id: String, weight_basis_points: u16) -> (r: Result<
        (),
        DiversifierError,
    >)
        requires
            old(self).wf(),
        ensures
            final(self).wf(),
            r is Err <==> weight_sum(old(self)@) + weight_basis_points > BASIS_POINTS,
            r is Err ==> r == Err::<(), DiversifierError>(DiversifierError::WeightsAboveTotal)
                && final(self)@ == old(self)@,
            r is Ok ==> final(self)@.len() == old(self)@.len() + 1 && final(self)@.drop_last()
                == old(self)@ && ({
                let p = final(self)@.last();
                &&& p.account_id == account_id
                &&& p.weight_basis_points == weight_basis_points
                &&& p.staked == 0
                &&& p.unstaked == 0
                &&& p.unstaked_requested_epoch_height == 0
                &&& p.last_asked_rewards_epoch_height == 0
            }),
    {
        let current = self.weight_total();
        if weight_basis_points > BASIS_POINTS - current {
            return Err(DiversifierError::WeightsAboveTotal);
        }
        let p = SubPool {
            account_id,
            weight_basis_points,
            staked: 0,
            unstaked: 0,
            unstaked_requested_epoch_height: 0,
            last_asked_rewards_epoch_height: 0,
        };
        proof {
            lemma_weight_sum_push(self.pools@, p);
        }
        self.pools.push(p);
        proof {
            assert(self.pools@.drop_last() =~= old(self).pools@);
        }
        Ok(())
    }

    /// Sum of the weights.
    pub fn weight_total(&self) -> (r: u16)
        requires
            self.wf(),
        ensures
            r == weight_sum(self@),
    {
        let mut sum: u16 = 0;
        let mut i: usize = 0;
        while i < self.pools.len()
            invariant
                i <= self.pools.len(),
                weight_sum(self.pools@) <= BASIS_POINTS,
                sum == weight_sum(self.pools@.subrange(0, i as int)),
            decreases self.pools.len() - i,
        {
            proof {
                let sub = self.pools@.subrange(0, i as int + 1);
                assert(sub.drop_last() =~= self.pools@.subrange(0, i as int));
                lemma_weight_sum_prefix(self.pools@, i as int + 1);
            }
            sum = sum + self.pools[i].weight_basis_points;
            i = i + 1;
        }
        proof {
            assert(self.pools@.subrange(0, i as int) =~= self.pools@);
        }
        sum
    }

    /// Changes the weight of pool `i`; refused if the weights would exceed 100%.
    pub fn set_weight(&mut self, i: usize, weight_basis_points: u16) -> (r: Result<(), DiversifierError>)
        requires
            old(self).wf(),
        ensures
            final(self).wf(),
            r == Err::<(), DiversifierError>(DiversifierError::NoSuchPool) <==> i >= old(self)@.len(),
            r == Err::<(), DiversifierError>(DiversifierError::WeightsAboveTotal) <==> (i < old(
                self,
            )@.len() && weight_sum(old(self)@) - old(self)@[i as int].weight_basis_points
                + weight_basis_points > BASIS_POINTS),
            r is Err ==> final(self)@ == old(self)@ && (r == Err::<(), DiversifierError>(
                DiversifierError::NoSuchPool) || r == Err::<(), DiversifierError>(
                DiversifierError::WeightsAboveTotal)),
            r is Ok ==> final(self)@ == old(self)@.update(
                i as int,
                SubPool { weight_basis_points, ..old(self)@[i as int] },
            ),
    {
        if i >= self.pools.len() {
            return Err(DiversifierError::NoSuchPool);
        }
        let current = self.weight_total();
        proof {
            lemma_weight_sum_bounds(self.pools@, i as int);
        }
        let others = current - self.pools[i].weight_basis_points;
        if weight_basis_points > BASIS_POINTS - others {
            return Err(DiversifierError::WeightsAboveTotal);
        }
        proof {
            lemma_weight_sum_update(
                self.pools@,
                i as int,
                SubPool { weight_basis_points, ..self.pools@[i as int] },
            );
        }
        self.pools[i].weight_basis_points = weight_basis_points;
        proof {
            assert(self.pools@ =~= old(self).pools@.update(
                i as int,
                SubPool { weight_basis_points, ..old(self).pools@[i as int] },
            ));
        }
        Ok(())
    }

    /// The pool to stake into next: among pools with a weight that are below target, the one
    /// furthest below, the lowest index among equals. `None` when no pool qualifies.
    pub fn choose_stake_pool(&self, total_staked: u128) -> (r: Option<usize>)
        ensures
            r is None <==> forall|j: int|
                0 <= j < self@.len() ==> !stake_candidate(#[trigger] self@[j], total_staked),
            r matches Some(i) ==> {
                &&& i < self@.len()
                &&& stake_candidate(self@[i as int], total_staked)
                &&& forall|j: int|
                    0 <= j < self@.len() && stake_candidate(#[trigger] self@[j], total_staked)
                        ==> deviation(self@[j], total_staked) <= deviation(self@[i as int], total_staked)
                &&& forall|j: int|
                    0 <= j < i && stake_candidate(#[trigger] self@[j], total_staked)
                        ==> deviation(self@[j], total_staked) < deviation(self@[i as int], total_staked)
            },
    {
        let mut best: Option<usize> = None;
        let mut k: usize = 0;
        while k < self.pools.len()
            invariant
                k <= self.pools.len(),
                best is None <==> forall|j: int|
                    0 <= j < k ==> !stake_candidate(#[trigger] self.pools@[j], total_staked),
                best matches Some(i) ==> {
                    &&& i < k
                    &&& stake_candidate(self.pools@[i as int], total_staked)
                    &&& forall|j: int|
                        0 <= j < k && stake_candidate(#[trigger] self.pools@[j], total_staked)
                            ==> deviation(self.pools@[j], total_staked) <= deviation(
                            self.pools@[i as int],
                            total_staked,
                        )
                    &&& forall|j: int|
                        0 <= j < i && stake_candidate(#[trigger] self.pools@[j], total_staked)
                            ==> deviation(self.pools@[j], total_staked) < deviation(
                            self.pools@[i as int],
                            total_staked,
                        )
                },
            decreases self.pools.len() - k,
        {
            let p = &self.pools[k];
            if p.weight_basis_points > 0 && deviation_positive(p, total_staked) {
                match best {
                    None => {
                        best = Some(k);
                    },
                    Some(b) => {
                        if deviation_exceeds(p, &self.pools[b], total_staked) {
                            best = Some(k);
                        }
                    },
                }
            }
            k = k + 1;
        }
        proof {
            assert(self@ =~= self.pools@);
        }
        best
    }

    /// The pool to unstake from next: among pools that hold stake, the one furthest above
    /// its target, the lowest index among equals. `None` when no pool holds stake.
    pub fn choose_unstake_pool(&self, total_staked: u128) -> (r: Option<usize>)
        ensures
            r is None <==> forall|j: int|
                0 <= j < self@.len() ==> !unstake_candidate(#[trigger] self@[j]),
            r matches Some(i) ==> {
                &&& i < self@.len()
                &&& unstake_candidate(self@[i as int])
                &&& forall|j: int|
                    0 <= j < self@.len() && unstake_candidate(#[trigger] self@[j])
                        ==> deviation(self@[i as int], total_staked) <= deviation(self@[j], total_staked)
                &&& forall|j: int|
                    0 <= j < i && unstake_candidate(#[trigger] self@[j])
                        ==> deviation(self@[i as int], total_staked) < deviation(self@[j], total_staked)
            },
    {
        let mut best: Option<usize> = None;
        let mut k: usize = 0;
        while k < self.pools.len()
            invariant
                k <= self.pools.len(),
                best is None <==> forall|j: int|
                    0 <= j < k ==> !unstake_candidate(#[trigger] self.pools@[j]),
                best matches Some(i) ==> {
                    &&& i < k
                    &&& unstake_candidate(self.pools@[i as int])
                    &&& forall|j: int|
                        0 <= j < k && unstake_candidate(#[trigger] self.pools@[j])
                            ==> deviation(self.pools@[i as int], total_staked) <= deviation(
                            self.pools@[j],
                            total_staked,
                        )
                    &&& forall|j: int|
                        0 <= j < i && unstake_candidate(#[trigger] self.pools@[j])
                            ==> deviation(self.pools@[i as int], total_staked) < deviation(
                            self.pools@[j],
                            total_staked,
                        )
                },
            decreases self.pools.len() - k,
        {
            let p = &self.pools[k];
            if p.staked > 0 {
                match best {
                    None => {
                        best = Some(k);
                    },
                    Some(b) => {
                        if deviation_exceeds(&self.pools[b], p, total_staked) {
                            best = Some(k);
                        }
                    },
                }
            }
            k = k + 1;
        }
        proof {
            assert(self@ =~= self.pools@);
        }
        best
    }

    /// Records `amount` staked into pool `i`.
    pub fn record_stake(&mut self, i: usize, amount: u128) -> (r: Result<(), DiversifierError>)
        requires
            old(self).wf(),
        ensures
            final(self).wf(),
            r == Err::<(), DiversifierError>(DiversifierError::NoSuchPool) <==> i >= old(self)@.len(),
            r == Err::<(), DiversifierError>(DiversifierError::Overflow) <==> (i < old(self)@.len()
                && old(self)@[i as int].staked + amount > u128::MAX),
            r is Err ==> final(self)@ == old(self)@ && (r == Err::<(), DiversifierError>(
                DiversifierError::NoSuchPool) || r == Err::<(), DiversifierError>(
                DiversifierError::Overflow)),
            r is Ok ==> final(self)@ == old(self)@.update(
                i as int,
                SubPool { staked: (old(self)@[i as int].staked + amount) as u128, ..old(self)@[i as int] },
            ),
    {
        if i >= self.pools.len() {
            return Err(DiversifierError::NoSuchPool);
        }
        let staked = match self.pools[i].staked.checked_add(amount) {
            Some(v) => v,
            None => return Err(DiversifierError::Overflow),
        };
        proof {
            lemma_weight_sum_update(self.pools@, i as int, SubPool { staked, ..self.pools@[i as int] });
        }
        self.pools[i].staked = staked;
        proof {
            assert(self.pools@ =~= old(self).pools@.update(
                i as int,
                SubPool { staked, ..old(self).pools@[i as int] },
            ));
        }
        Ok(())
    }

    /// Unstakes up to `amount` from pool `i`, capped by what it holds; the pool's wait for
    /// its unstaked funds restarts at `current_epoch`. Returns the amount taken, from which
    /// the caller cascades the rest to the next pool.
    pub fn record_unstake(&mut self, i: usize, amount: u128, current_epoch: EpochHeight) -> (r: Result<
        u128,
        DiversifierError,
    >)
        requires
            old(self).wf(),
        ensures
            final(self).wf(),
            r == Err::<u128, DiversifierError>(DiversifierError::NoSuchPool) <==> i >= old(self)@.len(),
            r == Err::<u128, DiversifierError>(DiversifierError::Overflow) <==> (i < old(self)@.len()
                && old(self)@[i as int].unstaked + min(amount as int, old(self)@[i as int].staked as int) > u128::MAX),
            r is Err ==> final(self)@ == old(self)@ && (r == Err::<u128, DiversifierError>(
                DiversifierError::NoSuchPool) || r == Err::<u128, DiversifierError>(
                DiversifierError::Overflow)),
            r matches Ok(taken) ==> {
                let p = old(self)@[i as int];
                &&& taken == min(amount as int, p.staked as int)
                &&& final(self)@ == old(self)@.update(
                    i as int,
                    SubPool {
                        staked: (p.staked - taken) as u128,
                        unstaked: (p.unstaked + taken) as u128,
                        unstaked_requested_epoch_height: current_epoch,
                        ..p
                    },
                )
            },
    {
        if i >= self.pools.len() {
            return Err(DiversifierError::NoSuchPool);
        }
        let taken = if amount < self.pools[i].staked {
            amount
        } else {
            self.pools[i].staked
        };
        let unstaked = match self.pools[i].unstaked.checked_add(taken) {
            Some(v) => v,
            None => return Err(DiversifierError::Overflow),
        };
        let staked = self.pools[i].staked - taken;
        let ghost p2 = SubPool {
            staked,
            unstaked,
            unstaked_requested_epoch_height: current_epoch,
            ..self.pools@[i as int]
        };
        proof {
            lemma_weight_sum_update(self.pools@, i as int, p2);
        }
        self.pools[i].staked = staked;
        self.pools[i].unstaked = unstaked;
        self.pools[i].unstaked_requested_epoch_height = current_epoch;
        proof {
            assert(self.pools@ =~= old(self).pools@.update(i as int, p2));
        }
        Ok(taken)
    }

    /// Unstakes `amount` across the pools: from the most over-allocated pool first, as much
    /// as it holds, the rest cascading to the next, until the amount is covered or no pool
    /// holds stake. Refused, with nothing changed, unless every pool can take back all its
    /// stake without overflow. Returns the amount unstaked.
    pub fn unstake_cascade(&mut self, total_staked: u128, amount: u128, current_epoch: EpochHeight) -> (r:
        Result<u128, DiversifierError>)
        requires
            old(self).wf(),
        ensures
            final(self).wf(),
            r is Err <==> !can_absorb_unstakes(old(self)@),
            r is Err ==> r == Err::<u128, DiversifierError>(DiversifierError::Overflow)
                && final(self)@ == old(self)@,
            r matches Ok(taken) ==> {
                &&& taken <= amount
                &&& final(self)@.len() == old(self)@.len()
                &&& staked_sum(final(self)@) == staked_sum(old(self)@) - taken
                &&& taken < amount ==> forall|j: int|
                    0 <= j < final(self)@.len() ==> (#[trigger] final(self)@[j]).staked == 0
            },
    {
        let mut k: usize = 0;
        while k < self.pools.len()
            invariant
                k <= self.pools.len(),
                self.wf(),
                self.pools@ == old(self).pools@,
                forall|j: int|
                    0 <= j < k ==> #[trigger] self.pools@[j].unstaked + self.pools@[j].staked <= u128::MAX,
            decreases self.pools.len() - k,
        {
            if self.pools[k].unstaked > u128::MAX - self.pools[k].staked {
                proof {
                    assert(self@ =~= self.pools@);
                    assert(old(self)@ =~= old(self).pools@);
                }
                return Err(DiversifierError::Overflow);
            }
            k = k + 1;
        }
        proof {
            assert(self@ =~= self.pools@);
        }
        let mut taken: u128 = 0;
        let mut exhausted = false;
        while taken < amount && !exhausted
            invariant
                self.wf(),
                taken <= amount,
                self@.len() == old(self)@.len(),
                can_absorb_unstakes(self@),
                staked_sum(self@) == staked_sum(old(self)@) - taken,
                exhausted ==> forall|j: int| 0 <= j < self@.len() ==> !unstake_candidate(#[trigger] self@[j]),
            decreases amount - taken + if exhausted { 0int } else { 1int },
        {
            match self.choose_unstake_pool(total_staked) {
                None => {
                    exhausted = true;
                },
                Some(i) => {
                    let ghost before = self@;
                    assert(self@[i as int].unstaked + self@[i as int].staked <= u128::MAX);
                    match self.record_unstake(i, amount - taken, current_epoch) {
                        Ok(t) => {
                            proof {
                                let p = before[i as int];
                                lemma_staked_sum_update(
                                    before,
                                    i as int,
                                    SubPool {
                                        staked: (p.staked - t) as u128,
                                        unstaked: (p.unstaked + t) as u128,
                                        unstaked_requested_epoch_height: current_epoch,
                                        ..p
                                    },
                                );
                                assert forall|j: int| 0 <= j < self@.len() implies #[trigger] self@[j].unstaked
                                    + self@[j].staked <= u128::MAX by {
                                    if j != i {
                                        assert(self@[j] == before[j]);
                                    }
                                }
                            }
                            taken = taken + t;
                        },
                        Err(e) => {
                            return Err(e);
                        },
                    }
                },
            }
        }
        Ok(taken)
    }
}

proof fn lemma_weight_sum_prefix(pools: Seq<SubPool>, n: int)
    requires
        0 <= n <= pools.len(),
    ensures
        weight_sum(pools.subrange(0, n)) <= weight_sum(pools),
    decreases pools.len(),
{
    if n < pools.len() {
        lemma_weight_sum_prefix(pools.drop_last(), n);
        assert(pools.drop_last().subrange(0, n) =~= pools.subrange(0, n));
    } else {
        assert(pools.subrange(0, n) =~= pools);
    }
}

} // verus!
