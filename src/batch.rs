use crate::types::{MAX_NEARS_SINGLE_MOVEMENT, NEARS_PER_BATCH};
use vstd::prelude::*;

verus! {

/// Sum of a sequence of amounts.
pub open spec fn total(s: Seq<u128>) -> int
    decreases s.len(),
{
    if s.len() == 0 {
        0
    } else {
        total(s.drop_last()) + s.last()
    }
}

proof fn lemma_total_push(s: Seq<u128>, x: u128)
    ensures
        total(s.push(x)) == total(s) + x,
{
    assert(s.push(x).drop_last() =~= s);
}

/// The part of `remaining` to move in the next call: all of it up to the single-movement
/// limit, one batch otherwise.
pub fn next_movement(remaining: u128) -> (r: u128)
    ensures
        r == if remaining > MAX_NEARS_SINGLE_MOVEMENT {
            NEARS_PER_BATCH
        } else {
            remaining
        },
        r <= remaining,
{
    if remaining > MAX_NEARS_SINGLE_MOVEMENT {
        NEARS_PER_BATCH
    } else {
        remaining
    }
}

/// Splits `amount` into chunks of `ceiling`, the last one carrying the rest.
pub fn plan_batches(amount: u128, ceiling: u128) -> (r: Vec<u128>)
    requires
        ceiling > 0,
    ensures
        total(r@) == amount,
        forall|i: int| 0 <= i < r.len() ==> 0 < #[trigger] r[i] <= ceiling,
        forall|i: int| 0 <= i < r.len() - 1 ==> #[trigger] r[i] == ceiling,
{
    let mut chunks: Vec<u128> = Vec::new();
    let mut remaining: u128 = amount;
    while remaining > 0
        invariant
            ceiling > 0,
            total(chunks@) + remaining == amount,
            forall|i: int| 0 <= i < chunks.len() ==> 0 < #[trigger] chunks[i] <= ceiling,
            forall|i: int| 0 <= i < chunks.len() - 1 ==> #[trigger] chunks[i] == ceiling,
            remaining > 0 ==> forall|i: int| 0 <= i < chunks.len() ==> #[trigger] chunks[i] == ceiling,
        decreases remaining,
    {
        let chunk = if remaining > ceiling {
            ceiling
        } else {
            remaining
        };
        proof {
            lemma_total_push(chunks@, chunk);
        }
        chunks.push(chunk);
        remaining = remaining - chunk;
    }
    chunks
}

} // verus!
