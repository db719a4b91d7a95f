use vstd::prelude::*;

verus! {

/// One native token, in its smallest units.
pub const ONE_NEAR: u128 = 1_000_000_000_000_000_000_000_000;

/// Size of each chunk when a large movement is split.
pub const NEARS_PER_BATCH: u128 = 100_000 * ONE_NEAR;

/// Largest movement sent as one call; anything above is split into batches.
pub const MAX_NEARS_SINGLE_MOVEMENT: u128 = NEARS_PER_BATCH + NEARS_PER_BATCH / 2;

/// Epochs between an unstake request and the funds being withdrawable.
pub const NUM_EPOCHS_TO_UNLOCK: u64 = 4;

/// Owner fee on rewards by default: 0.5%.
pub const DEFAULT_OWNER_FEE_BASIS_POINTS: u16 = 50;

/// Basis points in a whole.
pub const BASIS_POINTS: u16 = 10_000;

/// Timestamp in nanoseconds.
pub type TimestampNano = u64;

/// Epoch height of the host chain.
pub type EpochHeight = u64;

/// Fee on rewards as a fraction.
#[derive(Clone, Copy)]
pub struct RewardFeeFraction {
    pub numerator: u32,
    pub denominator: u32,
}

} // verus!
