//! Accounting core of a liquid-staking pool: widened fixed-point arithmetic, vesting
//! schedules, the share ledger, diversification over sub-pools, batch planning and the
//! epoch-gated unlock of unstaked funds.

pub mod batch;
pub mod diversifier;
pub mod fixed_point;
pub mod ledger;
pub mod types;
pub mod unlock;
pub mod vesting;
pub mod views;
