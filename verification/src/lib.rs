//! Time-weighted staking reward ledgers with exact integer accrual.
//!
//! Two pools share one accumulator design. A fixed-rate pool pays a second
//! asset to its stakers, pro rata to stake and time. A share pool grows the
//! staked asset itself and hands out shares of the growing balance.

pub mod asset;
pub mod errors;
pub mod fixed_rate;
pub mod reward_pool;
pub mod math;
pub mod share_pool;
pub mod bond;
