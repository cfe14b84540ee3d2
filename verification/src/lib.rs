//! Pooled-asset investment vault: share accounting, rule evaluation,
//! rebalancing, and constant-product market math.
//!
//! The vault holds a list of assets (index 0 is the base asset, the unit of
//! account), mints proportional ownership shares on deposit, burns them on
//! withdrawal, and periodically reallocates its holdings among the assets,
//! a staking venue, and liquidity pools according to declarative rules.
//!
//! External venues (token contracts, pools, staking pools) are represented by
//! explicit model state on plain values: addresses are `u32` identifiers,
//! amounts are `i128`, timestamps are `u64`. The host platform that performs
//! authorization, persistence and the actual cross-contract calls sits outside
//! this crate and hands it plain values.

pub mod amm;
pub mod engine;
pub mod errors;
pub mod factory;
pub mod liquidity;
pub mod nft;
pub mod pool;
pub mod rebalance;
pub mod staking;
pub mod token;
pub mod types;
pub mod vault;
