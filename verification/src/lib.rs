//! Verified core of a multi-pool decentralized exchange: a constant-product
//! pool engine with exact integer deposit/withdraw/swap math, a
//! checkpoint-based reward-accrual engine, and a content-addressed pool
//! registry whose deployment addresses are derived by hashing.

pub mod errors;
pub mod table;
pub mod rewards;
pub mod pool;
pub mod hashing;
pub mod pool_utils;
pub mod stableswap;
pub mod laws;
