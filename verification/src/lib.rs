//! A verified core for an on-chain arbitrage engine: 256-bit word arithmetic,
//! constant-product (V2) and concentrated-liquidity (V3) pool simulation,
//! tick bitmap search, storage-slot decoding and caching, and the decisions
//! of pool discovery.

pub mod word;
pub mod v3_math;
pub mod tick_bitmap;
pub mod token;
pub mod v2_pool;
pub mod changes;
pub mod cache;
pub mod bytes;
pub mod storage;
pub mod v3_pool;
pub mod v3_swap;
pub mod abi;
pub mod executor;
pub mod registry;
pub mod chain;
pub mod fee;
pub mod monitor;
pub mod evm;
pub mod tick_lens;
pub mod protocols;
pub mod execution;
