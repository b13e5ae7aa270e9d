//! Verified logic of two contracts around a liquidity pool: the staking of LP
//! tokens for rewards, and the receipt tokens of concentrated-liquidity
//! positions.

pub mod address;
pub mod cl_position_nft;
pub mod invocation;
pub mod staking;
