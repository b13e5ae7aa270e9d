//! LP staking with rewards.
//!
//! Liquidity providers stake their LP tokens to earn reward tokens. Rewards are
//! accounted for per share, so that a claim takes one computation whatever the
//! number of stakers. A staker may lock the stake for a boost of one to four
//! times: the boost applies to the effective amount that rewards are shared out
//! by, and leaves the LP tokens themselves alone.

pub mod contract;
pub mod guarantees;
pub mod history;
pub mod laws;
pub mod model;
