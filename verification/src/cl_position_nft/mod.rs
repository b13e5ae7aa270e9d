//! Receipt tokens for concentrated-liquidity positions.
//!
//! Each token stands for an open position: a pool, a lower tick and an upper
//! tick. Only the registered pool may mint and burn tokens; it mints one when a
//! position opens and burns it when the position closes.

pub mod contract;
pub mod guarantees;
pub mod history;
pub mod laws;
pub mod model;
pub mod token_list;
