//! Reward campaign population for a parachain reward pallet: loading a
//! campaign and its contributors, computing each contributor's share of a
//! fixed reward pool, and sequencing the transactions that register them.

pub mod arith;
pub mod decimal;
pub mod error;
pub mod campaign;
pub mod reward;
pub mod calls;
pub mod pipeline;
