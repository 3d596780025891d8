//! Accounting and matching core of a pooled-liquidity conversion service.
//!
//! Users deposit a base asset into a shared pool and receive proportional
//! ownership shares; conversion requests are matched oldest-first against a
//! FIFO queue of share holders, crediting them with target-asset claims and
//! base-asset rewards.  All ledger state lives in an explicit [`state::State`]
//! value that is passed into every operation; the host environment performs
//! the surrounding message plumbing and persistence.

pub mod arith;
pub mod coins;
pub mod error;
pub mod queue;
pub mod state;
pub mod msg;
pub mod contract;
pub mod laws;
pub mod staking;
