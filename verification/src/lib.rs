//! Stake registration, pool and resolution engine for cross-asset escrow.
//!
//! Deposited assets are tracked per staker in a ledger, bound to pools whose
//! payout graph routes each stake to a receiver per losing outcome, and moved
//! out of custody through a transfer-and-confirm protocol whose effects are
//! committed only when the asset contract acknowledges them.

pub mod character;
pub mod contract;
pub mod error;
pub mod keyed;
pub mod laws;
pub mod ledger;
pub mod level;
pub mod pool;
pub mod resolution;
pub mod search;
pub mod staking;
pub mod token;
