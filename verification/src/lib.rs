//! A crowdfunding escrow state machine.
//!
//! Contributors deposit a designated asset while a campaign is open; once the
//! deadline passes, either the goal was met — the owner may trigger a single
//! pre-registered deferred action and contributors claim the held balance pro
//! rata — or it was missed, and deposits are refunded pro rata in batches.
//!
//! The funding ledger, the rule guards, the transitions and the settlement
//! arithmetic are fully specified and verified. The hosting layer (storage,
//! message encoding, balance queries, address validation) supplies plain
//! values at the boundary: the current time, the caller, the attached funds
//! and the held balance come in as arguments, and outgoing transfer
//! instructions go back out as values.

pub mod contract;
mod error;
pub mod execute;
pub mod laws;
pub mod msg;
mod order;
mod payout;
pub mod queries;
pub mod rules;
pub mod state;

pub use crate::error::ContractError;
