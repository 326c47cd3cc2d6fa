//! Core engine of a button-clicker chat bot: a persistent per-user score
//! store, an interactive single-owner play session that increments the score
//! once per accepted click, an identity reconciler that keeps cached profile
//! fields in sync with the authoritative upstream identity, and a leaderboard
//! engine that ranks all users by score.
//!
//! The chat gateway, the real persisted backend, and all rendering are
//! external collaborators; this crate holds the decision and bookkeeping
//! logic they drive, each function with a verified contract.

use vstd::prelude::*;

pub mod record;
pub mod store;
pub mod reconcile;
pub mod events;
pub mod session;
pub mod leaderboard;
pub mod profile;

verus! {

/// Process configuration handed to the bootstrap code: the gateway token,
/// an optional channel for operational log messages, and the address of
/// the persisted store.
pub struct Config {
    pub token: String,
    pub log_channel_id: Option<u64>,
    pub store_uri: String,
}

} // verus!
