//! Relays near-real-time vehicle-position events from an external transit
//! feed to live subscribers through a broker, with a verified wire codec,
//! feed-parsing policy, consumer state machine, and broadcast hub model.

pub mod codec;
pub mod config;
pub mod producer;
pub mod consumer;
pub mod feed;
pub mod hub;
pub mod vehicle;
pub mod wire;

use vstd::prelude::*;

verus! {

/// Body of the diagnostics reply that reports how many messages are stored.
pub struct MessageInfo {
    pub nb: u64,
}

/// Body of a plain-text service reply.
pub struct ApiResponse {
    pub message: String,
}

} // verus!
