//! The node: protocol logic that ties identity, routing table, descriptor
//! store, peer exchange, rate limits and critical-message quorum together.
//! It handles envelopes and produces the envelopes to send, with no I/O.
pub mod config;
pub mod metrics;
pub mod node;
