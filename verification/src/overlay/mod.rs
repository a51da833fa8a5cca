//! Overlay logic: XOR routing, critical-message forks and quorum, peer
//! exchange, repair targets, rate limits, recovery and the descriptor store.
pub mod critical;
pub mod descriptor_store;
pub mod limits;
pub mod pex;
pub mod recovery;
pub mod repair;
pub mod xor;
