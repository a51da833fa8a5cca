use vstd::prelude::*;

pub mod api;
pub mod bft;
pub mod client;
pub mod codec;
pub mod crypto;
pub mod dns;
pub mod encoding;
pub mod errors;
pub mod fetch;
pub mod gossip;
pub mod invite;
pub mod join;
pub mod node;
pub mod overlay;
pub mod proxy;
pub mod relay;
pub mod serve;
pub mod server;
pub mod signing;
pub mod sim;
pub mod slots;
pub mod text;
pub mod types;
pub mod node_id;
pub mod wire;

verus! {
}
