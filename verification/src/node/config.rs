//! Runtime configuration of a node.
use vstd::prelude::*;
use crate::node_id::NodeId;
use crate::types::reach::SocketAddr;

verus! {

/// A bootstrap peer: its address and the node id it must prove.
#[derive(Clone, Debug)]
pub struct BootstrapPeer {
    pub addr: SocketAddr,
    pub node_id: NodeId,
}

/// Runtime configuration of a node.
#[derive(Clone, Debug)]
pub struct NodeConfig {
    /// Overlay listener address.
    pub listen_addr: SocketAddr,
    /// Peers contacted on startup.
    pub bootstrap: Vec<BootstrapPeer>,
    /// Number of G-slots (typically 3).
    pub max_greedy: usize,
    /// Epoch seed of the repair targets.
    pub epoch_seed: u64,
    /// Keep-alive interval in seconds.
    pub keepalive_secs: u64,
    /// Repair tick interval in seconds.
    pub repair_secs: u64,
}

impl NodeConfig {
    /// The default configuration for a listener address: no bootstrap
    /// peers, three G-slots, seed 0, keep-alive every 30 s, repair every
    /// 60 s.
    pub fn new(listen_addr: SocketAddr) -> (c: NodeConfig)
        ensures
            c.listen_addr == listen_addr,
            c.bootstrap@.len() == 0,
            c.max_greedy == 3,
            c.epoch_seed == 0,
            c.keepalive_secs == 30,
            c.repair_secs == 60,
    {
        NodeConfig {
            listen_addr,
            bootstrap: Vec::new(),
            max_greedy: 3,
            epoch_seed: 0,
            keepalive_secs: 30,
            repair_secs: 60,
        }
    }
}

} // verus!
