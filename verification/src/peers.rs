//! Known peers of this node.
use vstd::prelude::*;

verus! {

/// A known peer.
#[derive(Debug, Clone)]
pub struct Peer {
    pub node_id: String,
    pub name: String,
    /// WG public key (identity).
    pub wg_pubkey: String,
    /// 10.47.x.y (how to reach them on wg0).
    pub wg_address: String,
    /// Public addr:port.
    pub wg_endpoint: String,
    /// Daemon API port (on their WG address).
    pub port: u16,
    pub last_seen: u64,
    /// Former address field, ignored on load and not written.
    pub address: Option<String>,
}

} // verus!
