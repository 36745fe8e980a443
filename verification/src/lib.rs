//! Verified core of the Howm P2P-CD node: wire types, scope reconciliation,
//! capability intersection, CBOR message framing and the decision logic of
//! the daemon.

pub mod bridge;
pub mod capabilities;
pub mod capability_keys;
pub mod codec;
pub mod config;
pub mod encoding;
pub mod engine;
pub mod cbor;
pub mod cbor_value;
pub mod intersection;
pub mod key_order;
pub mod manifest;
pub mod manifest_keys;
pub mod message;
pub mod message_keys;
pub mod message_types;
pub mod notify;
pub mod params;
pub mod paths;
pub mod peers;
pub mod profile;
pub mod punch;
pub mod round_trip;
pub mod scope;
pub mod scope_keys;
pub mod sorting;
pub mod tailnet;
pub mod strings;
pub mod stun;
pub mod wire;
pub mod wireguard;
pub mod text;
pub mod routing;
pub mod proxy;
pub mod watchdog;
pub mod addressing;
