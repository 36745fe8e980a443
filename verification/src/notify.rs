//! Notifications to capabilities: the payloads posted to them, the events of
//! the in-process event bus, and where a capability endpoint is reached.
use vstd::prelude::*;

use crate::scope::ScopeParams;
use crate::strings::{push_decimal, push_str};

verus! {

/// Payload sent to a capability when a peer becomes active for it.
#[derive(Debug)]
pub struct PeerActivePayload {
    /// Base64-encoded WireGuard public key (= peer_id).
    pub peer_id: String,
    /// Peer's WireGuard IP address (for the capability to connect directly).
    pub wg_address: String,
    /// Capability name this notification is for.
    pub capability: String,
    /// Agreed scope params for this capability (may be default/zero).
    pub scope: ScopeParams,
    /// Unix timestamp of when the session became ACTIVE.
    pub active_since: u64,
}

/// Payload sent to a capability when a peer is no longer available.
#[derive(Debug)]
pub struct PeerInactivePayload {
    pub peer_id: String,
    pub capability: String,
    pub reason: String,
}

/// Payload forwarded to a capability when an inbound CapabilityMsg arrives
/// that has no in-process handler (i.e. app-level message types).
#[derive(Debug)]
pub struct InboundMessage {
    /// Base64-encoded 32-byte peer ID of the sender.
    pub peer_id: String,
    /// Message type number.
    pub message_type: u64,
    /// Base64-encoded payload bytes.
    pub payload: String,
    /// Capability name this message belongs to.
    pub capability: String,
}

/// A registered capability endpoint that receives peer notifications.
#[derive(Debug)]
pub struct CapabilityEndpoint {
    /// Capability name (e.g. "howm.social.feed.1").
    pub cap_name: String,
    /// Local port the capability is listening on.
    pub port: u16,
    /// Optional full base URL override (points at a mock server in tests).
    /// When set, overrides the default `http://127.0.0.1:<port>` base.
    pub url_override: Option<String>,
}

/// Mathematical model of a capability endpoint.
pub struct EndpointModel {
    pub cap_name: Seq<char>,
    pub port: u16,
    pub url_override: Option<Seq<char>>,
}

/// The URL of `path` at an endpoint: under its override base if it has one,
/// else under `http://127.0.0.1:<port>`.
pub open spec fn model_url(ep: EndpointModel, path: Seq<char>) -> Seq<char> {
    match ep.url_override {
        Some(base) => base + path,
        None => "http://127.0.0.1:"@ + crate::strings::decimal(ep.port as nat) + path,
    }
}

/// The URL of `path` at an endpoint.
pub open spec fn endpoint_url(ep: CapabilityEndpoint, path: Seq<char>) -> Seq<char> {
    model_url(ep.model(), path)
}

impl CapabilityEndpoint {
    pub open spec fn model(&self) -> EndpointModel {
        EndpointModel {
            cap_name: self.cap_name@,
            port: self.port,
            url_override: match self.url_override {
                Some(u) => Some(u@),
                None => None,
            },
        }
    }

    /// The URL of `path` (such as `/p2pcd/peer-active`) at this endpoint.
    pub fn url(&self, path: &str) -> (r: String)
        ensures
            r@ == endpoint_url(*self, path@),
    {
        let mut s = match &self.url_override {
            Some(base) => base.clone(),
            None => {
                let mut b = "http://127.0.0.1:".to_owned();
                push_decimal(&mut b, self.port as u64);
                b
            },
        };
        push_str(&mut s, path);
        s
    }
}

/// All events the daemon emits to capabilities over the event stream.
#[derive(Debug)]
pub enum CapEvent {
    PeerActive {
        peer_id: String,
        wg_address: String,
        capability: String,
        scope: ScopeParams,
        active_since: u64,
    },
    PeerInactive { peer_id: String, capability: String, reason: String },
    Inbound { peer_id: String, capability: String, message_type: u64, payload: String },
}

/// The stream event name of an event.
pub open spec fn event_name_of(e: CapEvent) -> Seq<char> {
    match e {
        CapEvent::PeerActive { .. } => "peer-active"@,
        CapEvent::PeerInactive { .. } => "peer-inactive"@,
        CapEvent::Inbound { .. } => "inbound"@,
    }
}

/// The stream event name of an event.
pub fn event_name(e: &CapEvent) -> (r: &'static str)
    ensures
        r@ == event_name_of(*e),
{
    match e {
        CapEvent::PeerActive { .. } => "peer-active",
        CapEvent::PeerInactive { .. } => "peer-inactive",
        CapEvent::Inbound { .. } => "inbound",
    }
}

/// The capability an event concerns.
pub open spec fn event_capability(e: CapEvent) -> Seq<char> {
    match e {
        CapEvent::PeerActive { capability, .. } => capability@,
        CapEvent::PeerInactive { capability, .. } => capability@,
        CapEvent::Inbound { capability, .. } => capability@,
    }
}

/// Whether an event goes to a stream subscribed for `capability`.
pub fn event_matches(e: &CapEvent, capability: &str) -> (r: bool)
    ensures
        r == (event_capability(*e) == capability@),
{
    match e {
        CapEvent::PeerActive { capability: c, .. } => crate::strings::text_eq(c.as_str(), capability),
        CapEvent::PeerInactive { capability: c, .. } => crate::strings::text_eq(c.as_str(), capability),
        CapEvent::Inbound { capability: c, .. } => crate::strings::text_eq(c.as_str(), capability),
    }
}

} // verus!
