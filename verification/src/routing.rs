//! Where capability traffic goes: the registry of out-of-process capability
//! endpoints, the notifications a session change sends, the capability an
//! inbound message or RPC request is delivered to, the in-process handler a
//! capability message is dispatched to, and the heartbeat a session runs.
use vstd::prelude::*;

use crate::addressing::PeerAddr;
use crate::capabilities::{route_by_name, route_by_type, CapabilityContext, CapabilityHandler, CapabilityRouter};
use crate::config::CapabilityConfig;
use crate::encoding::{b64_decode, b64_encode, base64_decoded, base64_encoded};
use crate::engine::{removed_capabilities, removed_names, SessionPhase, SessionView};
use crate::intersection::{copy_texts, heartbeat_name, texts_model};
use crate::manifest::PeerId;
use crate::message_types::RPC_REQ;
use crate::notify::{model_url, CapabilityEndpoint, EndpointModel, InboundMessage, PeerActivePayload, PeerInactivePayload};
use crate::params::{params_get, ParamsMap};
use crate::scope::{ScopeModel, ScopeParams, ScopeTerm};
use crate::strings::text_eq;
use crate::text::{lemma_split_on_len, split_on, split_text, views};
use crate::wire::CloseReason;

verus! {

/// The endpoint registered for a capability name in a registration list:
/// the last one registered under that name.
pub open spec fn lookup(eps: Seq<EndpointModel>, name: Seq<char>) -> Option<EndpointModel>
    decreases eps.len(),
{
    if eps.len() == 0 {
        None
    } else if eps.last().cap_name == name {
        Some(eps.last())
    } else {
        lookup(eps.drop_last(), name)
    }
}

/// A registration list without the entries for `name`.
pub open spec fn without_name(eps: Seq<EndpointModel>, name: Seq<char>) -> Seq<EndpointModel>
    decreases eps.len(),
{
    if eps.len() == 0 {
        Seq::empty()
    } else if eps.last().cap_name == name {
        without_name(eps.drop_last(), name)
    } else {
        without_name(eps.drop_last(), name).push(eps.last())
    }
}

proof fn lemma_lookup_without(eps: Seq<EndpointModel>, name: Seq<char>, n: Seq<char>)
    ensures
        lookup(without_name(eps, name), n) == (if n == name {
            None
        } else {
            lookup(eps, n)
        }),
    decreases eps.len(),
{
    if eps.len() > 0 {
        lemma_lookup_without(eps.drop_last(), name, n);
        if eps.last().cap_name != name {
            assert(without_name(eps, name).drop_last() =~= without_name(eps.drop_last(), name));
        }
    }
}

/// The models of a list of endpoints.
pub open spec fn endpoint_models(v: Seq<CapabilityEndpoint>) -> Seq<EndpointModel> {
    v.map_values(|e: CapabilityEndpoint| e.model())
}

/// The capability endpoints registered with the notifier, by capability name.
#[derive(Debug)]
pub struct EndpointRegistry {
    endpoints: Vec<CapabilityEndpoint>,
}

impl EndpointRegistry {
    /// The endpoint registered for a capability name, if any.
    pub closed spec fn endpoint(&self, name: Seq<char>) -> Option<EndpointModel> {
        lookup(endpoint_models(self.endpoints@), name)
    }

    /// A registry with no endpoint.
    pub fn new() -> (r: Self)
        ensures
            forall|n: Seq<char>| #[trigger] r.endpoint(n) is None,
    {
        let r = EndpointRegistry { endpoints: Vec::new() };
        assert(endpoint_models(r.endpoints@) =~= Seq::<EndpointModel>::empty());
        r
    }

    /// Remove the endpoint of a capability (on stop or uninstall).
    pub fn unregister(&mut self, cap_name: &str)
        ensures
            forall|n: Seq<char>|
                #[trigger] final(self).endpoint(n) == (if n == cap_name@ {
                    None
                } else {
                    old(self).endpoint(n)
                }),
    {
        let ghost orig = endpoint_models(self.endpoints@);
        assert(orig.len() == self.endpoints.len());
        let mut i: usize = 0;
        let mut j: usize = 0;
        assert(orig.take(0) =~= Seq::<EndpointModel>::empty());
        assert(endpoint_models(self.endpoints@) =~= without_name(orig.take(0), cap_name@) + orig.skip(0));
        while i < self.endpoints.len()
            invariant
                i <= self.endpoints.len(),
                j <= orig.len(),
                orig.len() <= usize::MAX,
                without_name(orig.take(j as int), cap_name@).len() == i,
                endpoint_models(self.endpoints@) == without_name(orig.take(j as int), cap_name@) + orig.skip(j as int),
            decreases self.endpoints.len() - i,
        {
            let ghost before = endpoint_models(self.endpoints@);
            let ghost done = without_name(orig.take(j as int), cap_name@);
            assert(before.len() == i + orig.skip(j as int).len());
            assert(j < orig.len());
            assert(before[i as int] == orig[j as int]);
            assert(orig.take(j + 1).drop_last() =~= orig.take(j as int));
            assert(orig.take(j + 1).last() == orig[j as int]);
            if text_eq(self.endpoints[i].cap_name.as_str(), cap_name) {
                let ghost vb = self.endpoints@;
                self.endpoints.remove(i);
                assert(self.endpoints@ == vb.remove(i as int));
                assert(endpoint_models(self.endpoints@) =~= before.remove(i as int));
                assert(without_name(orig.take(j + 1), cap_name@) == done);
                assert(before.remove(i as int) =~= done + orig.skip(j + 1));
                assert(endpoint_models(self.endpoints@) =~= without_name(orig.take(j + 1), cap_name@) + orig.skip(j + 1));
            } else {
                assert(without_name(orig.take(j + 1), cap_name@) == done.push(orig[j as int]));
                assert(endpoint_models(self.endpoints@) =~= without_name(orig.take(j + 1), cap_name@) + orig.skip(j + 1));
                i = i + 1;
            }
            j = j + 1;
        }
        assert(j == orig.len()) by {
            assert(endpoint_models(self.endpoints@).len() == i + orig.skip(j as int).len());
        }
        assert(orig.take(j as int) =~= orig);
        assert(endpoint_models(self.endpoints@) =~= without_name(orig, cap_name@));
        proof {
            assert forall|n: Seq<char>| #[trigger] lookup(endpoint_models(self.endpoints@), n) == (if n == cap_name@ {
                None
            } else {
                lookup(orig, n)
            }) by {
                lemma_lookup_without(orig, cap_name@, n);
            }
        }
    }

    /// Register a capability endpoint reached at its port on localhost, or
    /// at `url_override` when given; it replaces any endpoint registered for
    /// the same capability.
    pub fn register_with_url(&mut self, cap_name: String, port: u16, url_override: Option<String>)
        ensures
            forall|n: Seq<char>|
                #[trigger] final(self).endpoint(n) == (if n == cap_name@ {
                    Some(
                        EndpointModel {
                            cap_name: cap_name@,
                            port,
                            url_override: match url_override {
                                Some(u) => Some(u@),
                                None => None,
                            },
                        },
                    )
                } else {
                    old(self).endpoint(n)
                }),
    {
        let ghost before = *self;
        self.unregister(cap_name.as_str());
        let ghost after = *self;
        let ghost mid = endpoint_models(self.endpoints@);
        let ep = CapabilityEndpoint { cap_name, port, url_override };
        let ghost m = ep.model();
        self.endpoints.push(ep);
        assert(endpoint_models(self.endpoints@) =~= mid.push(m));
        assert forall|n: Seq<char>| #[trigger] lookup(mid.push(m), n) == (if n == m.cap_name {
            Some(m)
        } else {
            lookup(mid, n)
        }) by {
            assert(mid.push(m).drop_last() =~= mid);
        }
        assert forall|n: Seq<char>| #[trigger] self.endpoint(n) == (if n == m.cap_name {
            Some(m)
        } else {
            before.endpoint(n)
        }) by {
            assert(lookup(mid.push(m), n) == self.endpoint(n));
            assert(after.endpoint(n) == lookup(mid, n));
        }
    }

    /// Register a capability endpoint reached at its port on localhost.
    pub fn register(&mut self, cap_name: String, port: u16)
        ensures
            forall|n: Seq<char>|
                #[trigger] final(self).endpoint(n) == (if n == cap_name@ {
                    Some(EndpointModel { cap_name: cap_name@, port, url_override: None })
                } else {
                    old(self).endpoint(n)
                }),
    {
        self.register_with_url(cap_name, port, None);
    }

    /// The endpoint registered for a capability, if any.
    pub fn get(&self, cap_name: &str) -> (r: Option<&CapabilityEndpoint>)
        ensures
            match r {
                Some(e) => self.endpoint(cap_name@) == Some(e.model()),
                None => self.endpoint(cap_name@) is None,
            },
    {
        let ghost all = endpoint_models(self.endpoints@);
        let mut i: usize = self.endpoints.len();
        assert(all.take(i as int) =~= all);
        while i > 0
            invariant
                i <= self.endpoints.len(),
                all == endpoint_models(self.endpoints@),
                lookup(all, cap_name@) == lookup(all.take(i as int), cap_name@),
            decreases i,
        {
            assert(all.take(i as int).drop_last() =~= all.take(i - 1));
            assert(all.take(i as int).last() == self.endpoints@[i - 1].model());
            if text_eq(self.endpoints[i - 1].cap_name.as_str(), cap_name) {
                return Some(&self.endpoints[i - 1]);
            }
            i = i - 1;
        }
        None
    }
}

/// The first capability of `caps` that has a registered endpoint.
pub open spec fn first_registered(reg: EndpointRegistry, caps: Seq<Seq<char>>) -> Option<Seq<char>>
    decreases caps.len(),
{
    if caps.len() == 0 {
        None
    } else if reg.endpoint(caps[0]) is Some {
        Some(caps[0])
    } else {
        first_registered(reg, caps.drop_first())
    }
}

proof fn lemma_first_registered_is_registered(reg: EndpointRegistry, caps: Seq<Seq<char>>)
    ensures
        first_registered(reg, caps) matches Some(c) ==> reg.endpoint(c) is Some && caps.contains(c),
    decreases caps.len(),
{
    if caps.len() > 0 && reg.endpoint(caps[0]) is None {
        lemma_first_registered_is_registered(reg, caps.drop_first());
        if first_registered(reg, caps.drop_first()) is Some {
            let c = first_registered(reg, caps.drop_first())->0;
            let k = choose|k: int| 0 <= k < caps.drop_first().len() && caps.drop_first()[k] == c;
            assert(caps[k + 1] == c);
        }
    } else if caps.len() > 0 {
        assert(caps[0] == caps[0]);
    }
}

/// The index of the first capability of `caps` with a registered endpoint.
fn first_registered_index(reg: &EndpointRegistry, caps: &Vec<String>) -> (r: Option<usize>)
    ensures
        match first_registered(*reg, texts_model(caps@)) {
            None => r is None,
            Some(c) => r matches Some(i) && i < caps.len() && caps@[i as int]@ == c,
        },
{
    let ghost all = texts_model(caps@);
    let mut i: usize = 0;
    assert(all.skip(0) =~= all);
    while i < caps.len()
        invariant
            i <= caps.len(),
            all == texts_model(caps@),
            first_registered(*reg, all) == first_registered(*reg, all.skip(i as int)),
        decreases caps.len() - i,
    {
        assert(all.skip(i as int)[0] == caps@[i as int]@);
        assert(all.skip(i as int).drop_first() =~= all.skip(i + 1));
        if reg.get(caps[i].as_str()).is_some() {
            return Some(i);
        }
        i = i + 1;
    }
    None
}

/// The message forwarded to a capability for an inbound capability message.
fn inbound_message(peer_id: &PeerId, message_type: u64, payload: &[u8], capability: String) -> (m: InboundMessage)
    ensures
        m.peer_id@ == base64_encoded(peer_id@),
        m.message_type == message_type,
        m.payload@ == base64_encoded(payload@),
        m.capability@ == capability@,
{
    InboundMessage {
        peer_id: b64_encode(peer_id.as_slice()),
        message_type,
        payload: b64_encode(payload),
        capability,
    }
}

/// Where an inbound capability message without an in-process handler is
/// forwarded: to the `/p2pcd/inbound` URL of the first capability of the
/// active set that has a registered endpoint, as a message for that
/// capability; nowhere when none has.
pub fn inbound_delivery(
    reg: &EndpointRegistry,
    peer_id: &PeerId,
    message_type: u64,
    payload: &[u8],
    active_set: &Vec<String>,
) -> (r: Option<(String, InboundMessage)>)
    ensures
        match first_registered(*reg, texts_model(active_set@)) {
            None => r is None,
            Some(cap) => r matches Some((url, m)) && url@ == model_url(reg.endpoint(cap)->0, "/p2pcd/inbound"@)
                && m.capability@ == cap && m.peer_id@ == base64_encoded(peer_id@) && m.message_type == message_type
                && m.payload@ == base64_encoded(payload@),
        },
{
    proof {
        lemma_first_registered_is_registered(*reg, texts_model(active_set@));
    }
    match first_registered_index(reg, active_set) {
        None => None,
        Some(i) => {
            let cap = active_set[i].clone();
            match reg.get(cap.as_str()) {
                Some(ep) => {
                    let url = ep.url("/p2pcd/inbound");
                    Some((url, inbound_message(peer_id, message_type, payload, cap)))
                },
                None => None,
            }
        },
    }
}

/// Attempts made to forward an inbound message to a capability.
pub const INBOUND_ATTEMPTS: u32 = 4;

/// The wait before each attempt of an inbound forward, in milliseconds:
/// none before the first, then 100, 500 and 2000.
pub open spec fn inbound_attempt_delay(attempt: int) -> u64 {
    if attempt <= 0 {
        0
    } else if attempt == 1 {
        100
    } else if attempt == 2 {
        500
    } else {
        2000
    }
}

/// What follows one attempt of an inbound forward.
#[derive(Debug, Clone, Copy, PartialEq, Eq, Structural)]
pub enum DeliveryStep {
    /// The capability answered with a success status: done.
    Delivered,
    /// Wait this many milliseconds, then try again.
    RetryAfter(u64),
    /// The last attempt failed: the message is dropped.
    GaveUp,
}

/// The next step after attempt `attempt` (from 0) of forwarding an inbound
/// message, given whether the capability answered with a success status.
/// Any other answer and a failed request are both retried, up to
/// `INBOUND_ATTEMPTS` attempts in all.
pub fn inbound_delivery_step(attempt: u32, delivered: bool) -> (r: DeliveryStep)
    requires
        attempt < INBOUND_ATTEMPTS,
    ensures
        delivered ==> r == DeliveryStep::Delivered,
        !delivered && attempt + 1 < INBOUND_ATTEMPTS ==> r == DeliveryStep::RetryAfter(inbound_attempt_delay(attempt + 1)),
        !delivered && attempt + 1 == INBOUND_ATTEMPTS ==> r == DeliveryStep::GaveUp,
{
    if delivered {
        DeliveryStep::Delivered
    } else if attempt == 0 {
        DeliveryStep::RetryAfter(100)
    } else if attempt == 1 {
        DeliveryStep::RetryAfter(500)
    } else if attempt == 2 {
        DeliveryStep::RetryAfter(2000)
    } else {
        DeliveryStep::GaveUp
    }
}

/// The first dotted component of an RPC method name.
pub open spec fn method_prefix(method: Seq<char>) -> Seq<char> {
    split_on(method, '.')[0]
}

/// The capability that owns the RPC methods with a given prefix.
pub open spec fn rpc_owner(prefix: Seq<char>) -> Option<Seq<char>> {
    if prefix == "dm"@ || prefix == "conversation"@ {
        Some("howm.social.messaging.1"@)
    } else if prefix == "catalogue"@ || prefix == "blob"@ {
        Some("howm.social.files.1"@)
    } else if prefix == "voice"@ {
        Some("howm.social.voice.1"@)
    } else if prefix == "feed"@ || prefix == "post"@ {
        Some("howm.social.feed.1"@)
    } else if prefix == "presence"@ {
        Some("howm.social.presence.1"@)
    } else if prefix == "room"@ || prefix == "world"@ {
        Some("howm.world.room.1"@)
    } else {
        None
    }
}

/// The capability an RPC method owns, by its prefix.
pub fn rpc_owner_of(method: &str) -> (r: Option<&'static str>)
    ensures
        match rpc_owner(method_prefix(method@)) {
            Some(c) => r matches Some(s) && s@ == c,
            None => r is None,
        },
{
    let parts = split_text(method, '.');
    proof {
        lemma_split_on_len(method@, '.');
    }
    let prefix = parts[0].as_str();
    assert(prefix@ == method_prefix(method@));
    if text_eq(prefix, "dm") || text_eq(prefix, "conversation") {
        Some("howm.social.messaging.1")
    } else if text_eq(prefix, "catalogue") || text_eq(prefix, "blob") {
        Some("howm.social.files.1")
    } else if text_eq(prefix, "voice") {
        Some("howm.social.voice.1")
    } else if text_eq(prefix, "feed") || text_eq(prefix, "post") {
        Some("howm.social.feed.1")
    } else if text_eq(prefix, "presence") {
        Some("howm.social.presence.1")
    } else if text_eq(prefix, "room") || text_eq(prefix, "world") {
        Some("howm.world.room.1")
    } else {
        None
    }
}

/// The capability an RPC request is forwarded to: the owner of its method
/// when the method has a known owner (only if the peer's active set holds
/// it and it has an endpoint); otherwise the first capability of the active
/// set with an endpoint.
pub open spec fn rpc_route(reg: EndpointRegistry, method: Seq<char>, active: Seq<Seq<char>>) -> Option<Seq<char>> {
    match rpc_owner(method_prefix(method)) {
        Some(p) => if active.contains(p) && reg.endpoint(p) is Some {
            Some(p)
        } else {
            None
        },
        None => first_registered(reg, active),
    }
}

fn has_text(items: &Vec<String>, s: &str) -> (r: bool)
    ensures
        r == texts_model(items@).contains(s@),
{
    let mut i: usize = 0;
    while i < items.len()
        invariant
            i <= items.len(),
            forall|k: int| 0 <= k < i ==> items@[k]@ != s@,
        decreases items.len() - i,
    {
        if text_eq(items[i].as_str(), s) {
            assert(texts_model(items@)[i as int] == s@);
            return true;
        }
        i = i + 1;
    }
    proof {
        if texts_model(items@).contains(s@) {
            let k = choose|k: int| 0 <= k < texts_model(items@).len() && texts_model(items@)[k] == s@;
            assert(items@[k]@ == s@);
        }
    }
    false
}

/// What `serde_json` finds under a top-level key of a JSON text: `None`
/// when the text is not JSON, `Some(None)` when there is no string under the
/// key (no such key, or not an object), `Some(Some(s))` for the string `s`.
pub uninterp spec fn json_text_at(text: Seq<char>, key: Seq<char>) -> Option<Option<Seq<char>>>;

/// The string under a top-level key of a JSON document.
#[derive(Debug, Clone, PartialEq, Eq)]
pub enum JsonField {
    /// The text is not JSON.
    Invalid,
    /// No string under the key.
    NoField,
    /// The string under the key.
    Field(String),
}

/// Parses a JSON text with `serde_json::from_str` into a `Value` and reads
/// `get(key)` then `as_str()`. Claims: the result is `json_text_at` of the
/// text and key.
#[verifier::external_body]
fn json_field_text(text: &str, key: &str) -> (r: JsonField)
    ensures
        match r {
            JsonField::Invalid => json_text_at(text@, key@) is None,
            JsonField::NoField => json_text_at(text@, key@) == Some(None::<Seq<char>>),
            JsonField::Field(s) => json_text_at(text@, key@) == Some(Some(s@)),
        },
{
    match serde_json::from_str::<serde_json::Value>(text) {
        Err(_) => JsonField::Invalid,
        Ok(v) => match v.get(key) {
            Some(f) => match f.as_str() {
                Some(s) => JsonField::Field(s.to_owned()),
                None => JsonField::NoField,
            },
            None => JsonField::NoField,
        },
    }
}

/// Why a capability's answer to a forwarded RPC request gives no payload.
#[derive(Debug, Clone, Copy, PartialEq, Eq, Structural)]
pub enum RpcForwardError {
    /// The capability answered with a status that is not a success.
    Status,
    /// The answer's body is not JSON.
    InvalidJson,
    /// The `"response"` field is not base64.
    InvalidBase64,
}

/// The payload a capability's HTTP answer to a forwarded RPC request gives:
/// an error for a status that is not a success; nothing for an empty body;
/// otherwise the body is JSON whose `"response"` string is the base64 of
/// the payload (nothing when there is no such string).
pub open spec fn rpc_answer(success: bool, body: Seq<char>) -> Result<Seq<u8>, RpcForwardError> {
    if !success {
        Err(RpcForwardError::Status)
    } else if body.len() == 0 {
        Ok(Seq::empty())
    } else {
        match json_text_at(body, "response"@) {
            None => Err(RpcForwardError::InvalidJson),
            Some(None) => Ok(Seq::empty()),
            Some(Some(t)) => match base64_decoded(t) {
                None => Err(RpcForwardError::InvalidBase64),
                Some(b) => Ok(b),
            },
        }
    }
}

/// Read a capability's answer to a forwarded RPC request: whether its
/// status is a success, and its body text.
pub fn rpc_forward_answer(success: bool, body: &str) -> (r: Result<Vec<u8>, RpcForwardError>)
    ensures
        match rpc_answer(success, body@) {
            Ok(b) => r matches Ok(v) && v@ == b,
            Err(e) => r matches Err(x) && x == e,
        },
{
    if !success {
        return Err(RpcForwardError::Status);
    }
    if body.unicode_len() == 0 {
        return Ok(Vec::new());
    }
    match json_field_text(body, "response") {
        JsonField::Invalid => Err(RpcForwardError::InvalidJson),
        JsonField::NoField => Ok(Vec::new()),
        JsonField::Field(t) => match b64_decode(t.as_str()) {
            Err(_) => Err(RpcForwardError::InvalidBase64),
            Ok(b) => Ok(b),
        },
    }
}

/// Where an RPC request for `method` is forwarded: to the `/p2pcd/inbound`
/// URL of the capability `rpc_route` picks, as an RPC_REQ message for it.
pub fn rpc_delivery(
    reg: &EndpointRegistry,
    peer_id: &PeerId,
    method: &str,
    payload: &[u8],
    active_set: &Vec<String>,
) -> (r: Option<(String, InboundMessage)>)
    ensures
        match rpc_route(*reg, method@, texts_model(active_set@)) {
            None => r is None,
            Some(cap) => r matches Some((url, m)) && url@ == model_url(reg.endpoint(cap)->0, "/p2pcd/inbound"@)
                && m.capability@ == cap && m.peer_id@ == base64_encoded(peer_id@) && m.message_type == RPC_REQ
                && m.payload@ == base64_encoded(payload@),
        },
{
    match rpc_owner_of(method) {
        Some(owner) => {
            if !has_text(active_set, owner) {
                return None;
            }
            match reg.get(owner) {
                Some(ep) => {
                    let url = ep.url("/p2pcd/inbound");
                    Some((url, inbound_message(peer_id, RPC_REQ, payload, owner.to_owned())))
                },
                None => None,
            }
        },
        None => inbound_delivery(reg, peer_id, RPC_REQ, payload, active_set),
    }
}

/// Scope parameters with no limits and no extensions.
pub open spec fn no_limits() -> ScopeModel {
    ScopeModel { rate_limit: 0, ttl: 0, extensions: Map::empty() }
}

/// The agreed parameters of a capability, or no limits.
pub open spec fn params_or_default(params: Seq<(Seq<char>, ScopeModel)>, cap: Seq<char>) -> ScopeModel {
    match params_get(params, cap) {
        Some(m) => m,
        None => no_limits(),
    }
}

fn params_for(params: &ParamsMap, cap: &str) -> (r: ScopeParams)
    ensures
        r.model() == params_or_default(params.model(), cap@),
{
    match params.get(cap) {
        Some(p) => p.clone(),
        None => {
            let d = ScopeParams::default();
            assert(d.model().extensions =~= Map::<u64, ScopeTerm>::empty());
            d
        },
    }
}

/// The URL a notification for `cap` is posted to at `path`, if the
/// capability has an endpoint.
pub open spec fn notice_url(reg: EndpointRegistry, cap: Seq<char>, path: Seq<char>) -> Option<Seq<char>> {
    match reg.endpoint(cap) {
        Some(m) => Some(model_url(m, path)),
        None => None,
    }
}

fn url_for(reg: &EndpointRegistry, cap: &str, path: &str) -> (r: Option<String>)
    ensures
        match notice_url(*reg, cap@, path@) {
            Some(u) => r matches Some(s) && s@ == u,
            None => r is None,
        },
{
    match reg.get(cap) {
        Some(ep) => Some(ep.url(path)),
        None => None,
    }
}

/// The notifications of a peer becoming active: one per capability of the
/// active set, in order, with the URL to post it to when the capability has
/// an endpoint (each also goes to the in-process event bus).
pub fn peer_active_notices(
    reg: &EndpointRegistry,
    peer_id: &PeerId,
    wg_address: &str,
    active_set: &Vec<String>,
    params: &ParamsMap,
    active_since: u64,
) -> (r: Vec<(Option<String>, PeerActivePayload)>)
    ensures
        r.len() == active_set.len(),
        forall|i: int|
            0 <= i < r.len() ==> {
                let cap = #[trigger] active_set@[i]@;
                let (url, p) = r@[i];
                &&& p.capability@ == cap
                &&& p.peer_id@ == base64_encoded(peer_id@)
                &&& p.wg_address@ == wg_address@
                &&& p.scope.model() == params_or_default(params.model(), cap)
                &&& p.active_since == active_since
                &&& match notice_url(*reg, cap, "/p2pcd/peer-active"@) {
                    Some(u) => url matches Some(s) && s@ == u,
                    None => url is None,
                }
            },
{
    let peer_b64 = b64_encode(peer_id.as_slice());
    let mut out: Vec<(Option<String>, PeerActivePayload)> = Vec::new();
    let mut i: usize = 0;
    while i < active_set.len()
        invariant
            i <= active_set.len(),
            out.len() == i,
            peer_b64@ == base64_encoded(peer_id@),
            forall|k: int|
                0 <= k < i ==> {
                    let cap = #[trigger] active_set@[k]@;
                    let (url, p) = out@[k];
                    &&& p.capability@ == cap
                    &&& p.peer_id@ == base64_encoded(peer_id@)
                    &&& p.wg_address@ == wg_address@
                    &&& p.scope.model() == params_or_default(params.model(), cap)
                    &&& p.active_since == active_since
                    &&& match notice_url(*reg, cap, "/p2pcd/peer-active"@) {
                        Some(u) => url matches Some(s) && s@ == u,
                        None => url is None,
                    }
                },
        decreases active_set.len() - i,
    {
        let cap = active_set[i].as_str();
        let url = url_for(reg, cap, "/p2pcd/peer-active");
        let payload = PeerActivePayload {
            peer_id: peer_b64.clone(),
            wg_address: wg_address.to_owned(),
            capability: cap.to_owned(),
            scope: params_for(params, cap),
            active_since,
        };
        out.push((url, payload));
        i = i + 1;
    }
    out
}

/// The notifications of a peer becoming inactive: one per capability of the
/// given set, in order, with the URL to post it to when the capability has
/// an endpoint (each also goes to the in-process event bus).
pub fn peer_inactive_notices(
    reg: &EndpointRegistry,
    peer_id: &PeerId,
    active_set: &Vec<String>,
    reason: &str,
) -> (r: Vec<(Option<String>, PeerInactivePayload)>)
    ensures
        r.len() == active_set.len(),
        forall|i: int|
            0 <= i < r.len() ==> {
                let cap = #[trigger] active_set@[i]@;
                let (url, p) = r@[i];
                &&& p.capability@ == cap
                &&& p.peer_id@ == base64_encoded(peer_id@)
                &&& p.reason@ == reason@
                &&& match notice_url(*reg, cap, "/p2pcd/peer-inactive"@) {
                    Some(u) => url matches Some(s) && s@ == u,
                    None => url is None,
                }
            },
{
    let peer_b64 = b64_encode(peer_id.as_slice());
    let mut out: Vec<(Option<String>, PeerInactivePayload)> = Vec::new();
    let mut i: usize = 0;
    while i < active_set.len()
        invariant
            i <= active_set.len(),
            out.len() == i,
            peer_b64@ == base64_encoded(peer_id@),
            forall|k: int|
                0 <= k < i ==> {
                    let cap = #[trigger] active_set@[k]@;
                    let (url, p) = out@[k];
                    &&& p.capability@ == cap
                    &&& p.peer_id@ == base64_encoded(peer_id@)
                    &&& p.reason@ == reason@
                    &&& match notice_url(*reg, cap, "/p2pcd/peer-inactive"@) {
                        Some(u) => url matches Some(s) && s@ == u,
                        None => url is None,
                    }
                },
        decreases active_set.len() - i,
    {
        let cap = active_set[i].as_str();
        let url = url_for(reg, cap, "/p2pcd/peer-inactive");
        let payload = PeerInactivePayload {
            peer_id: peer_b64.clone(),
            capability: cap.to_owned(),
            reason: reason.to_owned(),
        };
        out.push((url, payload));
        i = i + 1;
    }
    out
}

/// Where an inbound capability message of a session is dispatched: to the
/// in-process handler of its type, with that capability's agreed parameters
/// (no limits when none were agreed); `None` means it is forwarded out of
/// process.
pub fn dispatch_target(router: &CapabilityRouter, accepted: &ParamsMap, message_type: u64) -> (r: Option<(String, ScopeParams)>)
    ensures
        match route_by_type(router.registered(), message_type) {
            Some(h) => r matches Some((name, p)) && name@ == h.name_model() && p.model() == params_or_default(
                accepted.model(),
                h.name_model(),
            ),
            None => r is None,
        },
{
    match router.handler_for_type(message_type) {
        Some(h) => {
            let name = h.capability_name();
            let params = params_for(accepted, name);
            Some((name.to_owned(), params))
        },
        None => None,
    }
}

/// Heartbeat timing when nothing configures it: (interval, timeout) in ms.
pub open spec fn default_heartbeat() -> (u64, u64) {
    (5000, 15000)
}

/// The heartbeat timing the configuration gives: the parameters of the
/// first configured heartbeat capability, or the defaults.
pub open spec fn configured_heartbeat(caps: Seq<(String, CapabilityConfig)>) -> (u64, u64)
    decreases caps.len(),
{
    if caps.len() == 0 {
        default_heartbeat()
    } else if caps[0].1.name@ == heartbeat_name() {
        match caps[0].1.params {
            Some(p) => (p.interval_ms, p.timeout_ms),
            None => default_heartbeat(),
        }
    } else {
        configured_heartbeat(caps.drop_first())
    }
}

/// The heartbeat a newly active session runs, as (interval, timeout) in
/// ms: none unless the heartbeat capability is in the active set.
pub fn session_heartbeat(active_set: &Vec<String>, capabilities: &Vec<(String, CapabilityConfig)>) -> (r: Option<(u64, u64)>)
    ensures
        r == (if texts_model(active_set@).contains(heartbeat_name()) {
            Some(configured_heartbeat(capabilities@))
        } else {
            None
        }),
{
    if !has_text(active_set, "core.session.heartbeat.1") {
        return None;
    }
    let ghost all = capabilities@;
    let mut i: usize = 0;
    assert(all.skip(0) =~= all);
    while i < capabilities.len()
        invariant
            i <= capabilities.len(),
            all == capabilities@,
            texts_model(active_set@).contains(heartbeat_name()),
            configured_heartbeat(all) == configured_heartbeat(all.skip(i as int)),
        decreases capabilities.len() - i,
    {
        assert(all.skip(i as int)[0] == capabilities@[i as int]);
        assert(all.skip(i as int).drop_first() =~= all.skip(i + 1));
        let c = &capabilities[i].1;
        if text_eq(c.name.as_str(), "core.session.heartbeat.1") {
            assert(all.skip(i as int)[0].1.name@ == heartbeat_name());
            assert(configured_heartbeat(all.skip(i as int)) == match c.params {
                Some(p) => (p.interval_ms, p.timeout_ms),
                None => default_heartbeat(),
            });
            return match &c.params {
                Some(p) => Some((p.interval_ms, p.timeout_ms)),
                None => Some((5000, 15000)),
            };
        }
        i = i + 1;
    }
    Some((5000, 15000))
}

/// The name a close reason is reported to capabilities under: its variant's name.
pub open spec fn close_reason_name(r: CloseReason) -> Seq<char> {
    match r {
        CloseReason::Normal => "Normal"@,
        CloseReason::NoMatch => "NoMatch"@,
        CloseReason::AuthFailure => "AuthFailure"@,
        CloseReason::VersionUnsupported => "VersionUnsupported"@,
        CloseReason::Timeout => "Timeout"@,
        CloseReason::Error => "Error"@,
    }
}

/// The name of a close reason.
pub fn reason_name(r: CloseReason) -> (s: &'static str)
    ensures
        s@ == close_reason_name(r),
{
    match r {
        CloseReason::Normal => "Normal",
        CloseReason::NoMatch => "NoMatch",
        CloseReason::AuthFailure => "AuthFailure",
        CloseReason::VersionUnsupported => "VersionUnsupported",
        CloseReason::Timeout => "Timeout",
        CloseReason::Error => "Error",
    }
}

/// What tearing down the session with a peer that became unreachable does.
#[derive(Debug)]
pub struct Teardown {
    /// Send CLOSE with the reason first (the session was active).
    pub send_close: bool,
    /// The capabilities of the session's active set to deactivate.
    pub deactivate: Vec<String>,
    /// The inactive notices for them, reported with the reason's name.
    pub notices: Vec<(Option<String>, PeerInactivePayload)>,
}

/// Tear down the session with a peer (if there is one): CLOSE goes out only
/// on an active session; every capability of its active set is deactivated
/// and notified inactive with the reason's name.
pub fn teardown_plan(reg: &EndpointRegistry, peer_id: &PeerId, session: Option<&SessionView>, reason: CloseReason) -> (r: Teardown)
    ensures
        r.send_close == (session matches Some(s) && s.phase == SessionPhase::Active),
        match session {
            None => r.deactivate@.len() == 0 && r.notices@.len() == 0,
            Some(s) => {
                &&& texts_model(r.deactivate@) == texts_model(s.active_set@)
                &&& r.notices.len() == s.active_set.len()
                &&& forall|i: int|
                    0 <= i < r.notices.len() ==> {
                        let cap = #[trigger] s.active_set@[i]@;
                        let (url, p) = r.notices@[i];
                        &&& p.capability@ == cap
                        &&& p.peer_id@ == base64_encoded(peer_id@)
                        &&& p.reason@ == close_reason_name(reason)
                        &&& match notice_url(*reg, cap, "/p2pcd/peer-inactive"@) {
                            Some(u) => url matches Some(x) && x@ == u,
                            None => url is None,
                        }
                    }
            },
        },
{
    match session {
        None => Teardown { send_close: false, deactivate: Vec::new(), notices: Vec::new() },
        Some(s) => {
            let send_close = s.phase == SessionPhase::Active;
            let deactivate = copy_texts(&s.active_set);
            let notices = peer_inactive_notices(reg, peer_id, &s.active_set, reason_name(reason));
            Teardown { send_close, deactivate, notices }
        },
    }
}

/// The capabilities of a list that the router has a handler for, each with
/// its agreed parameters (no limits when none were agreed), in order: the
/// handlers activated when a session becomes active (or deactivated when
/// it ends).
pub open spec fn activations(
    handlers: Seq<crate::capabilities::CoreHandler>,
    caps: Seq<Seq<char>>,
    params: Seq<(Seq<char>, ScopeModel)>,
) -> Seq<(Seq<char>, ScopeModel)>
    decreases caps.len(),
{
    if caps.len() == 0 {
        Seq::empty()
    } else {
        let rest = activations(handlers, caps.drop_last(), params);
        if route_by_name(handlers, caps.last()) is Some {
            rest.push((caps.last(), params_or_default(params, caps.last())))
        } else {
            rest
        }
    }
}

/// The contexts the router's handlers are activated (or deactivated) with
/// for a peer's capabilities.
pub fn activation_contexts(
    router: &CapabilityRouter,
    peer_id: &PeerId,
    caps: &Vec<String>,
    accepted: &ParamsMap,
) -> (r: Vec<CapabilityContext>)
    ensures
        r@.map_values(|c: CapabilityContext| (c.capability_name@, c.params.model())) == activations(
            router.registered(),
            texts_model(caps@),
            accepted.model(),
        ),
        forall|i: int| 0 <= i < r.len() ==> (#[trigger] r@[i]).peer_id == *peer_id,
{
    let ghost all = texts_model(caps@);
    let mut out: Vec<CapabilityContext> = Vec::new();
    let mut i: usize = 0;
    assert(all.take(0) =~= Seq::<Seq<char>>::empty());
    assert(out@.map_values(|c: CapabilityContext| (c.capability_name@, c.params.model())) =~= Seq::<(Seq<char>, ScopeModel)>::empty());
    while i < caps.len()
        invariant
            i <= caps.len(),
            all == texts_model(caps@),
            out@.map_values(|c: CapabilityContext| (c.capability_name@, c.params.model())) == activations(
                router.registered(),
                all.take(i as int),
                accepted.model(),
            ),
            forall|k: int| 0 <= k < out.len() ==> (#[trigger] out@[k]).peer_id == *peer_id,
        decreases caps.len() - i,
    {
        let ghost before = out@.map_values(|c: CapabilityContext| (c.capability_name@, c.params.model()));
        assert(all.take(i + 1).drop_last() =~= all.take(i as int));
        assert(all.take(i + 1).last() == caps@[i as int]@);
        let cap = caps[i].as_str();
        if router.handler_by_name(cap).is_some() {
            let ctx = CapabilityContext { peer_id: *peer_id, params: params_for(accepted, cap), capability_name: cap.to_owned() };
            let ghost m = (ctx.capability_name@, ctx.params.model());
            out.push(ctx);
            assert(out@.map_values(|c: CapabilityContext| (c.capability_name@, c.params.model())) =~= before.push(m));
        }
        i = i + 1;
    }
    assert(all.take(i as int) =~= all);
    out
}

/// `r` holds the active notices of `peer_id` at `wg_address` for the
/// capabilities `caps`, in order: each with the peer's base64 id, its
/// agreed parameters (no limits when none were agreed), the activation
/// time, and the URL of the capability's endpoint when it has one.
pub open spec fn active_notices_for(
    r: Seq<(Option<String>, PeerActivePayload)>,
    reg: EndpointRegistry,
    peer_id: PeerId,
    wg_address: Seq<char>,
    caps: Seq<Seq<char>>,
    params: Seq<(Seq<char>, ScopeModel)>,
    active_since: u64,
) -> bool {
    &&& r.len() == caps.len()
    &&& forall|i: int|
        0 <= i < r.len() ==> {
            let cap = #[trigger] caps[i];
            let (url, p) = r[i];
            &&& p.capability@ == cap
            &&& p.peer_id@ == base64_encoded(peer_id@)
            &&& p.wg_address@ == wg_address
            &&& p.scope.model() == params_or_default(params, cap)
            &&& p.active_since == active_since
            &&& match notice_url(reg, cap, "/p2pcd/peer-active"@) {
                Some(u) => url matches Some(s) && s@ == u,
                None => url is None,
            }
        }
}

/// `r` holds the inactive notices of `peer_id` for the capabilities `caps`,
/// in order, with `reason`, each with the URL of the capability's endpoint
/// when it has one.
pub open spec fn inactive_notices_for(
    r: Seq<(Option<String>, PeerInactivePayload)>,
    reg: EndpointRegistry,
    peer_id: PeerId,
    caps: Seq<Seq<char>>,
    reason: Seq<char>,
) -> bool {
    &&& r.len() == caps.len()
    &&& forall|i: int|
        0 <= i < r.len() ==> {
            let cap = #[trigger] caps[i];
            let (url, p) = r[i];
            &&& p.capability@ == cap
            &&& p.peer_id@ == base64_encoded(peer_id@)
            &&& p.reason@ == reason
            &&& match notice_url(reg, cap, "/p2pcd/peer-inactive"@) {
                Some(u) => url matches Some(s) && s@ == u,
                None => url is None,
            }
        }
}

/// The notifications that finish a session's setup: the active notices for
/// its active set when the peer's WG address resolved (`wg_address`), and
/// none when it did not.
pub fn setup_notices(
    reg: &EndpointRegistry,
    peer_id: &PeerId,
    wg_address: Option<&str>,
    active_set: &Vec<String>,
    params: &ParamsMap,
    active_since: u64,
) -> (r: Vec<(Option<String>, PeerActivePayload)>)
    ensures
        match wg_address {
            None => r@.len() == 0,
            Some(a) => active_notices_for(r@, *reg, *peer_id, a@, texts_model(active_set@), params.model(), active_since),
        },
{
    match wg_address {
        None => Vec::new(),
        Some(a) => {
            let r = peer_active_notices(reg, peer_id, a, active_set, params, active_since);
            assert forall|i: int| 0 <= i < r@.len() implies #[trigger] texts_model(active_set@)[i] == active_set@[i]@ by {}
            r
        },
    }
}

/// What a rebroadcast does with one active peer.
#[derive(Debug, Clone, Copy, PartialEq, Eq)]
pub enum RebroadcastStep {
    /// Leave the peer alone.
    Skip,
    /// Open a fresh connection to this address and re-run the exchange.
    Exchange(PeerAddr),
}

/// The first step of a rebroadcast to one peer: a peer whose transport is
/// still open, or whose session is gone, is skipped; otherwise the exchange
/// is re-run at its address, and the peer is skipped when that address does
/// not resolve.
pub fn rebroadcast_step(sender_alive: bool, session: Option<&SessionView>, addr: Option<PeerAddr>) -> (r: RebroadcastStep)
    ensures
        r == (if sender_alive || session is None {
            RebroadcastStep::Skip
        } else {
            match addr {
                Some(a) => RebroadcastStep::Exchange(a),
                None => RebroadcastStep::Skip,
            }
        }),
{
    if sender_alive || session.is_none() {
        return RebroadcastStep::Skip;
    }
    match addr {
        Some(a) => RebroadcastStep::Exchange(a),
        None => RebroadcastStep::Skip,
    }
}

/// The notices after a successful re-exchange with a peer: the capabilities
/// of the old active set that the new one lacks are notified inactive with
/// the reason `re-exchange`; the others stay active, so nothing is sent
/// when none was removed.
pub fn rebroadcast_notices(
    reg: &EndpointRegistry,
    peer_id: &PeerId,
    old_active: &Vec<String>,
    new_active: &Vec<String>,
) -> (r: Vec<(Option<String>, PeerInactivePayload)>)
    ensures
        inactive_notices_for(
            r@,
            *reg,
            *peer_id,
            removed_names(texts_model(old_active@), texts_model(new_active@)),
            "re-exchange"@,
        ),
{
    let removed = removed_capabilities(old_active, new_active);
    let r = peer_inactive_notices(reg, peer_id, &removed, "re-exchange");
    assert forall|i: int| 0 <= i < r@.len() implies #[trigger] texts_model(removed@)[i] == removed@[i]@ by {}
    r
}

} // verus!
