use howm::capabilities::CapabilityContext;
use howm::intersection::{compute_intersection, compute_intersection_legacy};
use howm::manifest::{CapabilityDeclaration, DiscoveryManifest, PeerId};
use howm::message_types;
use howm::scope::{ClassificationTier, ScopeParams, ScopeValue, TrustPolicy};
use howm::scope_keys;
use howm::wire::{CloseReason, MessageType, Role};
use std::collections::HashSet;

// ── Role::matches ──────────────────────────────────────────────────────────

#[test]
fn role_provide_consume_matches() {
    assert!(Role::Provide.matches(&Role::Consume, false, false));
    assert!(Role::Consume.matches(&Role::Provide, false, false));
}

#[test]
fn role_both_provide_matches() {
    assert!(Role::Both.matches(&Role::Provide, false, false));
    assert!(Role::Provide.matches(&Role::Both, false, false));
}

#[test]
fn role_both_consume_matches() {
    assert!(Role::Both.matches(&Role::Consume, false, false));
    assert!(Role::Consume.matches(&Role::Both, false, false));
}

#[test]
fn role_both_both_requires_mutual() {
    assert!(!Role::Both.matches(&Role::Both, false, false));
    assert!(!Role::Both.matches(&Role::Both, true, false));
    assert!(!Role::Both.matches(&Role::Both, false, true));
    assert!(Role::Both.matches(&Role::Both, true, true));
}

#[test]
fn role_same_side_never_matches() {
    assert!(!Role::Provide.matches(&Role::Provide, false, false));
    assert!(!Role::Consume.matches(&Role::Consume, false, false));
}

#[test]
fn role_match_is_symmetric_on_all_pairs() {
    let roles = [Role::Provide, Role::Consume, Role::Both];
    for a in &roles {
        for b in &roles {
            for am in [false, true] {
                for bm in [false, true] {
                    assert_eq!(a.matches(b, am, bm), b.matches(a, bm, am));
                }
            }
        }
    }
}

#[test]
fn wire_codes_round_trip() {
    for v in 0..300u64 {
        if let Some(r) = Role::from_u64(v) {
            assert_eq!(r.to_u64(), v);
        }
        if let Some(c) = CloseReason::from_u64(v) {
            assert_eq!(c.to_u64(), v);
        }
        if let Some(t) = MessageType::from_u64(v) {
            assert_eq!(t.to_u64(), v);
        }
    }
    assert_eq!(Role::from_u64(2), Some(Role::Consume));
    assert_eq!(Role::from_u64(4), None);
    assert_eq!(CloseReason::from_u64(255), Some(CloseReason::Error));
    assert_eq!(CloseReason::from_u64(5), None);
    assert_eq!(MessageType::from_u64(6), None);
}

// ── ScopeParams::reconcile ─────────────────────────────────────────────────

#[test]
fn scope_reconcile_min_wins() {
    let a = ScopeParams { rate_limit: 10, ttl: 3600, ..Default::default() };
    let b = ScopeParams { rate_limit: 5, ttl: 7200, ..Default::default() };
    let r = a.reconcile(&b);
    assert_eq!(r.rate_limit, 5);
    assert_eq!(r.ttl, 3600);
}

#[test]
fn scope_reconcile_zero_is_unlimited() {
    let a = ScopeParams { rate_limit: 0, ttl: 0, ..Default::default() };
    let b = ScopeParams { rate_limit: 10, ttl: 3600, ..Default::default() };
    let r = a.reconcile(&b);
    assert_eq!(r.rate_limit, 10);
    assert_eq!(r.ttl, 3600);
}

#[test]
fn scope_reconcile_both_zero_stays_zero() {
    let a = ScopeParams { rate_limit: 0, ttl: 0, ..Default::default() };
    let b = ScopeParams { rate_limit: 0, ttl: 0, ..Default::default() };
    let r = a.reconcile(&b);
    assert_eq!(r.rate_limit, 0);
    assert_eq!(r.ttl, 0);
}

#[test]
fn scope_reconcile_is_idempotent_on_limits() {
    let a = ScopeParams { rate_limit: 7, ttl: 0, ..Default::default() };
    let r = a.reconcile(&a);
    assert_eq!(r.rate_limit, 7);
    assert_eq!(r.ttl, 0);
}

// ── TrustPolicy::evaluate ──────────────────────────────────────────────────

fn peer(b: u8) -> PeerId {
    [b; 32]
}

#[test]
fn trust_public_allows_all() {
    let policy = TrustPolicy { default_tier: ClassificationTier::Public, overrides: vec![], friends: vec![] };
    assert!(policy.evaluate(&peer(0xAA)));
    assert!(policy.evaluate(&peer(0x00)));
}

#[test]
fn trust_friends_blocks_stranger() {
    let policy = TrustPolicy {
        default_tier: ClassificationTier::Friends,
        overrides: vec![],
        friends: vec![peer(0x01)],
    };
    assert!(!policy.evaluate(&peer(0xFF)));
    assert!(policy.evaluate(&peer(0x01)));
}

#[test]
fn trust_blocked_denies_all() {
    let policy = TrustPolicy { default_tier: ClassificationTier::Blocked, overrides: vec![], friends: vec![] };
    assert!(!policy.evaluate(&peer(0xAA)));
}

#[test]
fn trust_override_takes_precedence() {
    let stranger = peer(0xFF);
    let policy = TrustPolicy {
        default_tier: ClassificationTier::Blocked,
        overrides: vec![(stranger, ClassificationTier::Public)],
        friends: vec![],
    };
    assert!(policy.evaluate(&stranger));
}

#[test]
fn trust_first_override_counts() {
    let p = peer(0x05);
    let policy = TrustPolicy {
        default_tier: ClassificationTier::Public,
        overrides: vec![(p, ClassificationTier::Blocked), (p, ClassificationTier::Public)],
        friends: vec![],
    };
    assert!(!policy.evaluate(&p));
    assert!(policy.evaluate(&peer(0x06)));
}

// ── compute_intersection ───────────────────────────────────────────────────

fn cap(name: &str, role: Role, mutual: bool) -> CapabilityDeclaration {
    CapabilityDeclaration { name: name.to_string(), role, mutual, scope: None, applicable_scope_keys: None }
}

fn manifest(id: u8, caps: Vec<CapabilityDeclaration>) -> DiscoveryManifest {
    DiscoveryManifest {
        protocol_version: 1,
        peer_id: peer(id),
        sequence_num: 1,
        capabilities: caps,
        personal_hash: vec![],
        hash_algorithm: "sha-256".to_string(),
    }
}

fn social_peer(id: u8) -> DiscoveryManifest {
    manifest(
        id,
        vec![cap("core.session.heartbeat.1", Role::Both, true), cap("howm.social.feed.1", Role::Both, true)],
    )
}

fn no_social_peer(id: u8) -> DiscoveryManifest {
    manifest(id, vec![cap("core.session.heartbeat.1", Role::Both, true)])
}

#[test]
fn intersection_social_social() {
    let alice = social_peer(0xA1);
    let bob = social_peer(0xB0);
    let allow_all = |_: &str, _: &PeerId| true;
    let active = compute_intersection(&alice, &bob, &allow_all);
    assert_eq!(active, vec!["core.session.heartbeat.1", "howm.social.feed.1"]);
}

#[test]
fn intersection_social_no_social() {
    let alice = social_peer(0xA1);
    let bob = no_social_peer(0xB0);
    let allow_all = |_: &str, _: &PeerId| true;
    let active = compute_intersection(&alice, &bob, &allow_all);
    assert_eq!(active, vec!["core.session.heartbeat.1"]);
}

#[test]
fn intersection_private_stranger() {
    let friend_id = peer(0x01);
    let private_user = social_peer(0xA1);
    let stranger = DiscoveryManifest { peer_id: peer(0xFF), ..social_peer(0xFF) };
    let gate = |cap: &str, pid: &PeerId| -> bool {
        if cap == "howm.social.feed.1" {
            *pid == friend_id
        } else {
            true
        }
    };
    let active = compute_intersection(&private_user, &stranger, &gate);
    assert_eq!(active, vec!["core.session.heartbeat.1"]);
}

#[test]
fn intersection_private_friend() {
    let friend_id = peer(0x01);
    let private_user = social_peer(0xA1);
    let friend = DiscoveryManifest { peer_id: friend_id, ..social_peer(0x01) };
    let gate = |cap: &str, pid: &PeerId| -> bool {
        if cap == "howm.social.feed.1" {
            *pid == friend_id
        } else {
            true
        }
    };
    let active = compute_intersection(&private_user, &friend, &gate);
    assert_eq!(active, vec!["core.session.heartbeat.1", "howm.social.feed.1"]);
}

#[test]
fn intersection_no_social_no_social() {
    let a = no_social_peer(0xA1);
    let b = no_social_peer(0xB0);
    let allow_all = |_: &str, _: &PeerId| true;
    let active = compute_intersection(&a, &b, &allow_all);
    assert_eq!(active, vec!["core.session.heartbeat.1"]);
}

#[test]
fn intersection_heartbeat_passes_a_denying_gate() {
    let a = social_peer(0xA1);
    let b = social_peer(0xB0);
    let deny_all = |_: &str, _: &PeerId| false;
    let active = compute_intersection(&a, &b, &deny_all);
    assert_eq!(active, vec!["core.session.heartbeat.1"]);
}

#[test]
fn intersection_result_is_sorted_and_symmetric_for_open_gates() {
    let a = manifest(
        0xA1,
        vec![cap("z.cap.1", Role::Provide, false), cap("a.cap.1", Role::Consume, false), cap("core.session.heartbeat.1", Role::Both, true)],
    );
    let b = manifest(
        0xB0,
        vec![cap("core.session.heartbeat.1", Role::Both, true), cap("a.cap.1", Role::Provide, false), cap("z.cap.1", Role::Consume, false)],
    );
    let allow_all = |_: &str, _: &PeerId| true;
    let ab = compute_intersection(&a, &b, &allow_all);
    let ba = compute_intersection(&b, &a, &allow_all);
    assert_eq!(ab, vec!["a.cap.1", "core.session.heartbeat.1", "z.cap.1"]);
    assert_eq!(ab, ba);
}

#[test]
fn intersection_with_policy_table() {
    let a = social_peer(0xA1);
    let b = social_peer(0xB0);
    let blocked = TrustPolicy { default_tier: ClassificationTier::Blocked, overrides: vec![], friends: vec![] };
    let policies = vec![("howm.social.feed.1".to_string(), blocked)];
    let active = compute_intersection_legacy(&a, &b, &policies);
    assert_eq!(active, vec!["core.session.heartbeat.1"]);
    let active_open = compute_intersection_legacy(&a, &b, &vec![]);
    assert_eq!(active_open, vec!["core.session.heartbeat.1", "howm.social.feed.1"]);
}

#[test]
fn intersection_legacy_matches_gated_with_table() {
    let a = social_peer(0xA1);
    let b = social_peer(0xB0);
    let blocked = TrustPolicy { default_tier: ClassificationTier::Blocked, overrides: vec![], friends: vec![] };
    let policies = vec![("howm.social.feed.1".to_string(), blocked)];
    let gate = |name: &str, p: &PeerId| match policies.iter().find(|(n, _)| n == name) {
        Some((_, pol)) => pol.evaluate(p),
        None => true,
    };
    assert_eq!(compute_intersection_legacy(&a, &b, &policies), compute_intersection(&a, &b, &gate));
    assert_eq!(compute_intersection_legacy(&a, &b, &vec![]), compute_intersection(&a, &b, &|_: &str, _: &PeerId| true));
}

// ── Extensible scope params ────────────────────────────────────────────────

#[test]
fn scope_extensions_uint_reconcile_min() {
    let mut a = ScopeParams::default();
    a.set_ext(scope_keys::HEARTBEAT_INTERVAL_MS, ScopeValue::Uint(5000));
    let mut b = ScopeParams::default();
    b.set_ext(scope_keys::HEARTBEAT_INTERVAL_MS, ScopeValue::Uint(3000));
    let r = a.reconcile(&b);
    assert_eq!(r.get_ext_uint(scope_keys::HEARTBEAT_INTERVAL_MS), Some(3000));
}

#[test]
fn scope_extensions_bool_provider_wins() {
    let mut a = ScopeParams::default();
    a.set_ext(scope_keys::ENDPOINT_INCLUDE_GEO, ScopeValue::Bool(true));
    let mut b = ScopeParams::default();
    b.set_ext(scope_keys::ENDPOINT_INCLUDE_GEO, ScopeValue::Bool(false));
    let r = a.reconcile(&b);
    assert_eq!(r.get_ext(scope_keys::ENDPOINT_INCLUDE_GEO).unwrap().as_bool(), Some(true));
}

#[test]
fn scope_extensions_text_array_intersection() {
    let methods_a = ScopeValue::Array(vec![
        ScopeValue::Text("ping".into()),
        ScopeValue::Text("echo".into()),
        ScopeValue::Text("status".into()),
    ]);
    let methods_b = ScopeValue::Array(vec![
        ScopeValue::Text("echo".into()),
        ScopeValue::Text("status".into()),
        ScopeValue::Text("shutdown".into()),
    ]);
    let mut a = ScopeParams::default();
    a.set_ext(scope_keys::RPC_METHODS, methods_a);
    let mut b = ScopeParams::default();
    b.set_ext(scope_keys::RPC_METHODS, methods_b);
    let r = a.reconcile(&b);
    let result = r.get_ext(scope_keys::RPC_METHODS).unwrap().as_text_array().unwrap();
    assert_eq!(result, vec!["echo", "status"]);
}

#[test]
fn scope_extensions_one_side_only() {
    let mut a = ScopeParams::default();
    a.set_ext(scope_keys::RELAY_MAX_CIRCUITS, ScopeValue::Uint(10));
    let b = ScopeParams::default();
    let r = a.reconcile(&b);
    assert_eq!(r.get_ext_uint(scope_keys::RELAY_MAX_CIRCUITS), Some(10));
}

#[test]
fn scope_extensions_uint_zero_unlimited() {
    let mut a = ScopeParams::default();
    a.set_ext(scope_keys::RELAY_MAX_BANDWIDTH_KBPS, ScopeValue::Uint(0));
    let mut b = ScopeParams::default();
    b.set_ext(scope_keys::RELAY_MAX_BANDWIDTH_KBPS, ScopeValue::Uint(1000));
    let r = a.reconcile(&b);
    assert_eq!(r.get_ext_uint(scope_keys::RELAY_MAX_BANDWIDTH_KBPS), Some(1000));
}

#[test]
fn scope_value_accessors() {
    assert_eq!(ScopeValue::Uint(3).as_uint(), Some(3));
    assert_eq!(ScopeValue::Bool(true).as_uint(), None);
    assert_eq!(ScopeValue::Text("x".into()).as_text(), Some("x"));
    assert_eq!(ScopeValue::Uint(1).as_text(), None);
    let mixed = ScopeValue::Array(vec![ScopeValue::Text("a".into()), ScopeValue::Uint(1)]);
    assert_eq!(mixed.as_text_array(), None);
}

// ── Scope key registry ─────────────────────────────────────────────────────

#[test]
fn scope_key_registry_core_keys_distinct() {
    let keys = [
        scope_keys::HEARTBEAT_INTERVAL_MS,
        scope_keys::HEARTBEAT_TIMEOUT_MS,
        scope_keys::TIMESYNC_PRECISION_MS,
        scope_keys::LATENCY_SAMPLE_INTERVAL_MS,
        scope_keys::LATENCY_WINDOW_SIZE,
        scope_keys::ENDPOINT_INCLUDE_GEO,
        scope_keys::RELAY_MAX_CIRCUITS,
        scope_keys::RELAY_MAX_BANDWIDTH_KBPS,
        scope_keys::RELAY_TTL,
        scope_keys::PEX_MAX_PEERS,
        scope_keys::PEX_INCLUDE_CAPABILITIES,
        scope_keys::STREAM_BITRATE_KBPS,
        scope_keys::STREAM_CODEC,
        scope_keys::BLOB_MAX_BYTES,
        scope_keys::BLOB_CHUNK_SIZE,
        scope_keys::BLOB_HASH_ALGORITHM,
        scope_keys::RPC_MAX_REQUEST_BYTES,
        scope_keys::RPC_MAX_RESPONSE_BYTES,
        scope_keys::RPC_METHODS,
        scope_keys::EVENT_TOPICS,
        scope_keys::EVENT_MAX_PAYLOAD_BYTES,
        scope_keys::STREAM_MAX_CONCURRENT,
        scope_keys::STREAM_MAX_FRAME_BYTES,
        scope_keys::STREAM_TIMEOUT_SECS,
    ];
    let set: HashSet<u64> = keys.iter().copied().collect();
    assert_eq!(set.len(), keys.len(), "scope keys must be unique");
    for k in &keys {
        assert!(*k >= 3 && *k <= 26, "core scope key {} out of range 3-26", k);
    }
}

#[test]
fn scope_key_registry_rate_limit_ttl_are_1_2() {
    assert_eq!(scope_keys::RATE_LIMIT, 1);
    assert_eq!(scope_keys::TTL, 2);
}

#[test]
fn applicable_scope_keys_declared() {
    let cap = CapabilityDeclaration {
        name: "core.session.heartbeat.1".to_string(),
        role: Role::Both,
        mutual: true,
        scope: None,
        applicable_scope_keys: Some(vec![scope_keys::HEARTBEAT_INTERVAL_MS, scope_keys::HEARTBEAT_TIMEOUT_MS]),
    };
    let keys = cap.applicable_scope_keys.as_ref().unwrap();
    assert!(keys.contains(&scope_keys::HEARTBEAT_INTERVAL_MS));
    assert!(keys.contains(&scope_keys::HEARTBEAT_TIMEOUT_MS));
    assert!(!keys.contains(&scope_keys::RELAY_MAX_CIRCUITS));
}

#[test]
fn applicable_scope_keys_none_means_spec_fallback() {
    let cap = CapabilityDeclaration {
        name: "howm.social.feed.1".to_string(),
        role: Role::Both,
        mutual: true,
        scope: None,
        applicable_scope_keys: None,
    };
    assert!(cap.applicable_scope_keys.is_none());
}

#[test]
fn capability_context_fields() {
    let ctx = CapabilityContext {
        peer_id: [0xBB; 32],
        params: ScopeParams { rate_limit: 42, ttl: 100, ..Default::default() },
        capability_name: "core.session.heartbeat.1".to_string(),
    };
    assert_eq!(ctx.peer_id, [0xBB; 32]);
    assert_eq!(ctx.params.rate_limit, 42);
    assert_eq!(ctx.capability_name, "core.session.heartbeat.1");
}

// ── Message type registry ──────────────────────────────────────────────────

#[test]
fn message_types_core_range() {
    assert_eq!(message_types::OFFER, 1);
    assert_eq!(message_types::CONFIRM, 2);
    assert_eq!(message_types::CLOSE, 3);
    assert_eq!(message_types::PING, 4);
    assert_eq!(message_types::PONG, 5);
}

#[test]
fn message_types_capability_range() {
    assert_eq!(message_types::BUILD_ATTEST, 6);
    assert_eq!(message_types::STREAM_CONTROL, 30);
    let cap_types = [
        message_types::BUILD_ATTEST,
        message_types::TIME_REQ,
        message_types::TIME_RESP,
        message_types::LAT_PING,
        message_types::LAT_PONG,
        message_types::WHOAMI_REQ,
        message_types::WHOAMI_RESP,
        message_types::CIRCUIT_OPEN,
        message_types::CIRCUIT_DATA,
        message_types::CIRCUIT_CLOSE,
        message_types::PEX_REQ,
        message_types::PEX_RESP,
        message_types::BLOB_REQ,
        message_types::BLOB_OFFER,
        message_types::BLOB_CHUNK,
        message_types::BLOB_ACK,
        message_types::RPC_REQ,
        message_types::RPC_RESP,
        message_types::EVENT_SUB,
        message_types::EVENT_UNSUB,
        message_types::EVENT_MSG,
        message_types::STREAM_OPEN,
        message_types::STREAM_DATA,
        message_types::STREAM_CLOSE,
        message_types::STREAM_CONTROL,
    ];
    for t in &cap_types {
        assert!(*t >= 6 && *t <= 30, "capability msg type {} out of range", t);
    }
    let set: HashSet<u64> = cap_types.iter().copied().collect();
    assert_eq!(set.len(), cap_types.len());
}

#[test]
fn message_type_is_protocol() {
    assert!(MessageType::Offer.is_protocol());
    assert!(MessageType::Pong.is_protocol());
}

#[test]
fn sort_capabilities_orders_by_name() {
    let mut m = manifest(
        1,
        vec![cap("b.cap.1", Role::Both, false), cap("a.cap.1", Role::Both, false), cap("c.cap.1", Role::Both, false)],
    );
    m.sort_capabilities();
    let names: Vec<&str> = m.capabilities.iter().map(|c| c.name.as_str()).collect();
    assert_eq!(names, vec!["a.cap.1", "b.cap.1", "c.cap.1"]);
}
