use howm::bridge::{decode_payload, decode_peer_id, encode_b64, FieldError};
use howm::capabilities::{CapabilityHandler, CapabilityRouter, CoreHandler, HeartbeatHandler, RelayHandler};
use howm::config::{peer_id_to_base64, validate_capability_name, PeerConfig};
use howm::engine::{unix_now, PeerCacheEntry, SessionOutcome, SessionPhase, SessionSummary};
use howm::message_types;
use howm::punch::{
    build_candidates, endpoint_args, punch_after_check, punch_candidate, punch_interval_ms, punch_peer_args,
    should_we_initiate, PunchConfig, PunchStep,
};
use howm::scope::{ScopeParams, ScopeValue};
use howm::scope_keys;
use howm::stun::{
    build_binding_request, parse_binding_response, parse_mapped_address, parse_xor_mapped_address,
    IpAddr, NatType, ATTR_XOR_MAPPED_ADDRESS, BINDING_REQUEST, BINDING_RESPONSE, FAMILY_IPV4,
    MAGIC_COOKIE,
};
use howm::wireguard::{
    allowed_addresses, disabled_state, dump_has_fresh_handshake, enabled_state, local_address, parse_wg_dump, parse_wg_status, peer_config_args, WgPeerConfig,
    WgPeerState,
};

// ── bridge ──────────────────────────────────────────────────────────────────

#[test]
fn bridge_decode_peer_id_valid() {
    let id = [42u8; 32];
    let b64 = encode_b64(&id);
    let decoded = decode_peer_id(&b64).unwrap();
    assert_eq!(decoded, id);
}

#[test]
fn bridge_decode_peer_id_wrong_length() {
    let b64 = encode_b64(&[1, 2, 3]);
    assert!(decode_peer_id(&b64).is_err());
}

#[test]
fn bridge_decode_peer_id_bad_base64() {
    assert!(decode_peer_id("not-base64!!!").is_err());
}

#[test]
fn bridge_decode_payload_valid() {
    let data = vec![0xA1, 0x01, 0x02];
    let b64 = encode_b64(&data);
    let decoded = decode_payload(&b64).unwrap();
    assert_eq!(decoded, data);
}

#[test]
fn mod_decode_peer_id_valid() {
    let id = [42u8; 32];
    let b64 = encode_b64(&id);
    let decoded = decode_peer_id(&b64).unwrap();
    assert_eq!(decoded, id);
}

#[test]
fn mod_decode_peer_id_wrong_length() {
    let b64 = encode_b64(&[1, 2, 3]);
    assert!(decode_peer_id(&b64).is_err());
}

#[test]
fn mod_decode_peer_id_bad_base64() {
    assert!(decode_peer_id("not-base64!!!").is_err());
}

#[test]
fn mod_decode_payload_valid() {
    let data = vec![0xA1, 0x01, 0x02];
    let b64 = encode_b64(&data);
    let decoded = decode_payload(&b64).unwrap();
    assert_eq!(decoded, data);
}

#[test]
fn decode_peer_id_errors_name_the_cause() {
    assert_eq!(decode_peer_id(&encode_b64(&[1, 2, 3])), Err(FieldError::WrongLength(3)));
    assert_eq!(decode_peer_id("not-base64!!!"), Err(FieldError::InvalidBase64));
}

#[test]
fn encode_b64_exact_text() {
    assert_eq!(encode_b64(&[0xA1, 0x01, 0x02]), "oQEC");
    assert_eq!(encode_b64(&[]), "");
}

// ── capabilities ────────────────────────────────────────────────────────────

#[test]
fn heartbeat_handler_metadata() {
    let h = HeartbeatHandler::new();
    assert_eq!(h.capability_name(), "core.session.heartbeat.1");
    assert_eq!(h.handled_message_types(), &[4, 5]);
}

#[test]
fn params_from_scope_defaults() {
    let scope = ScopeParams::default();
    let (interval, timeout) = HeartbeatHandler::params_from_scope(&scope);
    assert_eq!(interval, 5000);
    assert_eq!(timeout, 15000);
}

#[test]
fn params_from_scope_custom() {
    let mut scope = ScopeParams::default();
    scope.set_ext(scope_keys::HEARTBEAT_INTERVAL_MS, ScopeValue::Uint(1000));
    scope.set_ext(scope_keys::HEARTBEAT_TIMEOUT_MS, ScopeValue::Uint(3000));
    let (interval, timeout) = HeartbeatHandler::params_from_scope(&scope);
    assert_eq!(interval, 1000);
    assert_eq!(timeout, 3000);
}

#[test]
fn params_from_scope_ignores_non_integer_values() {
    let mut scope = ScopeParams::default();
    scope.set_ext(scope_keys::HEARTBEAT_INTERVAL_MS, ScopeValue::Bool(true));
    let (interval, timeout) = HeartbeatHandler::params_from_scope(&scope);
    assert_eq!(interval, 5000);
    assert_eq!(timeout, 15000);
}

#[test]
fn router_registers_heartbeat() {
    let router = CapabilityRouter::with_core_handlers();
    assert!(router.handler_for_type(message_types::PING).is_some());
    assert!(router.handler_for_type(message_types::PONG).is_some());
    assert!(router.handler_by_name("core.session.heartbeat.1").is_some());
}

#[test]
fn router_returns_none_for_unknown() {
    let router = CapabilityRouter::new();
    assert!(router.handler_for_type(99).is_none());
    assert!(router.handler_by_name("unknown.cap.1").is_none());
}

#[test]
fn router_core_handlers_route_relay_types() {
    let mut router = CapabilityRouter::with_core_handlers();
    assert!(router.handler_for_type(message_types::CIRCUIT_DATA).is_none());
    router.register(CoreHandler::Relay(RelayHandler::new()));
    let h = router.handler_for_type(message_types::CIRCUIT_DATA).unwrap();
    assert_eq!(h.capability_name(), "core.network.relay.1");
    let h = router.handler_by_name("core.session.heartbeat.1").unwrap();
    assert_eq!(h.handled_message_types(), &[4, 5]);
    assert!(router.handler_for_type(message_types::OFFER).is_none());
}

#[test]
fn relay_handler_metadata() {
    let h = RelayHandler::new();
    assert_eq!(h.capability_name(), "core.network.relay.1");
    assert_eq!(h.handled_message_types(), &[13, 14, 15]);
}

// ── engine ──────────────────────────────────────────────────────────────────

#[test]
fn engine_peer_cache_expiry() {
    let entry = PeerCacheEntry {
        personal_hash: vec![],
        last_outcome: SessionOutcome::NoMatch,
        timestamp: 0, // epoch — definitely expired
    };
    assert!(entry.is_expired());

    let fresh = PeerCacheEntry { timestamp: unix_now(), ..entry.clone() };
    assert!(!fresh.is_expired());
}

#[test]
fn engine_peer_cache_outcome_variants() {
    assert_eq!(SessionOutcome::Active, SessionOutcome::Active);
    assert_eq!(SessionOutcome::NoMatch, SessionOutcome::NoMatch);
    assert_eq!(SessionOutcome::Denied, SessionOutcome::Denied);
    assert_ne!(SessionOutcome::Active, SessionOutcome::NoMatch);
    assert_ne!(SessionOutcome::NoMatch, SessionOutcome::Denied);
}

#[test]
fn mod_peer_cache_expiry() {
    let entry = PeerCacheEntry {
        personal_hash: vec![],
        last_outcome: SessionOutcome::NoMatch,
        timestamp: 0, // epoch — definitely expired
    };
    assert!(entry.is_expired());

    let fresh = PeerCacheEntry { timestamp: unix_now(), ..entry.clone() };
    assert!(!fresh.is_expired());
}

#[test]
fn mod_peer_cache_outcome_variants() {
    assert_eq!(SessionOutcome::Active, SessionOutcome::Active);
    assert_eq!(SessionOutcome::NoMatch, SessionOutcome::NoMatch);
    assert_eq!(SessionOutcome::Denied, SessionOutcome::Denied);
    assert_ne!(SessionOutcome::Active, SessionOutcome::NoMatch);
    assert_ne!(SessionOutcome::NoMatch, SessionOutcome::Denied);
}

#[test]
fn peer_cache_expiry_at_ttl_boundary() {
    let entry = PeerCacheEntry { personal_hash: vec![1], last_outcome: SessionOutcome::Active, timestamp: 1000 };
    assert!(!entry.is_expired_at(1000 + 3600));
    assert!(entry.is_expired_at(1000 + 3601));
    // A clock behind the entry counts as no time passed.
    assert!(!entry.is_expired_at(10));
}

// ── punch ───────────────────────────────────────────────────────────────────

fn punch_config(ip: &str, port: u16, stride: i32, wg_port: u16) -> PunchConfig {
    PunchConfig {
        peer_pubkey: "test".to_string(),
        peer_external_ip: ip.to_string(),
        peer_external_port: port,
        peer_stride: stride,
        peer_wg_port: wg_port,
        peer_nat_type: NatType::Cone,
        our_nat_type: NatType::Cone,
        psk: None,
        allowed_ip: "100.222.0.2".to_string(),
        we_initiate: false,
    }
}

fn all_distinct(v: &[String]) -> bool {
    for i in 0..v.len() {
        for j in (i + 1)..v.len() {
            if v[i] == v[j] {
                return false;
            }
        }
    }
    true
}

#[test]
fn test_build_candidates_port_preserving() {
    let config = punch_config("203.0.113.5", 41641, 0, 41641);
    let candidates = build_candidates(&config);
    assert_eq!(candidates[0], "203.0.113.5:41641");
    assert!(candidates.contains(&"203.0.113.5:41642".to_string()));
    assert!(candidates.contains(&"203.0.113.5:41640".to_string()));
    assert!(all_distinct(&candidates));
}

#[test]
fn test_build_candidates_with_stride() {
    let config = punch_config("198.51.100.1", 41641, 4, 41641);
    let candidates = build_candidates(&config);
    assert_eq!(candidates[0], "198.51.100.1:41641");
    assert!(candidates.contains(&"198.51.100.1:41645".to_string())); // +4
    assert!(candidates.contains(&"198.51.100.1:41637".to_string())); // -4
}

#[test]
fn test_build_candidates_different_wg_port() {
    let config = punch_config("10.0.0.1", 41645, 0, 41641);
    let candidates = build_candidates(&config);
    assert_eq!(candidates[0], "10.0.0.1:41645");
    assert_eq!(candidates[1], "10.0.0.1:41641");
}

#[test]
fn test_should_we_initiate() {
    assert!(should_we_initiate(NatType::Cone, NatType::Symmetric));
    assert!(!should_we_initiate(NatType::Symmetric, NatType::Cone));
    assert!(!should_we_initiate(NatType::Cone, NatType::Cone));
    assert!(!should_we_initiate(NatType::Open, NatType::Cone));
    assert!(!should_we_initiate(NatType::Unknown, NatType::Unknown));
}

#[test]
fn test_build_candidates_no_duplicates() {
    let config = punch_config("1.2.3.4", 41641, 1, 41641);
    let candidates = build_candidates(&config);
    assert!(all_distinct(&candidates), "candidates contain duplicates");
}

#[test]
fn build_candidates_exact_port_preserving_list() {
    let config = punch_config("1.2.3.4", 100, 0, 100);
    let candidates = build_candidates(&config);
    let mut ports: Vec<u16> = vec![100];
    for k in 1..=10u16 {
        ports.push(100 + k);
        ports.push(100 - k);
    }
    let expected: Vec<String> = ports.iter().map(|p| format!("1.2.3.4:{}", p)).collect();
    assert_eq!(candidates, expected);
}

#[test]
fn build_candidates_skip_port_zero() {
    let config = punch_config("1.2.3.4", 1, 0, 1);
    let candidates = build_candidates(&config);
    assert!(!candidates.contains(&"1.2.3.4:0".to_string()));
    assert_eq!(candidates[0], "1.2.3.4:1");
    assert!(all_distinct(&candidates));
}

// ── stun ────────────────────────────────────────────────────────────────────

#[test]
fn test_build_binding_request() {
    let txn = [1u8; 12];
    let pkt = build_binding_request(&txn);
    assert_eq!(pkt.len(), 20);
    assert_eq!(u16::from_be_bytes([pkt[0], pkt[1]]), BINDING_REQUEST);
    assert_eq!(u16::from_be_bytes([pkt[2], pkt[3]]), 0);
    assert_eq!(u32::from_be_bytes([pkt[4], pkt[5], pkt[6], pkt[7]]), MAGIC_COOKIE);
    assert_eq!(&pkt[8..20], &txn);
}

#[test]
fn test_parse_xor_mapped_address_ipv4() {
    let octets = [203u8, 0, 113, 5];
    let port: u16 = 41641;
    let xor_port = port ^ (MAGIC_COOKIE >> 16) as u16;
    let xor_ip = u32::from_be_bytes(octets) ^ MAGIC_COOKIE;
    let mut data = [0u8; 8];
    data[0] = 0;
    data[1] = FAMILY_IPV4;
    data[2..4].copy_from_slice(&xor_port.to_be_bytes());
    data[4..8].copy_from_slice(&xor_ip.to_be_bytes());

    let (parsed_ip, parsed_port) = parse_xor_mapped_address(&data).unwrap();
    assert_eq!(parsed_ip, IpAddr::V4(octets));
    assert_eq!(parsed_port, port);
}

#[test]
fn test_parse_binding_response_full() {
    let txn = [42u8; 12];
    let octets = [198u8, 51, 100, 1];
    let port: u16 = 12345;
    let xor_port = port ^ (MAGIC_COOKIE >> 16) as u16;
    let xor_ip = u32::from_be_bytes(octets) ^ MAGIC_COOKIE;

    let mut attr = Vec::new();
    attr.extend_from_slice(&ATTR_XOR_MAPPED_ADDRESS.to_be_bytes());
    attr.extend_from_slice(&8u16.to_be_bytes());
    attr.push(0);
    attr.push(FAMILY_IPV4);
    attr.extend_from_slice(&xor_port.to_be_bytes());
    attr.extend_from_slice(&xor_ip.to_be_bytes());

    let mut pkt = Vec::new();
    pkt.extend_from_slice(&BINDING_RESPONSE.to_be_bytes());
    pkt.extend_from_slice(&(attr.len() as u16).to_be_bytes());
    pkt.extend_from_slice(&MAGIC_COOKIE.to_be_bytes());
    pkt.extend_from_slice(&txn);
    pkt.extend_from_slice(&attr);

    let (parsed_ip, parsed_port) = parse_binding_response(&pkt, &txn).unwrap();
    assert_eq!(parsed_ip, IpAddr::V4(octets));
    assert_eq!(parsed_port, port);
}

#[test]
fn test_parse_binding_response_wrong_txn() {
    let txn = [42u8; 12];
    let wrong_txn = [99u8; 12];
    let mut pkt = vec![0u8; 20];
    pkt[0..2].copy_from_slice(&BINDING_RESPONSE.to_be_bytes());
    pkt[2..4].copy_from_slice(&0u16.to_be_bytes());
    pkt[4..8].copy_from_slice(&MAGIC_COOKIE.to_be_bytes());
    pkt[8..20].copy_from_slice(&wrong_txn);
    assert!(parse_binding_response(&pkt, &txn).is_none());
}

#[test]
fn test_parse_mapped_address_ipv4() {
    let mut data = [0u8; 8];
    data[1] = FAMILY_IPV4;
    data[2..4].copy_from_slice(&8080u16.to_be_bytes());
    data[4] = 10;
    data[5] = 0;
    data[6] = 0;
    data[7] = 1;
    let (ip, port) = parse_mapped_address(&data).unwrap();
    assert_eq!(ip, IpAddr::V4([10, 0, 0, 1]));
    assert_eq!(port, 8080);
}

#[test]
fn test_nat_type_display() {
    assert_eq!(NatType::Open.to_string(), "open");
    assert_eq!(NatType::Cone.to_string(), "cone");
    assert_eq!(NatType::Symmetric.to_string(), "symmetric");
    assert_eq!(NatType::Unknown.to_string(), "unknown");
}

#[test]
fn parse_mapped_address_rejects_short_and_unknown_family() {
    assert!(parse_mapped_address(&[0u8, 1, 0]).is_none());
    let mut data = [0u8; 8];
    data[1] = 7;
    assert!(parse_mapped_address(&data).is_none());
}

// ── config ──────────────────────────────────────────────────────────────────

#[test]
fn to_manifest_has_all_caps() {
    let cfg = PeerConfig::generate_default("/tmp/howm-test");
    let peer_id = [0xA1u8; 32];
    let manifest = cfg.to_manifest(peer_id, 1);
    assert_eq!(manifest.capabilities.len(), 2);
    let names: Vec<_> = manifest.capabilities.iter().map(|c| c.name.as_str()).collect();
    let mut sorted = names.clone();
    sorted.sort();
    assert_eq!(names, sorted);
    assert_eq!(manifest.personal_hash.len(), 32);
}

#[test]
fn validate_capability_names() {
    assert!(validate_capability_name("howm.social.feed.1"));
    assert!(validate_capability_name("core.session.heartbeat.1"));
    assert!(validate_capability_name("org.example.cap.2"));
    assert!(!validate_capability_name("invalid"));
    assert!(!validate_capability_name("p2pcd.1"));
    assert!(!validate_capability_name("p2pcd.social.post.alpha"));
    assert!(!validate_capability_name("P2PCD.social.post.1"));
}

#[test]
fn trust_policies_built_correctly() {
    let cfg = PeerConfig::generate_default("/tmp/howm-test");
    let policies = cfg.trust_policies();
    // The default social feed has a classification; heartbeat has none.
    assert!(policies.iter().any(|(name, _)| name == "howm.social.feed.1"));
    assert!(!policies.iter().any(|(name, _)| name == "core.session.heartbeat.1"));
}

// ── wireguard ───────────────────────────────────────────────────────────────

#[test]
fn is_reachable_requires_nonzero_handshake() {
    let state = WgPeerState {
        public_key: [1u8; 32],
        endpoint: None,
        allowed_ips: vec![],
        latest_handshake: 1700000000,
        rx_bytes: 0,
        tx_bytes: 0,
    };
    let never = WgPeerState { latest_handshake: 0, ..state.clone() };
    assert!(state.is_reachable());
    assert!(!never.is_reachable());
}

fn make_dump_line(key: &[u8; 32], endpoint: &str, allowed_ips: &str, handshake: u64, rx: u64, tx: u64) -> String {
    format!(
        "{}\t(none)\t{}\t{}\t{}\t{}\t{}\t25",
        peer_id_to_base64(key),
        endpoint,
        allowed_ips,
        handshake,
        rx,
        tx,
    )
}

fn sample_dump() -> String {
    let iface_key = [0u8; 32];
    let peer1_key = [1u8; 32];
    let peer2_key = [2u8; 32];
    let iface_line = make_dump_line(&iface_key, "0.0.0.0:51820", "100.222.0.1/32", 0, 0, 0);
    let peer1_line = make_dump_line(&peer1_key, "203.0.113.1:51820", "100.222.0.2/32", 1700000000, 1024, 512);
    let peer2_line = make_dump_line(&peer2_key, "(none)", "100.222.0.3/32", 0, 0, 0);
    format!("{}\n{}\n{}\n", iface_line, peer1_line, peer2_line)
}

#[test]
fn parse_wg_dump_parses_peers() {
    let dump = sample_dump();
    let peers = parse_wg_dump(&dump);
    assert_eq!(peers.len(), 2, "expected 2 peers, got {}", peers.len());

    assert_eq!(peers[0].public_key, [1u8; 32]);
    assert_eq!(peers[0].latest_handshake, 1700000000);
    assert_eq!(peers[0].rx_bytes, 1024);
    assert_eq!(peers[0].tx_bytes, 512);
    assert!(peers[0].endpoint.is_some());
    assert_eq!(peers[0].allowed_ips, vec!["100.222.0.2/32"]);

    assert_eq!(peers[1].public_key, [2u8; 32]);
    assert_eq!(peers[1].latest_handshake, 0);
    assert!(peers[1].endpoint.is_none());
}

#[test]
fn parse_wg_dump_empty_output() {
    assert!(parse_wg_dump("").is_empty());
}

#[test]
fn parse_wg_dump_interface_only() {
    let iface_key = [0u8; 32];
    let line = make_dump_line(&iface_key, "0.0.0.0:51820", "100.222.0.1/32", 0, 0, 0);
    let peers = parse_wg_dump(&format!("{}\n", line));
    assert!(peers.is_empty());
}

#[test]
fn parse_wg_dump_rejects_bad_key() {
    let bad = "notavalidkey\t(none)\t1.2.3.4:51820\t100.222.0.5/32\t0\t0\t0\t25\n";
    let dump = format!("{}\n{}", peer_id_to_base64(&[0u8; 32]), bad);
    let peers = parse_wg_dump(&dump);
    assert!(peers.is_empty(), "bad key should be skipped");
}

#[test]
fn parse_wg_dump_fields_in_detail() {
    let key = peer_id_to_base64(&[7u8; 32]);
    let dump = format!(
        "iface\r\n{k}\tpsk\t10.0.0.1:1\t a/32 , ,b/32\t+12\tx\t18446744073709551616\r\n{k}\tshort\n{k}\tp\t(none)\t\t99\t1\t2",
        k = key
    );
    let peers = parse_wg_dump(&dump);
    assert_eq!(peers.len(), 2);
    assert_eq!(peers[0].endpoint.as_deref(), Some("10.0.0.1:1"));
    assert_eq!(peers[0].allowed_ips, vec!["a/32", "b/32"]);
    assert_eq!(peers[0].latest_handshake, 12);
    assert_eq!(peers[0].rx_bytes, 0);
    assert_eq!(peers[0].tx_bytes, 0); // overflows u64
    assert_eq!(peers[1].endpoint, None);
    assert!(peers[1].allowed_ips.is_empty());
    assert_eq!((peers[1].latest_handshake, peers[1].rx_bytes, peers[1].tx_bytes), (99, 1, 2));
}

#[test]
fn handshake_check_reads_the_dump() {
    let key = peer_id_to_base64(&[1u8; 32]);
    let dump = format!("iface\t(none)\t0.0.0.0:1\tx\t0\n{}\tpsk\t1.2.3.4:5\tip\t1000\t0\t0\t25\n", key);
    assert!(dump_has_fresh_handshake(&dump, &key, 1100));
    assert!(!dump_has_fresh_handshake(&dump, &key, 1180));
    assert!(!dump_has_fresh_handshake(&dump, "other", 1100));
    // The first line is the interface itself and is never read.
    let only_iface = format!("{}\tpsk\t1.2.3.4:5\tip\t1000\n", key);
    assert!(!dump_has_fresh_handshake(&only_iface, &key, 1100));
    let never = format!("iface\n{}\tpsk\t1.2.3.4:5\tip\t0\n", key);
    assert!(!dump_has_fresh_handshake(&never, &key, 10));
}

#[test]
fn punch_loop_steps() {
    let candidates = vec!["a:1".to_string(), "a:2".to_string()];
    assert_eq!(punch_interval_ms(true), 1000);
    assert_eq!(punch_interval_ms(false), 200);
    assert_eq!(punch_candidate(&candidates, 3), "a:2");
    match punch_after_check(&candidates, 2, true, 0, 10) {
        PunchStep::Succeeded { endpoint } => assert_eq!(endpoint, "a:1"),
        other => panic!("unexpected {:?}", other),
    }
    assert!(matches!(punch_after_check(&candidates, 2, false, 10, 10), PunchStep::TimedOut));
    assert!(matches!(punch_after_check(&candidates, 2, false, 9, 10), PunchStep::Continue { next_attempt: 3 }));
    assert_eq!(
        punch_peer_args("howm0", "K", "100.222.0.2", Some("/p")),
        vec!["set", "howm0", "peer", "K", "allowed-ips", "100.222.0.2/32", "persistent-keepalive", "25", "preshared-key", "/p"]
    );
    assert_eq!(punch_peer_args("howm0", "K", "10.0.0.1", None).len(), 8);
    assert_eq!(endpoint_args("howm0", "K", "1.2.3.4:5"), vec!["set", "howm0", "peer", "K", "endpoint", "1.2.3.4:5"]);
}

#[test]
fn wg_status_and_allowed_addresses() {
    let dump = "iface\tx\ty\tz\t0\t0\t0\nK1\t(none)\t1.2.3.4:5\t100.222.0.2/32, 10.0.0.0/8\t17\t5\tbad\nshort\tline\n";
    let st = parse_wg_status(dump);
    assert_eq!(st.len(), 1);
    assert_eq!((st[0].pubkey.as_str(), st[0].endpoint.as_str()), ("K1", "1.2.3.4:5"));
    assert_eq!(st[0].allowed_ips, "100.222.0.2/32, 10.0.0.0/8");
    assert_eq!((st[0].latest_handshake, st[0].transfer_rx, st[0].transfer_tx), (17, 5, 0));
    assert_eq!(allowed_addresses(&st[0].allowed_ips), vec!["100.222.0.2", "10.0.0.0"]);
    assert_eq!(allowed_addresses(""), vec![""]);
    let peer = WgPeerConfig {
        pubkey: "K".to_string(),
        endpoint: "1.2.3.4:51820".to_string(),
        psk: None,
        allowed_ip: "100.222.0.3".to_string(),
        name: "bob".to_string(),
        node_id: "n1".to_string(),
    };
    assert_eq!(
        peer_config_args("howm0", &peer, Some("/tmp/psk")),
        vec![
            "set", "howm0", "peer", "K", "allowed-ips", "100.222.0.3/32", "endpoint", "1.2.3.4:51820",
            "preshared-key", "/tmp/psk", "persistent-keepalive", "25"
        ]
    );
}

#[test]
fn wg_local_address_and_state() {
    assert_eq!(local_address(Some("100.222.9.9".to_string()), Some("x")), ("100.222.9.9".to_string(), false));
    assert_eq!(local_address(None, Some(" 100.222.0.5\n")), ("100.222.0.5".to_string(), false));
    assert_eq!(local_address(None, None), ("100.222.0.1".to_string(), true));
    let s = disabled_state();
    assert!(s.public_key.is_none() && s.address.is_none() && s.tunnel_handle.is_none());
    let s = enabled_state("K".into(), "100.222.0.1".into(), None, false);
    assert_eq!((s.public_key.as_deref(), s.address.as_deref(), s.tunnel_handle), (Some("K"), Some("100.222.0.1"), None));
    assert!(enabled_state("K".into(), "a".into(), None, true).tunnel_handle.is_some());
}

fn make_config(our_nat: NatType, peer_nat: NatType, peer_port: u16, peer_stride: i32) -> PunchConfig {
    PunchConfig {
        peer_pubkey: "dGVzdC1wdWJrZXk=".to_string(), // "test-pubkey" in base64
        peer_external_ip: "203.0.113.5".to_string(),
        peer_external_port: peer_port,
        peer_stride,
        peer_wg_port: peer_port,
        peer_nat_type: peer_nat,
        our_nat_type: our_nat,
        psk: Some("test-psk".to_string()),
        allowed_ip: "100.222.0.2".to_string(),
        we_initiate: should_we_initiate(our_nat, peer_nat),
    }
}

/// Verify build_candidates includes stride predictions for symmetric NAT.
#[test]
fn test_candidates_include_stride_predictions() {
    let config = make_config(NatType::Cone, NatType::Symmetric, 41641, 4);
    let candidates = build_candidates(&config);

    // Should include: base, base±4, base±8, base±12, base±16, base±20
    assert!(candidates.contains(&"203.0.113.5:41641".to_string())); // base
    assert!(candidates.contains(&"203.0.113.5:41645".to_string())); // +4
    assert!(candidates.contains(&"203.0.113.5:41637".to_string())); // -4
    assert!(candidates.contains(&"203.0.113.5:41649".to_string())); // +8
    assert!(candidates.contains(&"203.0.113.5:41633".to_string())); // -8
}

/// Edge case: port near u16::MAX — ensure no overflow in candidate generation.
#[test]
fn test_candidates_near_port_max() {
    let config = PunchConfig {
        peer_pubkey: "test".to_string(),
        peer_external_ip: "1.2.3.4".to_string(),
        peer_external_port: 65530,
        peer_stride: 4,
        peer_wg_port: 65530,
        peer_nat_type: NatType::Cone,
        our_nat_type: NatType::Cone,
        psk: None,
        allowed_ip: "100.222.0.2".to_string(),
        we_initiate: false,
    };

    let candidates = build_candidates(&config);
    // Should not panic, should not contain port 0
    for c in &candidates {
        let port: u16 = c.rsplit(':').next().unwrap().parse().unwrap();
        assert!(port > 0, "candidate has port 0: {}", c);
    }
    // First should still be the base port
    assert_eq!(candidates[0], "1.2.3.4:65530");
}

/// Edge case: port near u16::MIN — ensure no underflow.
#[test]
fn test_candidates_near_port_min() {
    let config = PunchConfig {
        peer_pubkey: "test".to_string(),
        peer_external_ip: "1.2.3.4".to_string(),
        peer_external_port: 5,
        peer_stride: 4,
        peer_wg_port: 5,
        peer_nat_type: NatType::Cone,
        our_nat_type: NatType::Cone,
        psk: None,
        allowed_ip: "100.222.0.2".to_string(),
        we_initiate: false,
    };

    let candidates = build_candidates(&config);
    for c in &candidates {
        let port: u16 = c.rsplit(':').next().unwrap().parse().unwrap();
        assert!(port > 0, "candidate has port 0: {}", c);
    }
    assert_eq!(candidates[0], "1.2.3.4:5");
}

#[test]
fn engine_session_summary_fields() {
    let s = SessionSummary {
        peer_id: [1u8; 32],
        state: SessionPhase::Active,
        active_set: vec!["core.session.heartbeat.1".to_string()],
        uptime_s: 42,
        created_at: 0,
        last_activity: 0,
    };
    assert_eq!(s.active_set.len(), 1);
}

#[test]
fn mod_session_summary_fields() {
    let s = SessionSummary {
        peer_id: [1u8; 32],
        state: SessionPhase::Active,
        active_set: vec!["core.session.heartbeat.1".to_string()],
        uptime_s: 42,
        created_at: 0,
        last_activity: 0,
    };
    assert_eq!(s.active_set.len(), 1);
}

#[test]
fn capability_version_is_a_positive_integer() {
    assert!(!validate_capability_name("a.b.0"));
    assert!(!validate_capability_name("a.b.00"));
    assert!(!validate_capability_name("a.b.+1"));
    assert!(!validate_capability_name("a.b."));
    assert!(validate_capability_name("a.b.01"));
    assert!(validate_capability_name("a.b.99999999999"));
}

#[test]
fn negative_stride_predicts_both_directions() {
    let config = make_config(NatType::Cone, NatType::Symmetric, 41641, -4);
    let candidates = build_candidates(&config);
    for port in [41645, 41649, 41653, 41657, 41661, 41637, 41633, 41629, 41625, 41621] {
        assert!(candidates.contains(&format!("203.0.113.5:{}", port)), "missing {}", port);
    }
    assert_eq!(candidates[0], "203.0.113.5:41641");
    assert_eq!(candidates[1], "203.0.113.5:41645");
    assert_eq!(candidates[2], "203.0.113.5:41637");
}

#[test]
fn data_dir_for_local_dir() {
    assert_eq!(howm::config::data_dir_for(Some("/home/u/.local/share")), "/home/u/.local/share/howm");
    assert_eq!(howm::config::data_dir_for(None), "~/.local/howm");
}
