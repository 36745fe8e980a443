use howm::addressing::PeerAddr;
use howm::bridge::{
    blob_request_command, blob_store_command, encode_b64, event_command, rpc_reply, rpc_request, send_command,
    BlobRequestRequest, BlobStoreRequest, EventRequest, FieldError, RpcOutcome, SendRequest, TransferCallbackRegistry,
};
use howm::notify::{event_matches, CapEvent};
use howm::capabilities::CapabilityRouter;
use howm::engine::{outcome_entry, SessionOutcome, SessionPhase, SessionView};
use howm::config::{CapabilityConfig, HeartbeatParams, PeerConfig, RoleConfig};
use howm::message::ProtocolMessage;
use howm::params::ParamsMap;
use howm::proxy::{find_capability, forwards_request_header, forwards_response_header, proxy_target_url, InstalledCapability, ProxyError};
use howm::routing::{
    rebroadcast_step, RebroadcastStep,
    rpc_forward_answer, RpcForwardError,
    activation_contexts,
    dispatch_target, inbound_delivery, peer_active_notices, peer_inactive_notices, rpc_delivery, rpc_owner_of,
    session_heartbeat, teardown_plan, inbound_delivery_step, DeliveryStep, EndpointRegistry, INBOUND_ATTEMPTS,
};
use howm::tailnet::{
    tailscale_status_of,
    authkey_from_output, coordination_url, idle_state, pick_tailnet_ip, state_after_wait, tailnet_name, tailnet_status,
    tailscale_env, TailnetConfig,
};
use howm::watchdog::{FailureCounts, WatchdogAction};
use howm::wire::CloseReason;
use howm::scope::ScopeParams;

fn strings(v: &[&str]) -> Vec<String> {
    v.iter().map(|s| s.to_string()).collect()
}

#[test]
fn registry_register_replace_unregister() {
    let mut reg = EndpointRegistry::new();
    assert!(reg.get("a").is_none());
    reg.register("a".to_string(), 8001);
    reg.register("b".to_string(), 8002);
    assert_eq!(reg.get("a").unwrap().port, 8001);
    reg.register_with_url("a".to_string(), 9000, Some("http://mock:1".to_string()));
    let a = reg.get("a").unwrap();
    assert_eq!((a.port, a.url_override.as_deref()), (9000, Some("http://mock:1")));
    reg.unregister("a");
    assert!(reg.get("a").is_none());
    assert_eq!(reg.get("b").unwrap().port, 8002);
}

#[test]
fn inbound_goes_to_first_registered_capability() {
    let mut reg = EndpointRegistry::new();
    reg.register("howm.b.cap.1".to_string(), 7002);
    reg.register("howm.c.cap.1".to_string(), 7003);
    let peer = [5u8; 32];
    let active = strings(&["howm.a.cap.1", "howm.b.cap.1", "howm.c.cap.1"]);
    let (url, msg) = inbound_delivery(&reg, &peer, 40, &[1, 2, 3], &active).unwrap();
    assert_eq!(url, "http://127.0.0.1:7002/p2pcd/inbound");
    assert_eq!(msg.capability, "howm.b.cap.1");
    assert_eq!(msg.message_type, 40);
    assert_eq!(msg.peer_id, encode_b64(&peer));
    assert_eq!(msg.payload, encode_b64(&[1, 2, 3]));
    assert!(inbound_delivery(&reg, &peer, 40, &[], &strings(&["howm.a.cap.1"])).is_none());
}

#[test]
fn rpc_methods_route_to_their_owner() {
    assert_eq!(rpc_owner_of("dm.send"), Some("howm.social.messaging.1"));
    assert_eq!(rpc_owner_of("conversation.list"), Some("howm.social.messaging.1"));
    assert_eq!(rpc_owner_of("catalogue.get"), Some("howm.social.files.1"));
    assert_eq!(rpc_owner_of("voice.join"), Some("howm.social.voice.1"));
    assert_eq!(rpc_owner_of("feed"), Some("howm.social.feed.1"));
    assert_eq!(rpc_owner_of("presence.ping"), Some("howm.social.presence.1"));
    assert_eq!(rpc_owner_of("world.enter"), Some("howm.world.room.1"));
    assert_eq!(rpc_owner_of("other.thing"), None);
    assert_eq!(rpc_owner_of(""), None);

    let mut reg = EndpointRegistry::new();
    reg.register("howm.social.messaging.1".to_string(), 7100);
    reg.register("howm.social.feed.1".to_string(), 7200);
    let peer = [1u8; 32];
    let active = strings(&["howm.social.feed.1", "howm.social.messaging.1"]);
    let (url, msg) = rpc_delivery(&reg, &peer, "dm.send", &[9], &active).unwrap();
    assert_eq!(url, "http://127.0.0.1:7100/p2pcd/inbound");
    assert_eq!((msg.capability.as_str(), msg.message_type), ("howm.social.messaging.1", 22));
    // Owner known but not in the peer's active set: nowhere.
    assert!(rpc_delivery(&reg, &peer, "voice.join", &[9], &active).is_none());
    // No known owner: the first registered capability of the active set.
    let (url, _) = rpc_delivery(&reg, &peer, "misc.call", &[9], &active).unwrap();
    assert_eq!(url, "http://127.0.0.1:7200/p2pcd/inbound");
}

#[test]
fn session_notices_cover_the_active_set() {
    let mut reg = EndpointRegistry::new();
    reg.register_with_url("b".to_string(), 1, Some("http://mock".to_string()));
    let mut params = ParamsMap::new();
    params.insert("b".to_string(), ScopeParams { rate_limit: 3, ttl: 4, ..Default::default() });
    let peer = [2u8; 32];
    let active = strings(&["a", "b"]);
    let notices = peer_active_notices(&reg, &peer, "100.222.0.9", &active, &params, 77);
    assert_eq!(notices.len(), 2);
    assert!(notices[0].0.is_none());
    assert_eq!(notices[0].1.capability, "a");
    assert_eq!((notices[0].1.scope.rate_limit, notices[0].1.scope.ttl), (0, 0));
    assert_eq!(notices[1].0.as_deref(), Some("http://mock/p2pcd/peer-active"));
    assert_eq!((notices[1].1.scope.rate_limit, notices[1].1.scope.ttl), (3, 4));
    assert_eq!((notices[1].1.wg_address.as_str(), notices[1].1.active_since), ("100.222.0.9", 77));
    assert_eq!(notices[1].1.peer_id, encode_b64(&peer));

    let gone = peer_inactive_notices(&reg, &peer, &active, "re-exchange");
    assert_eq!(gone.len(), 2);
    assert_eq!(gone[1].0.as_deref(), Some("http://mock/p2pcd/peer-inactive"));
    assert_eq!((gone[0].1.capability.as_str(), gone[0].1.reason.as_str()), ("a", "re-exchange"));
}

#[test]
fn dispatch_uses_in_process_handlers_first() {
    let router = CapabilityRouter::with_core_handlers();
    let mut params = ParamsMap::new();
    params.insert("core.session.heartbeat.1".to_string(), ScopeParams { rate_limit: 9, ..Default::default() });
    let (name, p) = dispatch_target(&router, &params, 4).unwrap();
    assert_eq!((name.as_str(), p.rate_limit), ("core.session.heartbeat.1", 9));
    let (_, p) = dispatch_target(&router, &ParamsMap::new(), 5).unwrap();
    assert_eq!(p.rate_limit, 0);
    assert!(dispatch_target(&router, &params, 40).is_none());
}

#[test]
fn heartbeat_runs_only_when_negotiated() {
    let cfg = PeerConfig::generate_default("/tmp/howm-test");
    assert_eq!(session_heartbeat(&strings(&["howm.social.feed.1"]), &cfg.capabilities), None);
    assert_eq!(
        session_heartbeat(&strings(&["core.session.heartbeat.1"]), &cfg.capabilities),
        Some((5000, 15000))
    );
    let caps = vec![(
        "hb".to_string(),
        CapabilityConfig {
            name: "core.session.heartbeat.1".to_string(),
            role: RoleConfig::Both,
            mutual: true,
            scope: None,
            classification: None,
            params: Some(HeartbeatParams { interval_ms: 1000, timeout_ms: 3000 }),
        },
    )];
    assert_eq!(session_heartbeat(&strings(&["core.session.heartbeat.1"]), &caps), Some((1000, 3000)));
    assert_eq!(session_heartbeat(&strings(&["core.session.heartbeat.1"]), &vec![]), Some((5000, 15000)));
}

#[test]
fn rpc_request_and_reply() {
    match rpc_request("m", 7, &[1, 2]) {
        ProtocolMessage::CapabilityMsg { message_type, payload } => {
            assert_eq!(message_type, 22);
            assert_eq!(payload, vec![0xA3, 0x01, 0x61, 0x6D, 0x02, 0x07, 0x03, 0x42, 0x01, 0x02]);
        },
        _ => panic!("expected a capability message"),
    }
    let (status, r) = rpc_reply(RpcOutcome::Answered(vec![0xA1, 0x01, 0x02]), 5000);
    assert_eq!((status, r.ok, r.payload.as_deref(), r.error), (200, true, Some("oQEC"), None));
    let (status, r) = rpc_reply(RpcOutcome::TimedOut, 2500);
    assert_eq!((status, r.ok, r.error.as_deref()), (504, false, Some("RPC timed out after 2500ms")));
    let (status, r) = rpc_reply(RpcOutcome::SendFailed("no session".to_string()), 1);
    assert_eq!((status, r.error.as_deref()), (404, Some("no session")));
    let (status, r) = rpc_reply(RpcOutcome::ChannelDropped, 1);
    assert_eq!((status, r.error.as_deref()), (500, Some("RPC response channel dropped")));
    let (status, r) = rpc_reply(RpcOutcome::NotRegistered, 1);
    assert_eq!((status, r.error.as_deref()), (500, Some("core.data.rpc.1 not registered")));
    let (status, r) = rpc_reply(RpcOutcome::HandlerUnavailable, 1);
    assert_eq!((status, r.error.as_deref()), (500, Some("RPC handler not available")));
}

#[test]
fn proxy_finds_capability_and_builds_url() {
    let caps = vec![
        InstalledCapability { name: "howm.social.feed.1".to_string(), route_name: Some("feed".to_string()), port: 7001 },
        InstalledCapability { name: "howm.social.files.1".to_string(), route_name: None, port: 7002 },
    ];
    assert_eq!(find_capability(&caps, "feed"), Some(0));
    assert_eq!(find_capability(&caps, "howm.social.files.1"), Some(1));
    assert_eq!(find_capability(&caps, "files"), None);
    assert_eq!(proxy_target_url(7001, "//api/posts", None).unwrap(), "http://localhost:7001/api/posts");
    assert_eq!(proxy_target_url(7001, "x", Some("a=1&b=2")).unwrap(), "http://localhost:7001/x?a=1&b=2");
    assert_eq!(proxy_target_url(7001, "", None).unwrap(), "http://localhost:7001/");
    let long = "q".repeat(4097);
    assert_eq!(proxy_target_url(7001, "x", Some(&long)), Err(ProxyError::QueryTooLong));
    assert!(proxy_target_url(7001, "x", Some(&"q".repeat(4096))).is_ok());
    for h in ["host", "connection", "transfer-encoding", "content-length", "x-peer-id", "x-node-id", "x-node-name"] {
        assert!(!forwards_request_header(h));
    }
    assert!(forwards_request_header("content-type"));
    assert!(!forwards_response_header("connection"));
    assert!(forwards_response_header("content-length"));
}

#[test]
fn teardown_closes_active_sessions_and_names_the_reason() {
    let mut reg = EndpointRegistry::new();
    reg.register("a".to_string(), 9);
    let peer = [3u8; 32];
    let none = teardown_plan(&reg, &peer, None, CloseReason::Timeout);
    assert!(!none.send_close && none.deactivate.is_empty() && none.notices.is_empty());
    let s = SessionView { peer_id: peer, phase: SessionPhase::Active, active_set: strings(&["a", "b"]) };
    let t = teardown_plan(&reg, &peer, Some(&s), CloseReason::AuthFailure);
    assert!(t.send_close);
    assert_eq!(t.deactivate, strings(&["a", "b"]));
    assert_eq!(t.notices[0].0.as_deref(), Some("http://127.0.0.1:9/p2pcd/peer-inactive"));
    assert_eq!(t.notices[1].1.reason, "AuthFailure");
    let ended = SessionView { peer_id: peer, phase: SessionPhase::Ended, active_set: vec![] };
    assert!(!teardown_plan(&reg, &peer, Some(&ended), CloseReason::Normal).send_close);
}

#[test]
fn outcome_entries_record_the_remote_hash() {
    let h = vec![1u8, 2, 3];
    let e = outcome_entry(SessionOutcome::Denied, Some(&h), 42);
    assert_eq!((e.personal_hash, e.last_outcome, e.timestamp), (h.clone(), SessionOutcome::Denied, 42));
    let e = outcome_entry(SessionOutcome::Active, None, 7);
    assert!(e.personal_hash.is_empty());
}

#[test]
fn watchdog_restarts_after_two_consecutive_failures() {
    let mut w = FailureCounts::new();
    assert_eq!(w.observe("cap.a", false), WatchdogAction::Failing(1));
    assert_eq!(w.get("cap.a"), 1);
    assert_eq!(w.observe("cap.b", false), WatchdogAction::Failing(1));
    assert_eq!(w.observe("cap.a", false), WatchdogAction::Restart);
    assert_eq!(w.get("cap.a"), 0);
    assert_eq!(w.get("cap.b"), 1);
    // A healthy check clears the count.
    assert_eq!(w.observe("cap.b", true), WatchdogAction::Healthy);
    assert_eq!(w.get("cap.b"), 0);
    assert_eq!(w.observe("cap.b", false), WatchdogAction::Failing(1));
}

fn tailnet_config(headscale: bool, url: Option<&str>) -> TailnetConfig {
    TailnetConfig {
        enabled: true,
        coordination_url: url.map(|u| u.to_string()),
        authkey: None,
        data_dir: "/d".to_string(),
        headscale_enabled: headscale,
        headscale_port: 8085,
    }
}

#[test]
fn tailnet_settings_and_status() {
    assert_eq!(coordination_url(&tailnet_config(true, Some("https://x"))), "http://127.0.0.1:8085");
    assert_eq!(coordination_url(&tailnet_config(false, Some("https://x"))), "https://x");
    assert_eq!(coordination_url(&tailnet_config(false, None)), "");
    assert_eq!(authkey_from_output("Created key:\n  abc123  \n\n"), Some("abc123".to_string()));
    assert_eq!(authkey_from_output("\n  \n"), None);
    assert_eq!(
        tailscale_env("k", "http://h", true),
        vec!["TS_STATE_DIR=/var/lib/tailscale", "TS_HOSTNAME=howm-node", "TS_AUTHKEY=k", "TS_EXTRA_ARGS=--login-server=http://h --accept-routes"]
    );
    assert_eq!(
        tailscale_env("", "", false),
        vec!["TS_STATE_DIR=/var/lib/tailscale", "TS_HOSTNAME=howm-node", "TS_EXTRA_ARGS=--accept-routes", "TS_USERSPACE=1"]
    );
    let ips = vec![Some("fd7a::1".to_string()), None, Some("100.64.0.3".to_string())];
    assert_eq!(pick_tailnet_ip(&ips), Some("100.64.0.3".to_string()));
    assert_eq!(pick_tailnet_ip(&vec![Some("fd7a::1".to_string())]), Some("fd7a::1".to_string()));
    assert_eq!(pick_tailnet_ip(&vec![None, Some("fd::2".to_string())]), None);
    assert_eq!(tailnet_name(Some("node.tail.net.."), Some("h")), Some("node.tail.net".to_string()));
    assert_eq!(tailnet_name(None, Some("h")), Some("h".to_string()));
    assert_eq!(tailnet_status(Some("100.64.0.3".into()), None), Some(("100.64.0.3".to_string(), String::new())));
    assert_eq!(tailnet_status(Some(String::new()), Some("n".into())), None);
    let st = state_after_wait(Some(("1.2.3.4".into(), "n".into())), None, "ts".into());
    assert_eq!((st.status.as_str(), st.ip.as_deref()), ("connected", Some("1.2.3.4")));
    assert_eq!(state_after_wait(None, Some("hs".into()), "ts".into()).status, "pending");
    assert_eq!(idle_state(false).status, "disabled");
    assert_eq!(idle_state(true).status, "docker-unavailable");
}

#[test]
fn blob_request_and_read_length() {
    match howm::bridge::blob_request(5, &[0xAB; 32]) {
        ProtocolMessage::CapabilityMsg { message_type, payload } => {
            assert_eq!(message_type, 18);
            let mut expected = vec![0xA2, 0x01, 0x05, 0x02, 0x58, 0x20];
            expected.extend([0xAB; 32]);
            assert_eq!(payload, expected);
        },
        _ => panic!("expected a capability message"),
    }
    assert_eq!(howm::bridge::blob_read_length(100, 30, 0), 70);
    assert_eq!(howm::bridge::blob_read_length(100, 130, 0), 0);
    assert_eq!(howm::bridge::blob_read_length(100, 30, 10), 10);
}

#[test]
fn callback_registry_register_and_take() {
    let mut reg = TransferCallbackRegistry::new();
    reg.register(42, "http://localhost:7003/internal/transfer-complete".to_string());
    reg.register(43, "http://localhost:7003/other-callback".to_string());

    // take returns and removes
    let url = reg.take(42);
    assert_eq!(url, Some("http://localhost:7003/internal/transfer-complete".to_string()));

    // second take returns None (consumed)
    assert!(reg.take(42).is_none());

    // other entry still there
    assert!(reg.take(43).is_some());
}

#[test]
fn callback_registry_take_missing() {
    let mut reg = TransferCallbackRegistry::new();
    assert!(reg.take(999).is_none());
}

#[test]
fn event_stream_filters_by_capability() {
    let e = CapEvent::Inbound { peer_id: "p".into(), capability: "howm.social.feed.1".into(), message_type: 40, payload: String::new() };
    assert!(event_matches(&e, "howm.social.feed.1"));
    assert!(!event_matches(&e, "howm.social.files.1"));
    let e = CapEvent::PeerInactive { peer_id: "p".into(), capability: "c".into(), reason: "r".into() };
    assert!(event_matches(&e, "c"));
}

#[test]
fn activation_contexts_cover_handled_capabilities() {
    let router = CapabilityRouter::with_core_handlers();
    let mut params = ParamsMap::new();
    params.insert("core.session.heartbeat.1".to_string(), ScopeParams { ttl: 60, ..Default::default() });
    let caps = strings(&["howm.social.feed.1", "core.session.heartbeat.1"]);
    let ctxs = activation_contexts(&router, &[7u8; 32], &caps, &params);
    assert_eq!(ctxs.len(), 1);
    assert_eq!(ctxs[0].capability_name, "core.session.heartbeat.1");
    assert_eq!((ctxs[0].params.ttl, ctxs[0].peer_id), (60, [7u8; 32]));
    assert!(activation_contexts(&CapabilityRouter::new(), &[7u8; 32], &caps, &params).is_empty());
}

fn capability_parts(m: ProtocolMessage) -> (u64, Vec<u8>) {
    match m {
        ProtocolMessage::CapabilityMsg { message_type, payload } => (message_type, payload),
        _ => panic!("expected a capability message"),
    }
}

#[test]
fn send_command_decodes_peer_then_payload() {
    let ok = SendRequest { peer_id: encode_b64(&[9u8; 32]), message_type: 40, payload: encode_b64(&[1, 2, 3]) };
    let (peer, msg) = send_command(&ok).unwrap();
    assert_eq!(peer, [9u8; 32]);
    assert_eq!(capability_parts(msg), (40, vec![1, 2, 3]));
    let short = SendRequest { peer_id: encode_b64(&[9u8; 4]), message_type: 40, payload: "!!".to_string() };
    assert_eq!(send_command(&short).err(), Some(FieldError::WrongLength(4)));
    let bad_payload = SendRequest { peer_id: encode_b64(&[9u8; 32]), message_type: 40, payload: "!!".to_string() };
    assert_eq!(send_command(&bad_payload).err(), Some(FieldError::InvalidBase64));
}

#[test]
fn event_command_builds_capability_message() {
    let req = EventRequest { capability: "howm.social.feed.1".to_string(), message_type: 41, payload: encode_b64(b"hi") };
    assert_eq!(capability_parts(event_command(&req).unwrap()), (41, b"hi".to_vec()));
    let bad = EventRequest { capability: "x".to_string(), message_type: 41, payload: "@@".to_string() };
    assert_eq!(event_command(&bad).err(), Some(FieldError::InvalidBase64));
}

#[test]
fn blob_store_command_decodes_hash_then_data() {
    let hash = "ab".repeat(32);
    let req = BlobStoreRequest { hash: hash.clone(), data: encode_b64(b"blob") };
    assert_eq!(blob_store_command(&req), Ok(([0xAB; 32], b"blob".to_vec())));
    let bad_hash = BlobStoreRequest { hash: "zz".to_string(), data: "@@".to_string() };
    assert_eq!(blob_store_command(&bad_hash), Err(FieldError::InvalidHex));
    let bad_data = BlobStoreRequest { hash, data: "@@".to_string() };
    assert_eq!(blob_store_command(&bad_data), Err(FieldError::InvalidBase64));
}

#[test]
fn blob_request_command_registers_callback_only_when_valid() {
    let mut reg = TransferCallbackRegistry::new();
    let bad = BlobRequestRequest {
        peer_id: encode_b64(&[5u8; 32]),
        hash: "ab".to_string(),
        transfer_id: 7,
        callback_url: Some("http://localhost:7003/cb".to_string()),
    };
    assert_eq!(blob_request_command(&bad, &mut reg).err(), Some(FieldError::WrongLength(1)));
    assert!(reg.take(7).is_none());
    let good = BlobRequestRequest { hash: "ab".repeat(32), ..bad };
    let (peer, msg) = blob_request_command(&good, &mut reg).unwrap();
    assert_eq!(peer, [5u8; 32]);
    let (t, payload) = capability_parts(msg);
    assert_eq!(t, 18);
    let mut expected = vec![0xA2, 0x01, 0x07, 0x02, 0x58, 0x20];
    expected.extend([0xAB; 32]);
    assert_eq!(payload, expected);
    assert_eq!(reg.take(7), Some("http://localhost:7003/cb".to_string()));
}

/// Drive the inbound-forward retry steps against a capability's answers
/// (true for a success status); returns the requests made, the total wait
/// and whether the message was delivered.
fn drive_inbound_retry(answers: &[bool]) -> (usize, u64, bool) {
    let mut requests = 0;
    let mut waited = 0;
    let mut attempt: u32 = 0;
    loop {
        requests += 1;
        match inbound_delivery_step(attempt, answers[attempt as usize]) {
            DeliveryStep::Delivered => return (requests, waited, true),
            DeliveryStep::RetryAfter(ms) => {
                waited += ms;
                attempt += 1;
            },
            DeliveryStep::GaveUp => return (requests, waited, false),
        }
    }
}

#[test]
fn post_inbound_with_retry_succeeds_on_third_attempt() {
    // The capability answers 500 twice, then 200.
    let (requests, waited, delivered) = drive_inbound_retry(&[false, false, true]);
    assert_eq!(requests, 3, "expected exactly 3 requests");
    assert_eq!(waited, 600);
    assert!(delivered);
}

#[test]
fn inbound_retry_gives_up_after_four_attempts() {
    assert_eq!(drive_inbound_retry(&[false, false, false, false]), (4, 2600, false));
    assert_eq!(drive_inbound_retry(&[true]), (1, 0, true));
    assert_eq!(INBOUND_ATTEMPTS, 4);
}

#[test]
fn session_summary_uptime_saturates() {
    let view = SessionView { peer_id: [3u8; 32], phase: SessionPhase::Active, active_set: strings(&["a.b.1"]) };
    let s = howm::engine::session_summary(&view, 1000, 1500, 1600);
    assert_eq!(s.peer_id, [3u8; 32]);
    assert_eq!(s.state, SessionPhase::Active);
    assert_eq!(s.active_set, strings(&["a.b.1"]));
    assert_eq!((s.uptime_s, s.created_at, s.last_activity), (600, 1000, 1500));
    assert_eq!(howm::engine::session_summary(&view, 1000, 1000, 900).uptime_s, 0);
}

#[test]
fn rpc_forward_answer_reads_the_capability_reply() {
    assert_eq!(rpc_forward_answer(false, "{\"response\":\"aGk=\"}"), Err(RpcForwardError::Status));
    assert_eq!(rpc_forward_answer(true, ""), Ok(vec![]));
    assert_eq!(rpc_forward_answer(true, "{\"response\":\"aGk=\"}"), Ok(b"hi".to_vec()));
    assert_eq!(rpc_forward_answer(true, "{\"ok\":true}"), Ok(vec![]));
    assert_eq!(rpc_forward_answer(true, "{\"response\":7}"), Ok(vec![]));
    assert_eq!(rpc_forward_answer(true, "not json"), Err(RpcForwardError::InvalidJson));
    assert_eq!(rpc_forward_answer(true, "{\"response\":\"%%%\"}"), Err(RpcForwardError::InvalidBase64));
}

#[test]
fn tailscale_status_of_reads_self() {
    let report = "  {\"Self\":{\"TailscaleIPs\":[\"fd7a::1\",\"100.64.0.5\"],\"DNSName\":\"node.tail.net.\",\"HostName\":\"node\"}}\n";
    assert_eq!(tailscale_status_of(report), Some(("100.64.0.5".to_string(), "node.tail.net".to_string())));
    let v6_only = "{\"Self\":{\"TailscaleIPs\":[\"fd7a::1\"],\"HostName\":\"box\"}}";
    assert_eq!(tailscale_status_of(v6_only), Some(("fd7a::1".to_string(), "box".to_string())));
    assert_eq!(tailscale_status_of("{\"Self\":{\"TailscaleIPs\":[]}}"), None);
    assert_eq!(tailscale_status_of("{\"Self\":{\"TailscaleIPs\":[\"100.64.0.6\"]}}"), Some(("100.64.0.6".to_string(), String::new())));
    assert_eq!(tailscale_status_of("starting..."), None);
}

#[test]
fn setup_notices_only_when_address_resolves() {
    let mut reg = EndpointRegistry::new();
    reg.register("howm.social.feed.1".to_string(), 7010);
    let active = strings(&["core.session.heartbeat.1", "howm.social.feed.1"]);
    let params = ParamsMap::new();
    assert!(howm::routing::setup_notices(&reg, &[1u8; 32], None, &active, &params, 5).is_empty());
    let n = howm::routing::setup_notices(&reg, &[1u8; 32], Some("100.222.0.2"), &active, &params, 5);
    assert_eq!(n.len(), 2);
    assert_eq!(n[0].0, None);
    assert_eq!(n[1].0.as_deref(), Some("http://127.0.0.1:7010/p2pcd/peer-active"));
    assert_eq!(n[1].1.wg_address, "100.222.0.2");
    assert_eq!(n[1].1.active_since, 5);
}

#[test]
fn rebroadcast_skips_live_or_unresolved_peers() {
    let s = SessionView { peer_id: [2u8; 32], phase: SessionPhase::Active, active_set: vec![] };
    let a = PeerAddr { ip: howm::stun::IpAddr::V4([100, 222, 0, 2]), port: 7000 };
    assert_eq!(rebroadcast_step(true, Some(&s), Some(a)), RebroadcastStep::Skip);
    assert_eq!(rebroadcast_step(false, None, Some(a)), RebroadcastStep::Skip);
    assert_eq!(rebroadcast_step(false, Some(&s), None), RebroadcastStep::Skip);
    assert_eq!(rebroadcast_step(false, Some(&s), Some(a)), RebroadcastStep::Exchange(a));
}

#[test]
fn rebroadcast_notifies_only_removed_capabilities() {
    let mut reg = EndpointRegistry::new();
    reg.register("b.cap.1".to_string(), 7011);
    let old = strings(&["a.cap.1", "b.cap.1", "c.cap.1"]);
    let new = strings(&["a.cap.1", "c.cap.1"]);
    let n = howm::routing::rebroadcast_notices(&reg, &[3u8; 32], &old, &new);
    assert_eq!(n.len(), 1);
    assert_eq!(n[0].1.capability, "b.cap.1");
    assert_eq!(n[0].1.reason, "re-exchange");
    assert_eq!(n[0].0.as_deref(), Some("http://127.0.0.1:7011/p2pcd/peer-inactive"));
    assert!(howm::routing::rebroadcast_notices(&reg, &[3u8; 32], &old, &old).is_empty());
}

#[test]
fn rpc_bad_request_reply() {
    let (status, r) = howm::bridge::rpc_bad_request(&encode_b64(&[1, 2, 3]), "AAAA").unwrap();
    assert_eq!(status, 400);
    assert!(!r.ok);
    assert!(r.payload.is_none());
    assert_eq!(r.error.as_deref(), Some("peer_id must be 32 bytes, got 3"));
    let bad_peer = howm::bridge::rpc_bad_request("!!", "AAAA").unwrap().1.error.unwrap();
    assert!(bad_peer.starts_with("invalid base64 peer_id: "), "{}", bad_peer);
    assert!(bad_peer.len() > "invalid base64 peer_id: ".len());
    let bad_payload = howm::bridge::rpc_bad_request(&encode_b64(&[7u8; 32]), "@@").unwrap().1.error.unwrap();
    assert!(bad_payload.starts_with("invalid base64 payload: "), "{}", bad_payload);
    assert!(howm::bridge::rpc_bad_request(&encode_b64(&[7u8; 32]), "AAAA").is_none());
}
