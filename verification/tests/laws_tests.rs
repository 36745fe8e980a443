use howm::bridge::encode_b64;
use howm::engine::{
    accept_inbound, active_peers_for_capability, is_replay, on_peer_visible, removed_capabilities,
    resolve_glare, ExchangeSide, GlareResolution, PeerCacheEntry, SessionOutcome, SessionPhase,
    SessionView, VisibleAction,
};
use howm::notify::{event_name, CapEvent, CapabilityEndpoint};
use howm::paths::{parent, within};
use howm::profile::{
    cache_path, confine, content_type, resolve_homepage, resolve_homepage_asset, validate_avatar,
    AvatarError, ConfinedPath, Profile,
};
use howm::stun::{classify_nat, refresh_mapping, NatProfile, NatType};
use howm::text::{lines_of, parse_u64_or_zero, split_text, trim_text};
use howm::wireguard::{
    assign_next_address, derive_public_key, derive_public_key_checked, reclaim_address, MonitorState,
    WgPeerEvent, WgPeerState,
};

fn id(b: u8) -> [u8; 32] {
    [b; 32]
}

fn strings(v: &[&str]) -> Vec<String> {
    v.iter().map(|s| s.to_string()).collect()
}

// ── engine ──────────────────────────────────────────────────────────────────

#[test]
fn glare_both_sides_agree_on_one_survivor() {
    let (a, b) = (id(1), id(2));
    // a is lower: a's outbound (a initiator) is canonical.
    assert_eq!(resolve_glare(ExchangeSide::Initiator, &a, &b, true, true), GlareResolution::Replace);
    assert_eq!(resolve_glare(ExchangeSide::Responder, &b, &a, true, true), GlareResolution::Replace);
    // b's outbound is not canonical: both ends of it yield.
    assert_eq!(resolve_glare(ExchangeSide::Initiator, &b, &a, true, true), GlareResolution::Yield);
    assert_eq!(resolve_glare(ExchangeSide::Responder, &a, &b, true, true), GlareResolution::Yield);
    // Without a live transport the non-canonical side proceeds.
    assert_eq!(resolve_glare(ExchangeSide::Initiator, &b, &a, false, true), GlareResolution::Proceed);
    assert_eq!(resolve_glare(ExchangeSide::Initiator, &a, &b, true, false), GlareResolution::Proceed);
}

#[test]
fn peer_visible_decisions() {
    let (lo, hi) = (id(1), id(9));
    let cached = PeerCacheEntry { personal_hash: vec![], last_outcome: SessionOutcome::NoMatch, timestamp: 100 };
    assert_eq!(on_peer_visible(true, None, &lo, &hi, None, 0), VisibleAction::Defer);
    assert_eq!(on_peer_visible(false, Some(SessionPhase::Active), &lo, &hi, None, 0), VisibleAction::AlreadyActive);
    assert_eq!(on_peer_visible(false, Some(SessionPhase::InProgress), &hi, &lo, None, 0), VisibleAction::GlareYield);
    assert_eq!(on_peer_visible(false, Some(SessionPhase::InProgress), &lo, &hi, None, 0), VisibleAction::GlareContinue);
    assert_eq!(on_peer_visible(false, None, &lo, &hi, Some(&cached), 200), VisibleAction::SkipCached);
    assert_eq!(on_peer_visible(false, None, &lo, &hi, Some(&cached), 100 + 3601), VisibleAction::Connect);
    assert_eq!(on_peer_visible(false, Some(SessionPhase::Ended), &lo, &hi, None, 0), VisibleAction::Connect);
}

#[test]
fn inbound_acceptance_and_replay() {
    let (lo, hi) = (id(1), id(9));
    assert!(!accept_inbound(Some(SessionPhase::InProgress), &lo, &hi));
    assert!(accept_inbound(Some(SessionPhase::InProgress), &hi, &lo));
    assert!(accept_inbound(None, &lo, &hi));
    assert!(is_replay(3, Some(5)));
    assert!(!is_replay(5, Some(5)));
    assert!(!is_replay(0, Some(5)));
    assert!(!is_replay(3, None));
}

#[test]
fn removed_capabilities_keeps_old_order() {
    let old = strings(&["a.b.c.1", "x.y.z.1", "m.n.o.1"]);
    let new = strings(&["m.n.o.1"]);
    assert_eq!(removed_capabilities(&old, &new), strings(&["a.b.c.1", "x.y.z.1"]));
    assert!(removed_capabilities(&old, &old).is_empty());
}

#[test]
fn active_peers_for_capability_filters_active_sessions() {
    let sessions = vec![
        SessionView { peer_id: id(1), phase: SessionPhase::Active, active_set: strings(&["feed"]) },
        SessionView { peer_id: id(2), phase: SessionPhase::InProgress, active_set: strings(&["feed"]) },
        SessionView { peer_id: id(3), phase: SessionPhase::Active, active_set: strings(&["other"]) },
        SessionView { peer_id: id(4), phase: SessionPhase::Active, active_set: strings(&["other", "feed"]) },
    ];
    assert_eq!(active_peers_for_capability(&sessions, &"feed".to_string()), vec![id(1), id(4)]);
}

// ── wireguard ───────────────────────────────────────────────────────────────

#[test]
fn address_allocation_takes_first_free() {
    assert_eq!(assign_next_address(&vec![]).unwrap(), "100.222.0.2");
    let taken = strings(&["100.222.0.2", "100.222.0.4"]);
    assert_eq!(assign_next_address(&taken).unwrap(), "100.222.0.3");
    let taken = strings(&["100.222.0.2", "100.222.0.3"]);
    assert_eq!(assign_next_address(&taken).unwrap(), "100.222.0.4");
    let mut many: Vec<String> = Vec::new();
    for k in 2..256u32 {
        many.push(format!("100.222.0.{}", k));
    }
    assert_eq!(assign_next_address(&many).unwrap(), "100.222.1.0");
}

#[test]
fn reclaimed_address_is_allocated_again() {
    let taken = strings(&["100.222.0.2", "100.222.0.3", "100.222.0.4"]);
    let after = reclaim_address(&taken, "100.222.0.3");
    assert_eq!(after, strings(&["100.222.0.2", "100.222.0.4"]));
    assert_eq!(assign_next_address(&after).unwrap(), "100.222.0.3");
}

fn unhex(s: &str) -> Vec<u8> {
    (0..s.len()).step_by(2).map(|i| u8::from_str_radix(&s[i..i + 2], 16).unwrap()).collect()
}

#[test]
fn derive_public_key_matches_x25519_vector() {
    let secret = unhex("77076d0a7318a57d3c16c17251b26645df4c2f87ebc0992ab177fba51db92c2a");
    let public = unhex("8520f0098930a754748b7ddcb43ef75a0dbf3a0d26381af4eba4a98eaa9b4e6a");
    assert_eq!(derive_public_key(&encode_b64(&secret)), encode_b64(&public));
    assert_eq!(derive_public_key_checked(&encode_b64(&secret)), Some(encode_b64(&public)));
    assert_eq!(derive_public_key_checked(&encode_b64(&[1, 2, 3])), None);
    assert_eq!(derive_public_key_checked("%%%"), None);
}

fn listing(key: u8, hs: u64) -> WgPeerState {
    WgPeerState { public_key: id(key), endpoint: None, allowed_ips: vec![], latest_handshake: hs, rx_bytes: 0, tx_bytes: 0 }
}

#[test]
fn monitor_reachability_follows_fresh_handshakes() {
    let mut m = MonitorState::new();
    let events = m.poll(&vec![listing(1, 1000), listing(2, 0)], 1010);
    assert!(matches!(events.as_slice(), [WgPeerEvent::PeerVisible(k)] if *k == id(1)));
    assert_eq!(m.reachable, vec![id(1)]);

    // Same handshake, still fresh: nothing new.
    let events = m.poll(&vec![listing(1, 1000), listing(2, 0)], 1100);
    assert!(events.is_empty());

    // Handshake went stale: unreachable.
    let events = m.poll(&vec![listing(1, 1000)], 1000 + 180);
    assert!(matches!(events.as_slice(), [WgPeerEvent::PeerUnreachable(k)] if *k == id(1)));
    assert!(m.reachable.is_empty());

    // Back again, then removed from the interface.
    m.poll(&vec![listing(1, 1500)], 1510);
    assert_eq!(m.reachable, vec![id(1)]);
    let events = m.poll(&vec![], 1520);
    assert!(matches!(events.as_slice(), [WgPeerEvent::PeerRemoved(k)] if *k == id(1)));
    assert!(m.reachable.is_empty());
}

#[test]
fn monitor_events_observations_then_removals() {
    let mut m = MonitorState::new();
    let events = m.poll(&vec![listing(1, 1000), listing(2, 1000), listing(3, 1000)], 1010);
    assert_eq!(events.len(), 3);
    // Peer 1 goes stale, peer 2 stays, peer 3 leaves the interface.
    let events = m.poll(&vec![listing(1, 1000), listing(2, 1200)], 1205);
    assert!(matches!(
        events.as_slice(),
        [WgPeerEvent::PeerUnreachable(a), WgPeerEvent::PeerRemoved(b)] if *a == id(1) && *b == id(3)
    ));
    assert_eq!(m.reachable, vec![id(2)]);
}

// ── stun ────────────────────────────────────────────────────────────────────

#[test]
fn classify_nat_cases() {
    let p = classify_nat(7, None, false, None);
    assert_eq!((p.detected_at, p.nat_type, p.external_ip.as_str(), p.external_port, p.observed_stride), (7, NatType::Unknown, "", 0, 0));
    let p = classify_nat(7, Some(("1.2.3.4".to_string(), 500)), true, Some(600));
    assert_eq!((p.nat_type, p.external_port, p.observed_stride), (NatType::Open, 500, 0));
    let p = classify_nat(7, Some(("1.2.3.4".to_string(), 500)), false, None);
    assert_eq!((p.nat_type, p.external_port, p.observed_stride), (NatType::Cone, 500, 0));
    let p = classify_nat(7, Some(("1.2.3.4".to_string(), 500)), false, Some(500));
    assert_eq!((p.nat_type, p.external_port, p.observed_stride), (NatType::Cone, 500, 0));
    let p = classify_nat(7, Some(("1.2.3.4".to_string(), 500)), false, Some(496));
    assert_eq!((p.nat_type, p.external_ip.as_str(), p.external_port, p.observed_stride), (NatType::Symmetric, "1.2.3.4", 500, -4));
}

fn profile(t: NatType, port: u16) -> NatProfile {
    NatProfile { detected_at: 1, nat_type: t, external_ip: "9.9.9.9".to_string(), external_port: port, observed_stride: 0 }
}

#[test]
fn refresh_mapping_keeps_cache_on_failure() {
    let (p, save) = refresh_mapping(Some(profile(NatType::Cone, 10)), profile(NatType::Unknown, 0));
    assert_eq!((p.nat_type, p.external_port, save), (NatType::Cone, 10, false));
    let (p, save) = refresh_mapping(None, profile(NatType::Unknown, 0));
    assert_eq!((p.nat_type, save), (NatType::Unknown, true));
    let (p, save) = refresh_mapping(Some(profile(NatType::Cone, 10)), profile(NatType::Symmetric, 20));
    assert_eq!((p.nat_type, p.external_port, save), (NatType::Symmetric, 20, true));
}

// ── profile and paths ───────────────────────────────────────────────────────

#[test]
fn avatar_validation() {
    assert_eq!(validate_avatar("me.PNG", 10), Ok("avatar.png".to_string()));
    assert_eq!(validate_avatar("dir.d/me.jpeg", 10), Ok("avatar.jpeg".to_string()));
    assert_eq!(validate_avatar("me.gif", 10), Err(AvatarError::InvalidFormat("gif".to_string())));
    assert_eq!(validate_avatar("noext", 10), Err(AvatarError::InvalidFormat(String::new())));
    assert_eq!(validate_avatar("me.png", 1024 * 1024 + 1), Err(AvatarError::TooLarge(1024 * 1024 + 1)));
    assert_eq!(content_type("avatar.png"), "image/png");
    assert_eq!(content_type("avatar.jpg"), "image/jpeg");
    assert_eq!(content_type("avatar.webp"), "image/webp");
}

#[test]
fn homepage_resolution_and_confinement() {
    let mut p = Profile::default();
    assert!(resolve_homepage("/data", &p).is_none());
    p.homepage = Some("site/index.html".to_string());
    let c = resolve_homepage("/data", &p).unwrap();
    assert_eq!((c.dir.as_str(), c.path.as_str()), ("/data/profile", "/data/profile/site/index.html"));
    let a = resolve_homepage_asset("/data", &p, "style.css").unwrap();
    assert_eq!((a.dir.as_str(), a.path.as_str()), ("/data/profile/site", "/data/profile/site/style.css"));

    let target = || ConfinedPath { dir: "/data/profile".to_string(), path: "/data/profile/x".to_string() };
    assert_eq!(confine(target(), Some("/data/profile".into()), Some("/data/profile/x".into()), true), Some("/data/profile/x".to_string()));
    assert_eq!(confine(target(), Some("/data/profile".into()), Some("/data/profilex".into()), true), None);
    assert_eq!(confine(target(), Some("/data/profile".into()), Some("/etc/passwd".into()), true), None);
    assert_eq!(confine(target(), Some("/data/profile".into()), Some("/data/profile/x".into()), false), None);
    assert_eq!(confine(target(), None, Some("/data/profile/x".into()), true), None);
}

#[test]
fn paths_parent_and_within() {
    assert_eq!(parent("/a/b/c"), Some("/a/b".to_string()));
    assert_eq!(parent("/a"), Some("/".to_string()));
    assert_eq!(parent("/"), None);
    assert_eq!(parent("name"), Some(String::new()));
    assert!(within("/a", "/a/b"));
    assert!(within("/a", "/a"));
    assert!(!within("/a", "/ab"));
    assert!(within("/", "/x"));
    assert_eq!(cache_path("/d", "abc/../x y"), "/d/profile_cache/abc____x_y.json");
}

// ── notify ──────────────────────────────────────────────────────────────────

#[test]
fn endpoint_urls_and_event_names() {
    let ep = CapabilityEndpoint { cap_name: "c".to_string(), port: 8081, url_override: None };
    assert_eq!(ep.url("/p2pcd/peer-active"), "http://127.0.0.1:8081/p2pcd/peer-active");
    let ep = CapabilityEndpoint { cap_name: "c".to_string(), port: 1, url_override: Some("http://mock:9".to_string()) };
    assert_eq!(ep.url("/x"), "http://mock:9/x");
    let e = CapEvent::PeerInactive { peer_id: "p".into(), capability: "c".into(), reason: "r".into() };
    assert_eq!(event_name(&e), "peer-inactive");
}

// ── text ────────────────────────────────────────────────────────────────────

#[test]
fn text_reading_matches_std() {
    assert_eq!(split_text("a,,b", ','), strings(&["a", "", "b"]));
    assert_eq!(split_text("", ','), strings(&[""]));
    assert_eq!(lines_of("a\r\nb\n\nc\r"), strings(&["a", "b", "", "c\r"]));
    assert_eq!(lines_of("x\n"), strings(&["x"]));
    assert!(lines_of("").is_empty());
    assert_eq!(trim_text(" \t a b\u{3000}"), "a b");
    assert_eq!(parse_u64_or_zero("+42"), 42);
    assert_eq!(parse_u64_or_zero("18446744073709551615"), u64::MAX);
    assert_eq!(parse_u64_or_zero("18446744073709551616"), 0);
    assert_eq!(parse_u64_or_zero("-1"), 0);
    assert_eq!(parse_u64_or_zero("+"), 0);
    assert_eq!(parse_u64_or_zero(" 1"), 0);
}

#[test]
fn hex_hash_decoding() {
    let text = "00ff".repeat(16);
    let mut expected = [0u8; 32];
    for i in 0..16 {
        expected[2 * i + 1] = 0xff;
    }
    assert_eq!(howm::bridge::decode_hex_hash(&text), Ok(expected));
    assert_eq!(howm::bridge::decode_hex_hash("ab"), Err(howm::bridge::FieldError::WrongLength(1)));
    assert_eq!(howm::bridge::decode_hex_hash("zz"), Err(howm::bridge::FieldError::InvalidHex));
}

#[test]
fn cache_path_keeps_unicode_alphanumerics() {
    assert_eq!(cache_path("/d", "é-1"), "/d/profile_cache/é-1.json");
    assert_eq!(cache_path("/d", "a:b"), "/d/profile_cache/a_b.json");
}

#[test]
fn bridge_lists_active_sessions() {
    let sessions = vec![
        SessionView { peer_id: id(1), phase: SessionPhase::Active, active_set: strings(&["feed", "chat"]) },
        SessionView { peer_id: id(2), phase: SessionPhase::InProgress, active_set: strings(&["feed"]) },
        SessionView { peer_id: id(3), phase: SessionPhase::Active, active_set: strings(&["chat"]) },
    ];
    let addrs = vec![Some("100.222.0.2".to_string()), None, None];
    let all = howm::bridge::peers_listing(&sessions, &addrs, None);
    assert_eq!(all.len(), 2);
    assert_eq!(all[0].peer_id, encode_b64(&id(1)));
    assert_eq!(all[0].capabilities, strings(&["feed", "chat"]));
    assert_eq!(all[0].wg_address.as_deref(), Some("100.222.0.2"));
    assert_eq!(all[1].peer_id, encode_b64(&id(3)));
    let feed = howm::bridge::peers_listing(&sessions, &addrs, Some("feed"));
    assert_eq!(feed.len(), 1);
    assert_eq!(feed[0].peer_id, encode_b64(&id(1)));
}

#[test]
fn profile_meta_and_peer_urls() {
    assert_eq!(howm::profile::to_lower_hex(&[0x0f, 0xa0, 0x00, 0xff]), "0fa000ff");
    let mut p = Profile::default();
    p.name = "alice".to_string();
    p.bio = "hi".to_string();
    p.homepage = Some("index.html".to_string());
    let meta = howm::profile::our_meta("node-1", &p, Some(b"abc"));
    assert_eq!(meta.avatar_hash.as_deref(), Some("ba7816bf8f01cfea414140de5dae2223b00361a396177a9cb410ff61f20015ad"));
    assert_eq!((meta.node_id.as_str(), meta.name.as_str(), meta.bio.as_str(), meta.has_homepage), ("node-1", "alice", "hi", true));
    assert!(howm::profile::our_meta("n", &Profile::default(), None).avatar_hash.is_none());
    let peer = howm::peers::Peer {
        node_id: "n2".to_string(),
        name: "bob".to_string(),
        wg_pubkey: "K".to_string(),
        wg_address: "100.222.0.7".to_string(),
        wg_endpoint: "1.2.3.4:51820".to_string(),
        port: 7000,
        last_seen: 0,
        address: None,
    };
    assert_eq!(howm::profile::peer_daemon_url(&peer, "/profile/sync"), "http://100.222.0.7:7000/profile/sync");
    let m = howm::profile::meta_from_profile(&peer, None, Some("b"), None);
    assert_eq!((m.node_id.as_str(), m.name.as_str(), m.bio.as_str(), m.has_homepage), ("n2", "bob", "b", false));
    assert!(m.avatar_hash.is_none());
    let m = howm::profile::meta_from_profile(&peer, Some("Bobby"), None, Some(true));
    assert_eq!((m.name.as_str(), m.bio.as_str(), m.has_homepage), ("Bobby", "", true));
}
