use howm::cbor::{cap_from_cbor_value, cap_to_cbor_value, scope_from_cbor_value, scope_to_cbor_value, CodecError, Field};
use howm::cbor_value::CborValue;
use howm::codec::personal_hash;
use howm::manifest::{CapabilityDeclaration, DiscoveryManifest};
use howm::message::ProtocolMessage;
use howm::params::ParamsMap;
use howm::scope::{ScopeParams, ScopeValue};
use howm::wire::{CloseReason, Role};
use sha2::Digest;

fn sample_manifest() -> DiscoveryManifest {
    let peer_id = [0xA1u8; 32];
    let caps = vec![
        CapabilityDeclaration {
            name: "core.session.heartbeat.1".to_string(),
            role: Role::Both,
            mutual: true,
            scope: None,
            applicable_scope_keys: None,
        },
        CapabilityDeclaration {
            name: "howm.social.feed.1".to_string(),
            role: Role::Provide,
            mutual: false,
            scope: Some(ScopeParams { rate_limit: 10, ttl: 3600, ..Default::default() }),
            applicable_scope_keys: None,
        },
    ];
    let mut m = DiscoveryManifest {
        protocol_version: 1,
        peer_id,
        sequence_num: 1,
        capabilities: caps,
        personal_hash: vec![],
        hash_algorithm: "sha-256".to_string(),
    };
    m.personal_hash = personal_hash(&m);
    m
}

#[test]
fn manifest_round_trip() {
    let m = sample_manifest();
    let encoded = m.to_cbor();
    let decoded = DiscoveryManifest::from_cbor(&encoded).unwrap();
    assert_eq!(m.protocol_version, decoded.protocol_version);
    assert_eq!(m.peer_id, decoded.peer_id);
    assert_eq!(m.sequence_num, decoded.sequence_num);
    assert_eq!(m.capabilities.len(), decoded.capabilities.len());
    assert_eq!(m.capabilities[0].name, decoded.capabilities[0].name);
    assert_eq!(m.hash_algorithm, decoded.hash_algorithm);
}

#[test]
fn personal_hash_determinism() {
    let m = sample_manifest();
    let h1 = personal_hash(&m);
    let h2 = personal_hash(&m);
    assert_eq!(h1, h2);
    assert_eq!(h1.len(), 32);
}

#[test]
fn personal_hash_ignores_sequence_num() {
    let mut m1 = sample_manifest();
    m1.sequence_num = 1;
    let mut m2 = sample_manifest();
    m2.sequence_num = 99;
    assert_eq!(personal_hash(&m1), personal_hash(&m2));
}

#[test]
fn personal_hash_depends_on_capabilities() {
    let m1 = sample_manifest();
    let mut m2 = sample_manifest();
    m2.capabilities.pop();
    assert_ne!(personal_hash(&m1), personal_hash(&m2));
}

#[test]
fn capabilities_sorted_in_cbor() {
    let mut m = sample_manifest();
    m.capabilities.reverse();
    let encoded = m.to_cbor();
    let decoded = DiscoveryManifest::from_cbor(&encoded).unwrap();
    let names: Vec<_> = decoded.capabilities.iter().map(|c| c.name.as_str()).collect();
    assert_eq!(names, vec!["core.session.heartbeat.1", "howm.social.feed.1"]);
}

#[test]
fn offer_round_trip() {
    let m = sample_manifest();
    let msg = ProtocolMessage::Offer { manifest: m.clone() };
    let encoded = msg.encode();
    let decoded = ProtocolMessage::decode(&mut encoded.as_slice()).unwrap();
    match decoded {
        ProtocolMessage::Offer { manifest } => {
            assert_eq!(manifest.peer_id, m.peer_id);
            assert_eq!(manifest.capabilities.len(), m.capabilities.len());
        }
        _ => panic!("expected Offer"),
    }
}

#[test]
fn confirm_round_trip() {
    let mut params = ParamsMap::new();
    params.insert("howm.social.feed.1".to_string(), ScopeParams { rate_limit: 5, ttl: 3600, ..Default::default() });
    let msg = ProtocolMessage::Confirm {
        personal_hash: vec![0xDE, 0xAD],
        active_set: vec!["core.session.heartbeat.1".to_string(), "howm.social.feed.1".to_string()],
        accepted_params: Some(params.clone()),
    };
    let encoded = msg.encode();
    let decoded = ProtocolMessage::decode(&mut encoded.as_slice()).unwrap();
    match decoded {
        ProtocolMessage::Confirm { personal_hash, active_set, accepted_params } => {
            assert_eq!(personal_hash, vec![0xDE, 0xAD]);
            assert_eq!(active_set.len(), 2);
            let ap = accepted_params.unwrap();
            assert_eq!(ap.get("howm.social.feed.1").unwrap().rate_limit, 5);
        }
        _ => panic!("expected Confirm"),
    }
}

#[test]
fn close_round_trip() {
    let msg = ProtocolMessage::Close { personal_hash: vec![0x01, 0x02], reason: CloseReason::NoMatch };
    let encoded = msg.encode();
    let decoded = ProtocolMessage::decode(&mut encoded.as_slice()).unwrap();
    match decoded {
        ProtocolMessage::Close { reason, .. } => {
            assert_eq!(reason, CloseReason::NoMatch);
        }
        _ => panic!("expected Close"),
    }
}

#[test]
fn ping_pong_round_trip() {
    let ts = 1_700_000_000u64;
    for msg in [ProtocolMessage::Ping { timestamp: ts }, ProtocolMessage::Pong { timestamp: ts }] {
        let encoded = msg.encode();
        let decoded = ProtocolMessage::decode(&mut encoded.as_slice()).unwrap();
        let decoded_ts = match decoded {
            ProtocolMessage::Ping { timestamp } | ProtocolMessage::Pong { timestamp } => timestamp,
            _ => panic!("unexpected message type"),
        };
        assert_eq!(decoded_ts, ts);
    }
}

#[test]
fn length_prefix_correct() {
    let msg = ProtocolMessage::Ping { timestamp: 42 };
    let encoded = msg.encode();
    let len = u32::from_be_bytes([encoded[0], encoded[1], encoded[2], encoded[3]]) as usize;
    assert_eq!(len + 4, encoded.len());
}

#[test]
fn decode_consumes_exactly_one_frame() {
    let mut bytes = ProtocolMessage::Ping { timestamp: 7 }.encode();
    bytes.extend(ProtocolMessage::Pong { timestamp: 8 }.encode());
    let mut reader = bytes.as_slice();
    match ProtocolMessage::decode(&mut reader).unwrap() {
        ProtocolMessage::Ping { timestamp } => assert_eq!(timestamp, 7),
        _ => panic!("expected Ping"),
    }
    match ProtocolMessage::decode(&mut reader).unwrap() {
        ProtocolMessage::Pong { timestamp } => assert_eq!(timestamp, 8),
        _ => panic!("expected Pong"),
    }
    assert!(reader.is_empty());
    assert_eq!(ProtocolMessage::decode(&mut reader).unwrap_err(), CodecError::LengthPrefix);
}

#[test]
fn decode_errors() {
    let mut short: &[u8] = &[0, 0, 1];
    assert_eq!(ProtocolMessage::decode(&mut short).unwrap_err(), CodecError::LengthPrefix);
    assert!(short.is_empty());

    let mut huge: &[u8] = &[0x04, 0x00, 0x00, 0x01, 0xAA];
    assert_eq!(ProtocolMessage::decode(&mut huge).unwrap_err(), CodecError::TooLarge);
    assert_eq!(huge, &[0xAA]);

    let mut truncated: &[u8] = &[0, 0, 0, 5, 0xA1];
    assert_eq!(ProtocolMessage::decode(&mut truncated).unwrap_err(), CodecError::Payload);

    // A CBOR unsigned integer is not a map.
    let mut not_map: &[u8] = &[0, 0, 0, 1, 0x05];
    assert_eq!(ProtocolMessage::decode(&mut not_map).unwrap_err(), CodecError::ExpectedMap);

    // An empty map has no message type.
    let mut empty_map: &[u8] = &[0, 0, 0, 1, 0xA0];
    assert_eq!(
        ProtocolMessage::decode(&mut empty_map).unwrap_err(),
        CodecError::MissingField(Field::MessageType)
    );

    // A reserved (0x1C) initial byte is not CBOR.
    let mut garbage: &[u8] = &[0, 0, 0, 1, 0x1C];
    assert_eq!(ProtocolMessage::decode(&mut garbage).unwrap_err(), CodecError::Cbor);

    // {1: 4} is a PING without timestamp.
    let mut ping_no_ts: &[u8] = &[0, 0, 0, 3, 0xA1, 0x01, 0x04];
    assert_eq!(
        ProtocolMessage::decode(&mut ping_no_ts).unwrap_err(),
        CodecError::MissingField(Field::Timestamp)
    );
}

#[test]
fn close_reason_defaults() {
    // {1: 3, 3: h''} — CLOSE without reason reads as Normal (0).
    let mut no_reason: &[u8] = &[0, 0, 0, 5, 0xA2, 0x01, 0x03, 0x03, 0x40];
    match ProtocolMessage::decode(&mut no_reason).unwrap() {
        ProtocolMessage::Close { reason, .. } => assert_eq!(reason, CloseReason::Normal),
        _ => panic!("expected Close"),
    }
    // {1: 3, 3: h'', 6: 9} — an unknown reason reads as Error.
    let mut odd_reason: &[u8] = &[0, 0, 0, 7, 0xA3, 0x01, 0x03, 0x03, 0x40, 0x06, 0x09];
    match ProtocolMessage::decode(&mut odd_reason).unwrap() {
        ProtocolMessage::Close { reason, .. } => assert_eq!(reason, CloseReason::Error),
        _ => panic!("expected Close"),
    }
}

#[test]
fn confirm_active_set_must_be_texts() {
    // {1: 2, 3: h'', 4: [1]}
    let mut bad: &[u8] = &[0, 0, 0, 8, 0xA3, 0x01, 0x02, 0x03, 0x40, 0x04, 0x81, 0x01];
    assert_eq!(ProtocolMessage::decode(&mut bad).unwrap_err(), CodecError::ActiveSetEntry);
}

#[test]
fn capability_message_round_trip() {
    // Payload map {2: "hi"}
    let payload = vec![0xA1, 0x02, 0x62, b'h', b'i'];
    let msg = ProtocolMessage::CapabilityMsg { message_type: 22, payload: payload.clone() };
    let encoded = msg.encode();
    let decoded = ProtocolMessage::decode(&mut encoded.as_slice()).unwrap();
    match decoded {
        ProtocolMessage::CapabilityMsg { message_type, payload: p } => {
            assert_eq!(message_type, 22);
            assert_eq!(p, payload);
        }
        _ => panic!("expected CapabilityMsg"),
    }
}

#[test]
fn params_map_keeps_names_sorted_and_unique() {
    let mut p = ParamsMap::new();
    p.insert("b".to_string(), ScopeParams { rate_limit: 1, ..Default::default() });
    p.insert("a".to_string(), ScopeParams { rate_limit: 2, ..Default::default() });
    p.insert("b".to_string(), ScopeParams { rate_limit: 3, ..Default::default() });
    assert_eq!(p.len(), 2);
    let names: Vec<&str> = p.entries().iter().map(|e| e.0.as_str()).collect();
    assert_eq!(names, vec!["a", "b"]);
    assert_eq!(p.get("b").unwrap().rate_limit, 3);
    assert_eq!(p.get("a").unwrap().rate_limit, 2);
    assert!(p.get("c").is_none());
}

#[test]
fn scope_cbor_round_trip() {
    let mut s = ScopeParams { rate_limit: 4, ttl: 0, ..Default::default() };
    s.set_ext(21, ScopeValue::Array(vec![ScopeValue::Text("echo".into())]));
    s.set_ext(8, ScopeValue::Bool(true));
    let v = scope_to_cbor_value(&s);
    let back = scope_from_cbor_value(&v).unwrap();
    assert_eq!(back.rate_limit, 4);
    assert_eq!(back.ttl, 0);
    assert_eq!(back.get_ext(8).unwrap().as_bool(), Some(true));
    assert_eq!(back.get_ext(21).unwrap().as_text_array(), Some(vec!["echo"]));
    assert!(scope_from_cbor_value(&CborValue::Integer(1)).is_err());
}

#[test]
fn cap_cbor_round_trip_and_errors() {
    let c = CapabilityDeclaration {
        name: "x.y.1".to_string(),
        role: Role::Consume,
        mutual: true,
        scope: None,
        applicable_scope_keys: Some(vec![3, 4]),
    };
    let back = cap_from_cbor_value(&cap_to_cbor_value(&c)).unwrap();
    assert_eq!(back.name, "x.y.1");
    assert_eq!(back.role, Role::Consume);
    assert!(back.mutual);
    assert_eq!(back.applicable_scope_keys, Some(vec![3, 4]));
    let bad_role = CborValue::Entries(vec![
        (CborValue::Integer(1), CborValue::Text("x".to_string())),
        (CborValue::Integer(2), CborValue::Integer(9)),
    ]);
    assert_eq!(cap_from_cbor_value(&bad_role).unwrap_err(), CodecError::UnknownRole);
    let no_name = CborValue::Entries(vec![(CborValue::Integer(2), CborValue::Integer(1))]);
    assert_eq!(cap_from_cbor_value(&no_name).unwrap_err(), CodecError::MissingField(Field::CapabilityName));
}

#[test]
fn cbor_encode_decode_through_ciborium() {
    // {1: 4, 7: 42}, framed with its length.
    let bytes = ProtocolMessage::Ping { timestamp: 42 }.encode();
    assert_eq!(bytes, vec![0, 0, 0, 6, 0xA2, 0x01, 0x04, 0x07, 0x18, 0x2A]);
    let mut reader = bytes.as_slice();
    match ProtocolMessage::decode(&mut reader).unwrap() {
        ProtocolMessage::Ping { timestamp } => assert_eq!(timestamp, 42),
        _ => panic!("expected Ping"),
    }
    // A reserved additional-information value is not CBOR.
    let bad = [0u8, 0, 0, 1, 0x1C];
    assert!(ProtocolMessage::decode(&mut &bad[..]).is_err());
}

#[test]
fn manifest_peer_id_length_checked() {
    // {1: 1, 2: h'01'}
    let bytes = [0xA2, 0x01, 0x01, 0x02, 0x41, 0x01];
    assert_eq!(DiscoveryManifest::from_cbor(&bytes).unwrap_err(), CodecError::PeerIdLength);
}

#[test]
fn personal_hash_is_sha256_of_the_zeroed_manifest() {
    let m = sample_manifest();
    let mut basis = m.clone();
    basis.sequence_num = 0;
    basis.personal_hash = Vec::new();
    let expected = sha2::Sha256::digest(basis.to_cbor()).to_vec();
    assert_eq!(personal_hash(&m), expected);
}

#[test]
fn transport_frame_limit() {
    assert_eq!(howm::message::accepted_frame_length([0, 0x10, 0, 0]), Some(1048576));
    assert_eq!(howm::message::accepted_frame_length([0, 0x10, 0, 1]), None);
    assert_eq!(howm::message::accepted_frame_length([0, 0, 0, 6]), Some(6));
}

#[test]
fn capability_payload_travels_as_opaque_bytes() {
    // RPC_REQ payload {1: "echo"}: its key 1 collides with the envelope's
    // message-type key, and must still come back unchanged.
    let payload = vec![0xA1, 0x01, 0x64, 0x65, 0x63, 0x68, 0x6F];
    let msg = ProtocolMessage::CapabilityMsg { message_type: 22, payload: payload.clone() };
    let encoded = msg.encode();
    // {1: 22, 8: the payload bytes}, framed.
    let mut expected = vec![0, 0, 0, 12, 0xA2, 0x01, 0x16, 0x08, 0x47];
    expected.extend(&payload);
    assert_eq!(encoded, expected);
    match ProtocolMessage::decode(&mut encoded.as_slice()).unwrap() {
        ProtocolMessage::CapabilityMsg { message_type, payload: p } => {
            assert_eq!(message_type, 22);
            assert_eq!(p, payload);
        }
        _ => panic!("expected CapabilityMsg"),
    }
}
