//! The local HTTP bridge to out-of-process capabilities: its request and
//! response bodies, the decoding of the base64 and hex fields they carry,
//! the messages it sends to peers, the peers it lists, its answers to RPC
//! calls, and the callbacks of blob transfers.
use std::collections::HashMap;
use vstd::prelude::*;

use crate::cbor_value::{
    cbor_encode, cbor_encoding, cbor_term_well_formed, lemma_entries_term, lemma_pairs_well_formed, CborTerm, CborValue,
};
use crate::encoding::{b64_decode, b64_encode, base64_decoded, base64_encoded, base64_error_text, hex_decode, hex_decoded};
use crate::engine::{SessionPhase, SessionView};
use crate::intersection::{copy_texts, texts_model};
use crate::manifest::PeerId;
use crate::message::{MessageModel, ProtocolMessage};
use crate::message_types::{BLOB_REQ, RPC_REQ};
use crate::strings::{decimal, push_decimal, push_str, text_eq};

verus! {

/// Send a raw CapabilityMsg to a specific peer.
#[derive(Debug)]
pub struct SendRequest {
    /// Base64-encoded 32-byte peer ID.
    pub peer_id: String,
    /// Message type number (6+ for capabilities).
    pub message_type: u64,
    /// CBOR-encoded payload (base64).
    pub payload: String,
}

/// Send an RPC request and wait for the response.
#[derive(Debug)]
pub struct RpcRequest {
    /// Base64-encoded 32-byte peer ID.
    pub peer_id: String,
    /// RPC method name.
    pub method: String,
    /// CBOR-encoded request payload (base64).
    pub payload: String,
    /// Timeout in milliseconds (default: 5000).
    pub timeout_ms: u64,
}

/// The RPC timeout used when a request gives none, in milliseconds.
pub fn default_rpc_timeout() -> (r: u64)
    ensures
        r == 5000,
{
    5000
}

/// Broadcast an event to all peers that negotiated a specific capability.
#[derive(Debug)]
pub struct EventRequest {
    /// Capability name to filter peers (e.g. "howm.social.feed.1").
    pub capability: String,
    /// Message type number for the event.
    pub message_type: u64,
    /// CBOR-encoded event payload (base64).
    pub payload: String,
}

/// Store a blob by hash.
#[derive(Debug)]
pub struct BlobStoreRequest {
    /// Hex-encoded SHA-256 hash (64 hex chars).
    pub hash: String,
    /// Base64-encoded blob data.
    pub data: String,
}

#[derive(Debug)]
pub struct BlobStoreResponse {
    pub ok: bool,
    pub size: Option<u64>,
    pub error: Option<String>,
}

/// Request a blob from a remote peer.
#[derive(Debug)]
pub struct BlobRequestRequest {
    /// Base64-encoded 32-byte peer ID.
    pub peer_id: String,
    /// Hex-encoded SHA-256 hash.
    pub hash: String,
    /// Transfer ID.
    pub transfer_id: u64,
    /// Optional callback URL for transfer-complete notification.
    pub callback_url: Option<String>,
}

/// Bulk blob status request.
#[derive(Debug)]
pub struct BulkBlobStatusRequest {
    pub hashes: Vec<String>,
}

/// Latency query for a single peer.
#[derive(Debug)]
pub struct LatencyQuery {
    pub peer_id: String,
}

#[derive(Debug)]
pub struct BlobRequestResponse {
    pub ok: bool,
    pub error: Option<String>,
}

/// Query params for GET /blob/status.
#[derive(Debug)]
pub struct BlobStatusQuery {
    pub hash: String,
}

#[derive(Debug)]
pub struct BlobStatusResponse {
    pub exists: bool,
    pub size: Option<u64>,
}

/// Query params for GET /blob/data.
#[derive(Debug)]
pub struct BlobDataQuery {
    pub hash: String,
    pub offset: u64,
    pub length: u64,
}

/// Query params for GET /peers.
#[derive(Debug)]
pub struct PeersQuery {
    /// Optional: only return peers that negotiated this capability.
    pub capability: Option<String>,
}

#[derive(Debug)]
pub struct PeerInfo {
    pub peer_id: String,
    pub capabilities: Vec<String>,
    pub wg_address: Option<String>,
}

#[derive(Debug)]
pub struct SendResponse {
    pub ok: bool,
    pub error: Option<String>,
}

#[derive(Debug)]
pub struct RpcResponse {
    pub ok: bool,
    /// Base64-encoded CBOR response payload.
    pub payload: Option<String>,
    pub error: Option<String>,
}

#[derive(Debug)]
pub struct EventResponse {
    pub ok: bool,
    /// Number of peers the event was sent to.
    pub sent_to: usize,
    pub error: Option<String>,
}

/// Why a field of a bridge request could not be decoded.
#[derive(Debug, Clone, Copy, PartialEq, Eq, Structural)]
pub enum FieldError {
    /// The text is not valid base64.
    InvalidBase64,
    /// The text is not valid hex.
    InvalidHex,
    /// The decoded bytes do not have the required length (32); the length found.
    WrongLength(usize),
}

/// Decode a base64 peer id: 32 bytes.
pub fn decode_peer_id(b64: &str) -> (r: Result<PeerId, FieldError>)
    ensures
        match base64_decoded(b64@) {
            None => r == Err::<PeerId, FieldError>(FieldError::InvalidBase64),
            Some(b) => if b.len() == 32 {
                r matches Ok(id) && id@ == b
            } else {
                r == Err::<PeerId, FieldError>(FieldError::WrongLength(b.len() as usize))
            },
        },
{
    match b64_decode(b64) {
        Err(_) => Err(FieldError::InvalidBase64),
        Ok(bytes) => {
            if bytes.len() != 32 {
                return Err(FieldError::WrongLength(bytes.len()));
            }
            Ok(crate::manifest::peer_id_from_bytes(bytes.as_slice()))
        },
    }
}

/// Decode a base64 payload.
pub fn decode_payload(b64: &str) -> (r: Result<Vec<u8>, FieldError>)
    ensures
        match base64_decoded(b64@) {
            None => r == Err::<Vec<u8>, FieldError>(FieldError::InvalidBase64),
            Some(b) => r matches Ok(v) && v@ == b,
        },
{
    match b64_decode(b64) {
        Err(_) => Err(FieldError::InvalidBase64),
        Ok(bytes) => Ok(bytes),
    }
}

/// Encode bytes as standard padded base64.
pub fn encode_b64(data: &[u8]) -> (r: String)
    ensures
        r@ == base64_encoded(data@),
        base64_decoded(r@) == Some(data@),
{
    b64_encode(data)
}

/// Decode a hex-encoded SHA-256 hash string into 32 bytes.
pub fn decode_hex_hash(hex_str: &str) -> (r: Result<[u8; 32], FieldError>)
    ensures
        match hex_decoded(hex_str@) {
            None => r == Err::<[u8; 32], FieldError>(FieldError::InvalidHex),
            Some(b) => if b.len() == 32 {
                r matches Ok(h) && h@ == b
            } else {
                r == Err::<[u8; 32], FieldError>(FieldError::WrongLength(b.len() as usize))
            },
        },
{
    match hex_decode(hex_str) {
        None => Err(FieldError::InvalidHex),
        Some(bytes) => {
            if bytes.len() != 32 {
                return Err(FieldError::WrongLength(bytes.len()));
            }
            Ok(crate::manifest::peer_id_from_bytes(bytes.as_slice()))
        },
    }
}

/// What a base64 peer id decodes to: 32 bytes, else why it does not.
pub open spec fn peer_id_decoding(text: Seq<char>) -> Result<Seq<u8>, FieldError> {
    match base64_decoded(text) {
        None => Err(FieldError::InvalidBase64),
        Some(b) => if b.len() == 32 {
            Ok(b)
        } else {
            Err(FieldError::WrongLength(b.len() as usize))
        },
    }
}

/// What a hex blob hash decodes to: 32 bytes, else why it does not.
pub open spec fn hash_decoding(text: Seq<char>) -> Result<Seq<u8>, FieldError> {
    match hex_decoded(text) {
        None => Err(FieldError::InvalidHex),
        Some(b) => if b.len() == 32 {
            Ok(b)
        } else {
            Err(FieldError::WrongLength(b.len() as usize))
        },
    }
}

/// What a send request asks for: the peer, then the capability message of
/// the request's type carrying the decoded payload. The first field that
/// does not decode gives the error.
pub fn send_command(req: &SendRequest) -> (r: Result<(PeerId, ProtocolMessage), FieldError>)
    ensures
        match peer_id_decoding(req.peer_id@) {
            Err(e) => r matches Err(x) && x == e,
            Ok(id) => match base64_decoded(req.payload@) {
                None => r matches Err(x) && x == FieldError::InvalidBase64,
                Some(p) => r matches Ok((i, m)) && i@ == id && m.model() == (MessageModel::CapabilityMsg {
                    message_type: req.message_type,
                    payload: p,
                }),
            },
        },
{
    let peer_id = match decode_peer_id(req.peer_id.as_str()) {
        Ok(id) => id,
        Err(e) => return Err(e),
    };
    let payload = match decode_payload(req.payload.as_str()) {
        Ok(p) => p,
        Err(e) => return Err(e),
    };
    Ok((peer_id, ProtocolMessage::CapabilityMsg { message_type: req.message_type, payload }))
}

/// The capability message an event request broadcasts: the request's type
/// carrying the decoded payload.
pub fn event_command(req: &EventRequest) -> (r: Result<ProtocolMessage, FieldError>)
    ensures
        match base64_decoded(req.payload@) {
            None => r matches Err(x) && x == FieldError::InvalidBase64,
            Some(p) => r matches Ok(m) && m.model() == (MessageModel::CapabilityMsg {
                message_type: req.message_type,
                payload: p,
            }),
        },
{
    match decode_payload(req.payload.as_str()) {
        Ok(payload) => Ok(ProtocolMessage::CapabilityMsg { message_type: req.message_type, payload }),
        Err(e) => Err(e),
    }
}

/// What a blob-store request asks for: the blob's hash, then its decoded
/// data. The first field that does not decode gives the error.
pub fn blob_store_command(req: &BlobStoreRequest) -> (r: Result<([u8; 32], Vec<u8>), FieldError>)
    ensures
        match hash_decoding(req.hash@) {
            Err(e) => r matches Err(x) && x == e,
            Ok(h) => match base64_decoded(req.data@) {
                None => r matches Err(x) && x == FieldError::InvalidBase64,
                Some(d) => r matches Ok((hash, data)) && hash@ == h && data@ == d,
            },
        },
{
    let hash = match decode_hex_hash(req.hash.as_str()) {
        Ok(h) => h,
        Err(e) => return Err(e),
    };
    match decode_payload(req.data.as_str()) {
        Ok(data) => Ok((hash, data)),
        Err(e) => Err(e),
    }
}

/// What a blob request asks for: the peer, then the BLOB_REQ message for the
/// hash. When both decode, the callback URL, if given, is registered for the
/// transfer; otherwise the registry is left as it was.
pub fn blob_request_command(req: &BlobRequestRequest, callbacks: &mut TransferCallbackRegistry) -> (r: Result<
    (PeerId, ProtocolMessage),
    FieldError,
>)
    ensures
        match peer_id_decoding(req.peer_id@) {
            Err(e) => r matches Err(x) && x == e,
            Ok(id) => match hash_decoding(req.hash@) {
                Err(e) => r matches Err(x) && x == e,
                Ok(h) => r matches Ok((i, m)) && i@ == id && m.model() == (MessageModel::CapabilityMsg {
                    message_type: BLOB_REQ,
                    payload: cbor_encoding(blob_request_term(req.transfer_id, h)),
                }),
            },
        },
        r is Ok ==> final(callbacks).callbacks() == match req.callback_url {
            Some(u) => old(callbacks).callbacks().insert(req.transfer_id, u@),
            None => old(callbacks).callbacks(),
        },
        r is Err ==> final(callbacks).callbacks() == old(callbacks).callbacks(),
{
    let peer_id = match decode_peer_id(req.peer_id.as_str()) {
        Ok(id) => id,
        Err(e) => return Err(e),
    };
    let hash = match decode_hex_hash(req.hash.as_str()) {
        Ok(h) => h,
        Err(e) => return Err(e),
    };
    if let Some(url) = &req.callback_url {
        callbacks.register(req.transfer_id, url.clone());
    }
    Ok((peer_id, blob_request(req.transfer_id, &hash)))
}

/// The CBOR map of an RPC request: `{1: method, 2: request_id, 3: payload}`.
pub open spec fn rpc_request_term(method: Seq<char>, request_id: u64, payload: Seq<u8>) -> CborTerm {
    CborTerm::Entries(
        seq![
            (CborTerm::Integer(1), CborTerm::Text(method)),
            (CborTerm::Integer(2), CborTerm::Integer(request_id as int)),
            (CborTerm::Integer(3), CborTerm::Bytes(payload)),
        ],
    )
}

/// The RPC_REQ capability message that carries a request to a peer.
pub fn rpc_request(method: &str, request_id: u64, payload: &[u8]) -> (r: ProtocolMessage)
    ensures
        r.model() == (MessageModel::CapabilityMsg {
            message_type: RPC_REQ,
            payload: cbor_encoding(rpc_request_term(method@, request_id, payload@)),
        }),
{
    let mut pairs: Vec<(CborValue, CborValue)> = Vec::new();
    pairs.push((CborValue::Integer(1), CborValue::Text(method.to_owned())));
    pairs.push((CborValue::Integer(2), CborValue::Integer(request_id as i128)));
    pairs.push((CborValue::Integer(3), CborValue::Bytes(vstd::slice::slice_to_vec(payload))));
    let ghost ps = pairs@;
    assert(ps[0].1.term() == CborTerm::Text(method@));
    assert(ps[1].1.term() == CborTerm::Integer(request_id as int));
    assert(ps[2].1.term() == CborTerm::Bytes(payload@));
    let v = CborValue::Entries(pairs);
    proof {
        lemma_entries_term(v, ps);
        assert(v.term() == rpc_request_term(method@, request_id, payload@)) by {
            assert(ps.map_values(|p: (CborValue, CborValue)| (p.0.term(), p.1.term())) =~= seq![
                (CborTerm::Integer(1), CborTerm::Text(method@)),
                (CborTerm::Integer(2), CborTerm::Integer(request_id as int)),
                (CborTerm::Integer(3), CborTerm::Bytes(payload@)),
            ]);
        }
        assert(cbor_term_well_formed(v.term())) by {
            let t = seq![
                (CborTerm::Integer(1), CborTerm::Text(method@)),
                (CborTerm::Integer(2), CborTerm::Integer(request_id as int)),
                (CborTerm::Integer(3), CborTerm::Bytes(payload@)),
            ];
            lemma_pairs_well_formed(t);
            assert forall|k: int| 0 <= k < t.len() implies cbor_term_well_formed(#[trigger] t[k].0)
                && cbor_term_well_formed(t[k].1) by {}
        }
    }
    let encoded = cbor_encode(&v);
    ProtocolMessage::CapabilityMsg { message_type: RPC_REQ, payload: encoded }
}

/// How a bridged RPC call ended after its fields were decoded.
#[derive(Debug)]
pub enum RpcOutcome {
    /// The peer answered with these bytes.
    Answered(Vec<u8>),
    /// No RPC handler is registered for `core.data.rpc.1`.
    NotRegistered,
    /// The handler registered for `core.data.rpc.1` is not the RPC handler.
    HandlerUnavailable,
    /// The request could not be sent to the peer; the error's text.
    SendFailed(String),
    /// The response channel was dropped before an answer came.
    ChannelDropped,
    /// No answer came within the timeout.
    TimedOut,
}

/// The HTTP status and body the bridge answers an RPC call with.
pub open spec fn rpc_reply_spec(outcome: RpcOutcome, timeout_ms: u64) -> (u16, bool, Option<Seq<char>>, Option<Seq<char>>) {
    match outcome {
        RpcOutcome::Answered(b) => (200, true, Some(base64_encoded(b@)), None),
        RpcOutcome::NotRegistered => (500, false, None, Some("core.data.rpc.1 not registered"@)),
        RpcOutcome::HandlerUnavailable => (500, false, None, Some("RPC handler not available"@)),
        RpcOutcome::SendFailed(e) => (404, false, None, Some(e@)),
        RpcOutcome::ChannelDropped => (500, false, None, Some("RPC response channel dropped"@)),
        RpcOutcome::TimedOut => (504, false, None, Some("RPC timed out after "@ + decimal(timeout_ms as nat) + "ms"@)),
    }
}

/// The HTTP status and response of a bridged RPC call: 200 with the answer
/// in base64; 500 when the RPC handler is missing or its channel dropped;
/// 404 when the peer could not be reached; 504 on timeout.
pub fn rpc_reply(outcome: RpcOutcome, timeout_ms: u64) -> (r: (u16, RpcResponse))
    ensures
        ({
            let (status, ok, payload, error) = rpc_reply_spec(outcome, timeout_ms);
            &&& r.0 == status
            &&& r.1.ok == ok
            &&& match payload {
                Some(p) => r.1.payload matches Some(x) && x@ == p,
                None => r.1.payload is None,
            }
            &&& match error {
                Some(e) => r.1.error matches Some(x) && x@ == e,
                None => r.1.error is None,
            }
        }),
{
    match outcome {
        RpcOutcome::Answered(b) => (200, RpcResponse { ok: true, payload: Some(encode_b64(b.as_slice())), error: None }),
        RpcOutcome::NotRegistered => (
            500,
            RpcResponse { ok: false, payload: None, error: Some("core.data.rpc.1 not registered".to_owned()) },
        ),
        RpcOutcome::HandlerUnavailable => (
            500,
            RpcResponse { ok: false, payload: None, error: Some("RPC handler not available".to_owned()) },
        ),
        RpcOutcome::SendFailed(e) => (404, RpcResponse { ok: false, payload: None, error: Some(e) }),
        RpcOutcome::ChannelDropped => (
            500,
            RpcResponse { ok: false, payload: None, error: Some("RPC response channel dropped".to_owned()) },
        ),
        RpcOutcome::TimedOut => {
            let mut e = "RPC timed out after ".to_owned();
            push_decimal(&mut e, timeout_ms);
            push_str(&mut e, "ms");
            (504, RpcResponse { ok: false, payload: None, error: Some(e) })
        },
    }
}

/// The error text a bridged RPC request is refused with, if any: the peer
/// id is checked first (not base64, then not 32 bytes), then the payload.
pub open spec fn rpc_input_error(peer_id: Seq<char>, payload: Seq<char>) -> Option<Seq<char>> {
    match base64_decoded(peer_id) {
        None => Some("invalid base64 peer_id: "@ + base64_error_text(peer_id)),
        Some(b) => if b.len() != 32 {
            Some("peer_id must be 32 bytes, got "@ + decimal(b.len()))
        } else {
            match base64_decoded(payload) {
                None => Some("invalid base64 payload: "@ + base64_error_text(payload)),
                Some(_) => None,
            }
        },
    }
}

/// The 400 reply of a bridged RPC request whose peer id or payload does not
/// decode (not ok, no payload, the decoding error's text); nothing when both
/// decode.
pub fn rpc_bad_request(peer_id: &str, payload: &str) -> (r: Option<(u16, RpcResponse)>)
    ensures
        match rpc_input_error(peer_id@, payload@) {
            None => r is None,
            Some(t) => r matches Some((status, resp)) && status == 400 && !resp.ok && resp.payload is None && (
            resp.error matches Some(x) && x@ == t),
        },
{
    let text = match b64_decode(peer_id) {
        Err(e) => {
            let mut t = "invalid base64 peer_id: ".to_owned();
            push_str(&mut t, e.as_str());
            t
        },
        Ok(b) => {
            if b.len() != 32 {
                let mut t = "peer_id must be 32 bytes, got ".to_owned();
                push_decimal(&mut t, b.len() as u64);
                t
            } else {
                match b64_decode(payload) {
                    Err(e) => {
                        let mut t = "invalid base64 payload: ".to_owned();
                        push_str(&mut t, e.as_str());
                        t
                    },
                    Ok(_) => {
                        return None;
                    },
                }
            }
        },
    };
    Some((400, RpcResponse { ok: false, payload: None, error: Some(text) }))
}

/// A session is listed by the bridge: it is active and, when a capability
/// is asked for, has it in its active set.
pub open spec fn session_listed(s: SessionView, capability: Option<Seq<char>>) -> bool {
    s.phase == SessionPhase::Active && match capability {
        Some(c) => texts_model(s.active_set@).contains(c),
        None => true,
    }
}

/// What the bridge lists of sessions (each with the WG address resolved
/// for it): base64 peer id, active set and address of each listed one, in
/// order.
pub open spec fn listing(
    sessions: Seq<SessionView>,
    addrs: Seq<Option<String>>,
    capability: Option<Seq<char>>,
) -> Seq<(Seq<char>, Seq<Seq<char>>, Option<String>)>
    decreases sessions.len(),
{
    if sessions.len() == 0 || addrs.len() != sessions.len() {
        Seq::empty()
    } else {
        let rest = listing(sessions.drop_last(), addrs.drop_last(), capability);
        let s = sessions.last();
        if session_listed(s, capability) {
            rest.push((base64_encoded(s.peer_id@), texts_model(s.active_set@), addrs.last()))
        } else {
            rest
        }
    }
}

/// The model of a listed peer.
pub open spec fn peer_info_model(p: PeerInfo) -> (Seq<char>, Seq<Seq<char>>, Option<String>) {
    (p.peer_id@, texts_model(p.capabilities@), p.wg_address)
}

fn has_capability(items: &Vec<String>, s: &str) -> (r: bool)
    ensures
        r == texts_model(items@).contains(s@),
{
    let mut i: usize = 0;
    while i < items.len()
        invariant
            i <= items.len(),
            forall|k: int| 0 <= k < i ==> items@[k]@ != s@,
        decreases items.len() - i,
    {
        if text_eq(items[i].as_str(), s) {
            assert(texts_model(items@)[i as int] == s@);
            return true;
        }
        i = i + 1;
    }
    proof {
        if texts_model(items@).contains(s@) {
            let k = choose|k: int| 0 <= k < texts_model(items@).len() && texts_model(items@)[k] == s@;
            assert(items@[k]@ == s@);
        }
    }
    false
}

/// The peers the bridge lists: the active sessions (with the capability in
/// their active set, when one is asked for), each with its WG address from
/// `wg_addresses` (one per session, in the same order).
pub fn peers_listing(sessions: &Vec<SessionView>, wg_addresses: &Vec<Option<String>>, capability: Option<&str>) -> (r: Vec<PeerInfo>)
    requires
        wg_addresses.len() == sessions.len(),
    ensures
        r@.map_values(|p: PeerInfo| peer_info_model(p)) == listing(
            sessions@,
            wg_addresses@,
            match capability {
                Some(c) => Some(c@),
                None => None,
            },
        ),
{
    let ghost cap = match capability {
        Some(c) => Some(c@),
        None => None,
    };
    let mut out: Vec<PeerInfo> = Vec::new();
    let mut i: usize = 0;
    assert(sessions@.take(0) =~= Seq::<SessionView>::empty());
    assert(out@.map_values(|p: PeerInfo| peer_info_model(p)) =~= listing(sessions@.take(0), wg_addresses@.take(0), cap));
    while i < sessions.len()
        invariant
            i <= sessions.len(),
            wg_addresses.len() == sessions.len(),
            cap == match capability {
                Some(c) => Some(c@),
                None => None::<Seq<char>>,
            },
            out@.map_values(|p: PeerInfo| peer_info_model(p)) == listing(
                sessions@.take(i as int),
                wg_addresses@.take(i as int),
                cap,
            ),
        decreases sessions.len() - i,
    {
        let ghost before = out@.map_values(|p: PeerInfo| peer_info_model(p));
        assert(sessions@.take(i + 1).drop_last() =~= sessions@.take(i as int));
        assert(wg_addresses@.take(i + 1).drop_last() =~= wg_addresses@.take(i as int));
        assert(sessions@.take(i + 1).last() == sessions@[i as int]);
        assert(wg_addresses@.take(i + 1).last() == wg_addresses@[i as int]);
        let s = &sessions[i];
        let listed = s.phase == SessionPhase::Active && match capability {
            Some(c) => has_capability(&s.active_set, c),
            None => true,
        };
        if listed {
            let info = PeerInfo {
                peer_id: encode_b64(s.peer_id.as_slice()),
                capabilities: copy_texts(&s.active_set),
                wg_address: wg_addresses[i].clone(),
            };
            out.push(info);
            assert(out@.map_values(|p: PeerInfo| peer_info_model(p)) =~= before.push(peer_info_model(info)));
        }
        i = i + 1;
    }
    assert(sessions@.take(i as int) =~= sessions@);
    assert(wg_addresses@.take(i as int) =~= wg_addresses@);
    out
}

/// The CBOR map of a blob request: `{1: transfer_id, 2: hash}`.
pub open spec fn blob_request_term(transfer_id: u64, hash: Seq<u8>) -> CborTerm {
    CborTerm::Entries(
        seq![
            (CborTerm::Integer(1), CborTerm::Integer(transfer_id as int)),
            (CborTerm::Integer(2), CborTerm::Bytes(hash)),
        ],
    )
}

/// The BLOB_REQ capability message that asks a peer for a blob.
pub fn blob_request(transfer_id: u64, hash: &[u8; 32]) -> (r: ProtocolMessage)
    ensures
        r.model() == (MessageModel::CapabilityMsg {
            message_type: BLOB_REQ,
            payload: cbor_encoding(blob_request_term(transfer_id, hash@)),
        }),
{
    let mut pairs: Vec<(CborValue, CborValue)> = Vec::new();
    pairs.push((CborValue::Integer(1), CborValue::Integer(transfer_id as i128)));
    pairs.push((CborValue::Integer(2), CborValue::Bytes(crate::manifest::peer_id_bytes(hash))));
    let ghost ps = pairs@;
    assert(ps[0].1.term() == CborTerm::Integer(transfer_id as int));
    assert(ps[1].1.term() == CborTerm::Bytes(hash@));
    let v = CborValue::Entries(pairs);
    proof {
        lemma_entries_term(v, ps);
        let t = seq![
            (CborTerm::Integer(1), CborTerm::Integer(transfer_id as int)),
            (CborTerm::Integer(2), CborTerm::Bytes(hash@)),
        ];
        assert(ps.map_values(|p: (CborValue, CborValue)| (p.0.term(), p.1.term())) =~= t);
        lemma_pairs_well_formed(t);
        assert forall|k: int| 0 <= k < t.len() implies cbor_term_well_formed(#[trigger] t[k].0)
            && cbor_term_well_formed(t[k].1) by {}
    }
    let encoded = cbor_encode(&v);
    ProtocolMessage::CapabilityMsg { message_type: BLOB_REQ, payload: encoded }
}

/// How many bytes of a blob a read returns: the requested length, or (for
/// length 0) the rest of the blob from the offset.
pub fn blob_read_length(total_size: u64, offset: u64, length: u64) -> (r: u64)
    ensures
        r == (if length == 0 {
            if total_size >= offset {
                (total_size - offset) as u64
            } else {
                0u64
            }
        } else {
            length
        }),
{
    if length == 0 {
        total_size.saturating_sub(offset)
    } else {
        length
    }
}

/// Callback URLs registered for blob transfers, by transfer id.
#[derive(Debug)]
pub struct TransferCallbackRegistry {
    callbacks: HashMap<u64, String>,
}

impl TransferCallbackRegistry {
    /// The registered callback URL of each transfer.
    pub closed spec fn callbacks(&self) -> Map<u64, Seq<char>> {
        self.callbacks@.map_values(|u: String| u@)
    }

    /// A registry with no callback.
    pub fn new() -> (r: Self)
        ensures
            r.callbacks() == Map::<u64, Seq<char>>::empty(),
    {
        let r = TransferCallbackRegistry { callbacks: HashMap::new() };
        assert(r.callbacks() =~= Map::<u64, Seq<char>>::empty());
        r
    }

    /// Register the URL to call when a transfer completes (replacing any
    /// registered before for it).
    pub fn register(&mut self, transfer_id: u64, url: String)
        ensures
            final(self).callbacks() == old(self).callbacks().insert(transfer_id, url@),
    {
        broadcast use vstd::std_specs::hash::group_hash_axioms;
        let ghost u = url@;
        self.callbacks.insert(transfer_id, url);
        assert(self.callbacks() =~= old(self).callbacks().insert(transfer_id, u));
    }

    /// Take the callback URL of a transfer: it is returned once and then
    /// forgotten.
    pub fn take(&mut self, transfer_id: u64) -> (r: Option<String>)
        ensures
            final(self).callbacks() == old(self).callbacks().remove(transfer_id),
            match r {
                Some(u) => old(self).callbacks().contains_key(transfer_id) && u@ == old(self).callbacks()[transfer_id],
                None => !old(self).callbacks().contains_key(transfer_id),
            },
    {
        broadcast use vstd::std_specs::hash::group_hash_axioms;
        let r = self.callbacks.remove(&transfer_id);
        assert(self.callbacks() =~= old(self).callbacks().remove(transfer_id));
        r
    }
}

/// A registered callback is handed out by the first take of its transfer
/// and by no later one.
pub proof fn lemma_callback_taken_once(m: Map<u64, Seq<char>>, transfer_id: u64, url: Seq<char>)
    ensures
        m.insert(transfer_id, url).contains_key(transfer_id),
        m.insert(transfer_id, url)[transfer_id] == url,
        !m.insert(transfer_id, url).remove(transfer_id).contains_key(transfer_id),
{
}

} // verus!
