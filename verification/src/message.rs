//! Protocol messages: the CBOR envelope map each one is written as, how an
//! envelope is read back, and the 4-byte big-endian length framing.
use vstd::prelude::*;

use crate::round_trip::{lemma_decode_encoded, message_read_back, message_valid};
use crate::cbor::{lookup_u64, scope_cbor, scope_from_cbor, scope_to_cbor_value, CodecError, Field};
use crate::cbor_value::{
    cbor_decode, cbor_decoding, cbor_encode, cbor_encoding, cbor_plain, cbor_term_pairs, cbor_term_well_formed,
    cbor_terms, lemma_array_term, lemma_cbor_term_pairs, lemma_cbor_terms, lemma_entries_term,
    lemma_pairs_well_formed, lemma_terms_well_formed, lookup, map_get, term_u64, CborKind, CborTerm,
    CborValue,
};
use crate::codec::{manifest_cbor, manifest_from_cbor, manifest_to_cbor_value};
use crate::intersection::texts_model;
use crate::manifest::{DiscoveryManifest, ManifestModel};
use crate::message_keys::{
    ACCEPTED_PARAMS, ACTIVE_SET, MANIFEST, MESSAGE_TYPE, PAYLOAD, PERSONAL_HASH, REASON, TIMESTAMP,
};
use crate::params::{ParamsMap, upsert};
use crate::scope::ScopeModel;
use crate::wire::{close_reason_code, close_reason_of_code, message_type_of_code, CloseReason, MessageType};

verus! {

/// A message of the session protocol.
#[derive(Debug)]
pub enum ProtocolMessage {
    Offer { manifest: DiscoveryManifest },
    Confirm {
        personal_hash: Vec<u8>,
        /// Sorted capability names in the active set.
        active_set: Vec<String>,
        /// Reconciled scope params per capability.
        accepted_params: Option<ParamsMap>,
    },
    Close { personal_hash: Vec<u8>, reason: CloseReason },
    Ping { timestamp: u64 },
    Pong { timestamp: u64 },
    /// Generic capability message (type 6+). Decoded by capability handlers.
    CapabilityMsg {
        /// Message type integer (6-30 for core, 36+ for app-defined).
        message_type: u64,
        /// The capability's payload, carried as opaque bytes under the
        /// envelope's payload key.
        payload: Vec<u8>,
    },
}

/// Mathematical model of a protocol message.
pub enum MessageModel {
    Offer { manifest: ManifestModel },
    Confirm {
        personal_hash: Seq<u8>,
        active_set: Seq<Seq<char>>,
        accepted_params: Option<Seq<(Seq<char>, ScopeModel)>>,
    },
    Close { personal_hash: Seq<u8>, reason: CloseReason },
    Ping { timestamp: u64 },
    Pong { timestamp: u64 },
    CapabilityMsg { message_type: u64, payload: Seq<u8> },
}

impl ProtocolMessage {
    pub open spec fn model(&self) -> MessageModel {
        match self {
            ProtocolMessage::Offer { manifest } => MessageModel::Offer { manifest: manifest.model() },
            ProtocolMessage::Confirm { personal_hash, active_set, accepted_params } => MessageModel::Confirm {
                personal_hash: personal_hash@,
                active_set: texts_model(active_set@),
                accepted_params: match accepted_params {
                    Some(p) => Some(p.model()),
                    None => None,
                },
            },
            ProtocolMessage::Close { personal_hash, reason } => MessageModel::Close {
                personal_hash: personal_hash@,
                reason: *reason,
            },
            ProtocolMessage::Ping { timestamp } => MessageModel::Ping { timestamp: *timestamp },
            ProtocolMessage::Pong { timestamp } => MessageModel::Pong { timestamp: *timestamp },
            ProtocolMessage::CapabilityMsg { message_type, payload } => MessageModel::CapabilityMsg {
                message_type: *message_type,
                payload: payload@,
            },
        }
    }
}

/// An entry with an integer key and an integer value.
pub open spec fn int_entry(key: u64, v: int) -> (CborTerm, CborTerm) {
    (CborTerm::Integer(key as int), CborTerm::Integer(v))
}

/// The entries of the accepted-params map: name to scope parameters.
pub open spec fn params_cbor(p: Seq<(Seq<char>, ScopeModel)>) -> Seq<(CborTerm, CborTerm)> {
    p.map_values(|e: (Seq<char>, ScopeModel)| (CborTerm::Text(e.0), scope_cbor(e.1)))
}

/// The envelope map a message is written as: the message type under key 1,
/// then the fields of its kind.
pub open spec fn message_cbor(m: MessageModel) -> CborTerm {
    match m {
        MessageModel::Offer { manifest } => CborTerm::Entries(
            seq![int_entry(MESSAGE_TYPE, 1), (CborTerm::Integer(MANIFEST as int), manifest_cbor(manifest))],
        ),
        MessageModel::Confirm { personal_hash, active_set, accepted_params } => CborTerm::Entries(
            seq![
                int_entry(MESSAGE_TYPE, 2),
                (CborTerm::Integer(PERSONAL_HASH as int), CborTerm::Bytes(personal_hash)),
                (
                    CborTerm::Integer(ACTIVE_SET as int),
                    CborTerm::Array(active_set.map_values(|s: Seq<char>| CborTerm::Text(s))),
                ),
            ] + match accepted_params {
                Some(p) => seq![(CborTerm::Integer(ACCEPTED_PARAMS as int), CborTerm::Entries(params_cbor(p)))],
                None => Seq::empty(),
            },
        ),
        MessageModel::Close { personal_hash, reason } => CborTerm::Entries(
            seq![
                int_entry(MESSAGE_TYPE, 3),
                (CborTerm::Integer(PERSONAL_HASH as int), CborTerm::Bytes(personal_hash)),
                int_entry(REASON, close_reason_code(reason) as int),
            ],
        ),
        MessageModel::Ping { timestamp } => CborTerm::Entries(
            seq![int_entry(MESSAGE_TYPE, 4), int_entry(TIMESTAMP, timestamp as int)],
        ),
        MessageModel::Pong { timestamp } => CborTerm::Entries(
            seq![int_entry(MESSAGE_TYPE, 5), int_entry(TIMESTAMP, timestamp as int)],
        ),
        MessageModel::CapabilityMsg { message_type, payload } => CborTerm::Entries(
            seq![int_entry(MESSAGE_TYPE, message_type as int), (CborTerm::Integer(PAYLOAD as int), CborTerm::Bytes(payload))],
        ),
    }
}

/// The four bytes of the length prefix: `n` big-endian.
pub open spec fn length_header(n: u32) -> Seq<u8> {
    seq![(n >> 24u32) as u8, ((n >> 16u32) & 0xff) as u8, ((n >> 8u32) & 0xff) as u8, (n & 0xff) as u8]
}

/// The length a 4-byte big-endian prefix announces.
pub open spec fn header_value(h: Seq<u8>) -> int {
    h[0] * 0x100_0000 + h[1] * 0x1_0000 + h[2] * 0x100 + h[3]
}

/// A payload framed for the wire: its length, cut to 32 bits as the prefix
/// field holds it, then the payload.
pub open spec fn frame(payload: Seq<u8>) -> Seq<u8> {
    length_header(payload.len() as u32) + payload
}

/// The largest payload a length prefix may announce: 64 MiB.
pub const MAX_FRAME: usize = 67108864;

/// The largest payload a session transport accepts from a peer, in bytes.
pub const TRANSPORT_MAX_FRAME: u32 = 1048576;

/// The payload length a received length prefix announces, if the transport
/// accepts it (at most `TRANSPORT_MAX_FRAME` bytes).
pub fn accepted_frame_length(header: [u8; 4]) -> (r: Option<u32>)
    ensures
        header_value(header@) <= TRANSPORT_MAX_FRAME ==> r == Some(header_value(header@) as u32),
        header_value(header@) > TRANSPORT_MAX_FRAME ==> r is None,
{
    let n: u64 = (header[0] as u64) * 0x100_0000 + (header[1] as u64) * 0x1_0000 + (header[2] as u64) * 0x100
        + (header[3] as u64);
    assert(n == header_value(header@));
    if n > 1048576 {
        None
    } else {
        Some(n as u32)
    }
}

} // verus!

verus! {

fn text_values(items: &Vec<String>) -> (r: Vec<CborValue>)
    ensures
        cbor_terms(r@) == texts_model(items@).map_values(|s: Seq<char>| CborTerm::Text(s)),
        forall|k: int| 0 <= k < r@.len() ==> cbor_term_well_formed(#[trigger] r@[k].term()),
{
    let mut out: Vec<CborValue> = Vec::new();
    let mut i: usize = 0;
    while i < items.len()
        invariant
            i <= items.len(),
            out@.len() == i,
            forall|k: int| 0 <= k < i ==> (#[trigger] out@[k]).term() == CborTerm::Text(items@[k]@),
        decreases items.len() - i,
    {
        out.push(CborValue::Text(items[i].clone()));
        i = i + 1;
    }
    proof {
        lemma_cbor_terms(out@);
        assert(cbor_terms(out@) =~= texts_model(items@).map_values(|s: Seq<char>| CborTerm::Text(s)));
    }
    out
}

fn params_values(p: &ParamsMap) -> (r: Vec<(CborValue, CborValue)>)
    ensures
        cbor_term_pairs(r@) == params_cbor(p.model()),
        forall|k: int| 0 <= k < r@.len() ==> cbor_term_well_formed(#[trigger] r@[k].0.term()) && cbor_term_well_formed(r@[k].1.term()),
{
    let entries = p.entries();
    let mut out: Vec<(CborValue, CborValue)> = Vec::new();
    let mut i: usize = 0;
    while i < entries.len()
        invariant
            i <= entries.len(),
            entries@.map_values(|e: (String, crate::scope::ScopeParams)| (e.0@, e.1.model())) == p.model(),
            out@.len() == i,
            forall|k: int| 0 <= k < i ==> (#[trigger] out@[k]).0.term() == CborTerm::Text(entries@[k].0@)
                && out@[k].1.term() == scope_cbor(entries@[k].1.model())
                && cbor_term_well_formed(out@[k].1.term()),
        decreases entries.len() - i,
    {
        let v = scope_to_cbor_value(&entries[i].1);
        out.push((CborValue::Text(entries[i].0.clone()), v));
        i = i + 1;
    }
    proof {
        lemma_cbor_term_pairs(out@);
        assert(cbor_term_pairs(out@) =~= params_cbor(p.model())) by {
            assert forall|k: int| 0 <= k < out@.len() implies #[trigger] cbor_term_pairs(out@)[k] == params_cbor(p.model())[k] by {
                assert(p.model()[k] == (entries@[k].0@, entries@[k].1.model()));
            }
        }
    }
    out
}

impl ProtocolMessage {
    /// The envelope map of this message.
    pub fn to_cbor_value(&self) -> (r: CborValue)
        ensures
            r.term() == message_cbor(self.model()),
            cbor_term_well_formed(r.term()),
    {
        let mut pairs: Vec<(CborValue, CborValue)> = Vec::new();
        match self {
            ProtocolMessage::Offer { manifest } => {
                pairs.push((CborValue::Integer(1), CborValue::Integer(1)));
                pairs.push((CborValue::Integer(2), manifest_to_cbor_value(manifest)));
            },
            ProtocolMessage::Confirm { personal_hash, active_set, accepted_params } => {
                let texts = text_values(active_set);
                let arr = CborValue::Array(texts);
                proof {
                    lemma_array_term(arr, texts@);
                    lemma_terms_well_formed(cbor_terms(texts@));
                    lemma_cbor_terms(texts@);
                }
                pairs.push((CborValue::Integer(1), CborValue::Integer(2)));
                pairs.push((CborValue::Integer(3), CborValue::Bytes(personal_hash.clone())));
                pairs.push((CborValue::Integer(4), arr));
                match accepted_params {
                    Some(p) => {
                        let es = params_values(p);
                        let em = CborValue::Entries(es);
                        proof {
                            lemma_entries_term(em, es@);
                            lemma_cbor_term_pairs(es@);
                            lemma_pairs_well_formed(cbor_term_pairs(es@));
                        }
                        pairs.push((CborValue::Integer(5), em));
                    },
                    None => {},
                }
            },
            ProtocolMessage::Close { personal_hash, reason } => {
                pairs.push((CborValue::Integer(1), CborValue::Integer(3)));
                pairs.push((CborValue::Integer(3), CborValue::Bytes(personal_hash.clone())));
                pairs.push((CborValue::Integer(6), CborValue::Integer(reason.to_u64() as i128)));
            },
            ProtocolMessage::Ping { timestamp } => {
                pairs.push((CborValue::Integer(1), CborValue::Integer(4)));
                pairs.push((CborValue::Integer(7), CborValue::Integer(*timestamp as i128)));
            },
            ProtocolMessage::Pong { timestamp } => {
                pairs.push((CborValue::Integer(1), CborValue::Integer(5)));
                pairs.push((CborValue::Integer(7), CborValue::Integer(*timestamp as i128)));
            },
            ProtocolMessage::CapabilityMsg { message_type, payload } => {
                pairs.push((CborValue::Integer(1), CborValue::Integer(*message_type as i128)));
                pairs.push((CborValue::Integer(8), CborValue::Bytes(payload.clone())));
            },
        }
        assert forall|k: int| 0 <= k < pairs@.len() implies cbor_term_well_formed(#[trigger] pairs@[k].0.term())
            && cbor_term_well_formed(pairs@[k].1.term()) by {
        }
        let r = CborValue::Entries(pairs);
        proof {
            lemma_entries_term(r, pairs@);
            lemma_cbor_term_pairs(pairs@);
            let all = cbor_term_pairs(pairs@);
            lemma_pairs_well_formed(all);
            match self.model() {
                MessageModel::Confirm { accepted_params, .. } => {
                    match accepted_params {
                        Some(p) => {},
                        None => {},
                    }
                },
                _ => {},
            }
            assert(all =~= match message_cbor(self.model()) {
                CborTerm::Entries(e) => e,
                _ => Seq::empty(),
            });
        }
        r
    }

    /// The CBOR bytes of the envelope map.
    fn to_cbor_bytes(&self) -> (r: Vec<u8>)
        ensures
            r@ == cbor_encoding(message_cbor(self.model())),
            cbor_plain(message_cbor(self.model())) ==> cbor_decoding(r@) == Some(message_cbor(self.model())),
    {
        cbor_encode(&self.to_cbor_value())
    }

    /// Encode message as length-prefixed CBOR: 4-byte big-endian length + CBOR payload.
    /// Decoding the frame, followed by any bytes, reads back the message
    /// (an OFFER's capabilities sorted by name) when it can travel, its
    /// envelope is a plain data item and the frame is at most 64 MiB.
    pub fn encode(&self) -> (r: Vec<u8>)
        ensures
            r@ == frame(cbor_encoding(message_cbor(self.model()))),
            message_valid(self.model()) && cbor_plain(message_cbor(self.model())) && r@.len() <= 4 + MAX_FRAME
                ==> forall|tail: Seq<u8>|
                #[trigger] decode_frame(r@ + tail) == (
                    Ok::<MessageModel, CodecError>(message_read_back(self.model())),
                    r@.len() as int,
                ),
    {
        let mut payload = self.to_cbor_bytes();
        let len: u32 = #[verifier::truncate] (payload.len() as u32);
        let mut out: Vec<u8> = Vec::new();
        out.push((len >> 24u32) as u8);
        out.push(((len >> 16u32) & 0xff) as u8);
        out.push(((len >> 8u32) & 0xff) as u8);
        out.push((len & 0xff) as u8);
        let ghost p = payload@;
        out.append(&mut payload);
        assert(out@ =~= frame(p));
        proof {
            let m = self.model();
            if message_valid(m) && cbor_plain(message_cbor(m)) && out@.len() <= 4 + MAX_FRAME {
                assert forall|tail: Seq<u8>|
                    #[trigger] decode_frame(out@ + tail) == (
                        Ok::<MessageModel, CodecError>(message_read_back(m)),
                        out@.len() as int,
                    ) by {
                    lemma_decode_encoded(m, tail);
                }
            }
        }
        out
    }
}

} // verus!

verus! {

/// The active-set entries as texts, or `None` when one of them is not a text.
pub open spec fn texts_of(items: Seq<CborTerm>) -> Option<Seq<Seq<char>>>
    decreases items.len(),
{
    if items.len() == 0 {
        Some(Seq::empty())
    } else {
        match texts_of(items.drop_last()) {
            Some(prev) => match items.last() {
                CborTerm::Text(s) => Some(prev.push(s)),
                _ => None,
            },
            None => None,
        }
    }
}

/// Reads the accepted-params map: each entry keyed by a text binds that
/// capability to the scope parameters read from its value, a later entry
/// replacing an earlier one; other entries are skipped. The first value
/// that does not read as scope parameters decides the error.
pub open spec fn params_from_entries(es: Seq<(CborTerm, CborTerm)>) -> Result<Seq<(Seq<char>, ScopeModel)>, CodecError>
    decreases es.len(),
{
    if es.len() == 0 {
        Ok(Seq::empty())
    } else {
        match params_from_entries(es.drop_last()) {
            Err(e) => Err(e),
            Ok(prev) => match es.last().0 {
                CborTerm::Text(name) => match scope_from_cbor(es.last().1) {
                    Ok(s) => Ok(upsert(prev, name, s)),
                    Err(e) => Err(e),
                },
                _ => Ok(prev),
            },
        }
    }
}

/// Reads a message from its envelope map. A message type that is not a
/// protocol type makes a capability message whose payload is the opaque
/// bytes under the payload key (none when that key holds no bytes). The
/// manifest of an OFFER is re-encoded and read from those bytes, which for
/// a plain item gives the item itself back.
pub open spec fn message_from_cbor(t: CborTerm) -> Result<MessageModel, CodecError> {
    match t {
        CborTerm::Entries(m) => match lookup_u64(m, MESSAGE_TYPE) {
            None => Err(CodecError::MissingField(Field::MessageType)),
            Some(code) => match message_type_of_code(code) {
                None => Ok(
                    MessageModel::CapabilityMsg {
                        message_type: code,
                        payload: match lookup(m, PAYLOAD, CborKind::Bytes) {
                            Some(CborTerm::Bytes(b)) => b,
                            _ => Seq::empty(),
                        },
                    },
                ),
                Some(MessageType::Offer) => match lookup(m, MANIFEST, CborKind::Any) {
                    None => Err(CodecError::MissingField(Field::Manifest)),
                    Some(mv) => match (if cbor_plain(mv) {
                        Some(mv)
                    } else {
                        cbor_decoding(cbor_encoding(mv))
                    }) {
                        None => Err(CodecError::Cbor),
                        Some(mt) => match manifest_from_cbor(mt) {
                            Ok(manifest) => Ok(MessageModel::Offer { manifest }),
                            Err(e) => Err(e),
                        },
                    },
                },
                Some(MessageType::Confirm) => match lookup(m, PERSONAL_HASH, CborKind::Bytes) {
                    Some(CborTerm::Bytes(personal_hash)) => match lookup(m, ACTIVE_SET, CborKind::Array) {
                        Some(CborTerm::Array(items)) => match texts_of(items) {
                            None => Err(CodecError::ActiveSetEntry),
                            Some(active_set) => match lookup(m, ACCEPTED_PARAMS, CborKind::Entries) {
                                Some(CborTerm::Entries(es)) => match params_from_entries(es) {
                                    Ok(p) => Ok(
                                        MessageModel::Confirm { personal_hash, active_set, accepted_params: Some(p) },
                                    ),
                                    Err(e) => Err(e),
                                },
                                _ => Ok(MessageModel::Confirm { personal_hash, active_set, accepted_params: None }),
                            },
                        },
                        _ => Err(CodecError::MissingField(Field::ActiveSet)),
                    },
                    _ => Err(CodecError::MissingField(Field::PersonalHash)),
                },
                Some(MessageType::Close) => match lookup(m, PERSONAL_HASH, CborKind::Bytes) {
                    Some(CborTerm::Bytes(personal_hash)) => Ok(
                        MessageModel::Close {
                            personal_hash,
                            reason: match close_reason_of_code(
                                match lookup_u64(m, REASON) {
                                    Some(v) => v,
                                    None => 0,
                                },
                            ) {
                                Some(r) => r,
                                None => CloseReason::Error,
                            },
                        },
                    ),
                    _ => Err(CodecError::MissingField(Field::PersonalHash)),
                },
                Some(MessageType::Ping) => match lookup_u64(m, TIMESTAMP) {
                    Some(timestamp) => Ok(MessageModel::Ping { timestamp }),
                    None => Err(CodecError::MissingField(Field::Timestamp)),
                },
                Some(MessageType::Pong) => match lookup_u64(m, TIMESTAMP) {
                    Some(timestamp) => Ok(MessageModel::Pong { timestamp }),
                    None => Err(CodecError::MissingField(Field::Timestamp)),
                },
            },
        },
        _ => Err(CodecError::ExpectedMap),
    }
}

/// Reads a message from the CBOR bytes of its envelope.
pub open spec fn message_from_bytes(bytes: Seq<u8>) -> Result<MessageModel, CodecError> {
    match cbor_decoding(bytes) {
        None => Err(CodecError::Cbor),
        Some(t) => message_from_cbor(t),
    }
}

proof fn lemma_texts_none_prefix(items: Seq<CborTerm>, n: int)
    requires
        0 <= n <= items.len(),
        texts_of(items.subrange(0, n)) is None,
    ensures
        texts_of(items) is None,
    decreases items.len() - n,
{
    if n < items.len() {
        assert(items.subrange(0, n + 1).drop_last() =~= items.subrange(0, n));
        lemma_texts_none_prefix(items, n + 1);
    } else {
        assert(items.subrange(0, n) =~= items);
    }
}

proof fn lemma_params_error_prefix(es: Seq<(CborTerm, CborTerm)>, n: int)
    requires
        0 <= n <= es.len(),
        params_from_entries(es.subrange(0, n)) is Err,
    ensures
        params_from_entries(es) == params_from_entries(es.subrange(0, n)),
    decreases es.len() - n,
{
    if n < es.len() {
        assert(es.subrange(0, n + 1).drop_last() =~= es.subrange(0, n));
        lemma_params_error_prefix(es, n + 1);
    } else {
        assert(es.subrange(0, n) =~= es);
    }
}

/// The texts of an array, or `None` when an item is not a text.
fn texts_from(items: &Vec<CborValue>) -> (r: Option<Vec<String>>)
    ensures
        match r {
            Some(v) => texts_of(cbor_terms(items@)) == Some(texts_model(v@)),
            None => texts_of(cbor_terms(items@)) is None,
        },
{
    let ghost all = cbor_terms(items@);
    proof {
        lemma_cbor_terms(items@);
    }
    let mut out: Vec<String> = Vec::new();
    let mut i: usize = 0;
    assert(all.subrange(0, 0) =~= Seq::<CborTerm>::empty());
    assert(texts_model(out@) =~= Seq::<Seq<char>>::empty());
    while i < items.len()
        invariant
            i <= items.len(),
            all == items@.map_values(|v: CborValue| v.term()),
            all == cbor_terms(items@),
            texts_of(all.subrange(0, i as int)) == Some(texts_model(out@)),
        decreases items.len() - i,
    {
        let ghost pre = all.subrange(0, i + 1);
        assert(pre.drop_last() =~= all.subrange(0, i as int));
        assert(pre.last() == items@[i as int].term());
        match &items[i] {
            CborValue::Text(s) => {
                let ghost before = out@;
                out.push(s.clone());
                assert(texts_model(out@) =~= texts_model(before).push(s@));
            },
            _ => {
                proof {
                    assert(texts_of(pre) is None);
                    lemma_texts_none_prefix(all, i + 1);
                }
                return None;
            },
        }
        i = i + 1;
    }
    assert(all.subrange(0, i as int) =~= all);
    Some(out)
}

/// Reads the accepted-params map.
fn params_from(es: &Vec<(CborValue, CborValue)>) -> (r: Result<ParamsMap, CodecError>)
    ensures
        match r {
            Ok(p) => params_from_entries(cbor_term_pairs(es@)) == Ok::<Seq<(Seq<char>, ScopeModel)>, CodecError>(p.model()),
            Err(e) => params_from_entries(cbor_term_pairs(es@)) == Err::<Seq<(Seq<char>, ScopeModel)>, CodecError>(e),
        },
{
    let ghost all = cbor_term_pairs(es@);
    proof {
        lemma_cbor_term_pairs(es@);
    }
    let mut out = ParamsMap::new();
    let mut i: usize = 0;
    assert(all.subrange(0, 0) =~= Seq::<(CborTerm, CborTerm)>::empty());
    while i < es.len()
        invariant
            i <= es.len(),
            all == es@.map_values(|p: (CborValue, CborValue)| (p.0.term(), p.1.term())),
            all == cbor_term_pairs(es@),
            params_from_entries(all.subrange(0, i as int)) == Ok::<Seq<(Seq<char>, ScopeModel)>, CodecError>(out.model()),
        decreases es.len() - i,
    {
        let ghost pre = all.subrange(0, i + 1);
        assert(pre.drop_last() =~= all.subrange(0, i as int));
        assert(pre.last() == (es@[i as int].0.term(), es@[i as int].1.term()));
        match &es[i].0 {
            CborValue::Text(name) => {
                match crate::cbor::scope_from_cbor_value(&es[i].1) {
                    Ok(s) => {
                        out.insert(name.clone(), s);
                    },
                    Err(e) => {
                        proof {
                            assert(params_from_entries(pre) == Err::<Seq<(Seq<char>, ScopeModel)>, CodecError>(e));
                            lemma_params_error_prefix(all, i + 1);
                        }
                        return Err(e);
                    },
                }
            },
            _ => {},
        }
        i = i + 1;
    }
    assert(all.subrange(0, i as int) =~= all);
    Ok(out)
}

/// Whether an item is the integer `key`.
fn is_key(v: &CborValue, key: u64) -> (r: bool)
    ensures
        r == (term_u64(v.term()) == Some(key)),
{
    match crate::cbor_value::value_u64(v) {
        Some(k) => k == key,
        None => false,
    }
}

impl ProtocolMessage {
    /// Reads a message from its envelope map.
    pub fn from_cbor_value(val: CborValue) -> (r: Result<Self, CodecError>)
        requires
            cbor_term_well_formed(val.term()),
        ensures
            match r {
                Ok(msg) => message_from_cbor(val.term()) == Ok::<MessageModel, CodecError>(msg.model()),
                Err(e) => message_from_cbor(val.term()) == Err::<MessageModel, CodecError>(e),
            },
    {
        let ghost t = val.term();
        let m = match val {
            CborValue::Entries(m) => m,
            _ => {
                return Err(CodecError::ExpectedMap);
            },
        };
        let ghost mt = cbor_term_pairs(m@);
        proof {
            lemma_cbor_term_pairs(m@);
            lemma_pairs_well_formed(mt);
        }
        let code = match crate::cbor::map_get_int(&m, MESSAGE_TYPE) {
            Some(c) => c,
            None => {
                return Err(CodecError::MissingField(Field::MessageType));
            },
        };
        match MessageType::from_u64(code) {
            None => {
                let payload = match map_get(&m, PAYLOAD, CborKind::Bytes) {
                    Some(CborValue::Bytes(b)) => b.clone(),
                    _ => Vec::new(),
                };
                Ok(ProtocolMessage::CapabilityMsg { message_type: code, payload })
            },
            Some(MessageType::Offer) => {
                let mv = match map_get(&m, MANIFEST, CborKind::Any) {
                    Some(v) => v,
                    None => {
                        return Err(CodecError::MissingField(Field::Manifest));
                    },
                };
                proof {
                    crate::cbor_value::lemma_lookup_well_formed(mt, MANIFEST, CborKind::Any);
                }
                let bytes = cbor_encode(mv);
                match DiscoveryManifest::from_cbor(bytes.as_slice()) {
                    Ok(manifest) => Ok(ProtocolMessage::Offer { manifest }),
                    Err(e) => Err(e),
                }
            },
            Some(MessageType::Confirm) => {
                let personal_hash = match map_get(&m, PERSONAL_HASH, CborKind::Bytes) {
                    Some(CborValue::Bytes(b)) => b.clone(),
                    _ => {
                        return Err(CodecError::MissingField(Field::PersonalHash));
                    },
                };
                let items = match map_get(&m, ACTIVE_SET, CborKind::Array) {
                    Some(CborValue::Array(a)) => a,
                    _ => {
                        return Err(CodecError::MissingField(Field::ActiveSet));
                    },
                };
                let active_set = match texts_from(items) {
                    Some(v) => v,
                    None => {
                        return Err(CodecError::ActiveSetEntry);
                    },
                };
                let accepted_params = match map_get(&m, ACCEPTED_PARAMS, CborKind::Entries) {
                    Some(CborValue::Entries(es)) => match params_from(es) {
                        Ok(p) => Some(p),
                        Err(e) => {
                            return Err(e);
                        },
                    },
                    _ => None,
                };
                Ok(ProtocolMessage::Confirm { personal_hash, active_set, accepted_params })
            },
            Some(MessageType::Close) => {
                let personal_hash = match map_get(&m, PERSONAL_HASH, CborKind::Bytes) {
                    Some(CborValue::Bytes(b)) => b.clone(),
                    _ => {
                        return Err(CodecError::MissingField(Field::PersonalHash));
                    },
                };
                let code = match crate::cbor::map_get_int(&m, REASON) {
                    Some(v) => v,
                    None => 0,
                };
                let reason = match CloseReason::from_u64(code) {
                    Some(r) => r,
                    None => CloseReason::Error,
                };
                Ok(ProtocolMessage::Close { personal_hash, reason })
            },
            Some(MessageType::Ping) => match crate::cbor::map_get_int(&m, TIMESTAMP) {
                Some(timestamp) => Ok(ProtocolMessage::Ping { timestamp }),
                None => Err(CodecError::MissingField(Field::Timestamp)),
            },
            Some(MessageType::Pong) => match crate::cbor::map_get_int(&m, TIMESTAMP) {
                Some(timestamp) => Ok(ProtocolMessage::Pong { timestamp }),
                None => Err(CodecError::MissingField(Field::Timestamp)),
            },
        }
    }

    /// Reads a message from the CBOR bytes of its envelope.
    fn from_cbor_bytes(bytes: &[u8]) -> (r: Result<Self, CodecError>)
        ensures
            match r {
                Ok(msg) => message_from_bytes(bytes@) == Ok::<MessageModel, CodecError>(msg.model()),
                Err(e) => message_from_bytes(bytes@) == Err::<MessageModel, CodecError>(e),
            },
    {
        match cbor_decode(bytes) {
            Some(v) => Self::from_cbor_value(v),
            None => Err(CodecError::Cbor),
        }
    }
}


/// What reading one framed message from the front of `bytes` gives, and how
/// many bytes the read takes: the 4-byte prefix, then as many bytes as it
/// announces (at most 64 MiB); a read that runs out of bytes takes them all.
pub open spec fn decode_frame(bytes: Seq<u8>) -> (Result<MessageModel, CodecError>, int) {
    if bytes.len() < 4 {
        (Err(CodecError::LengthPrefix), bytes.len() as int)
    } else {
        let n = header_value(bytes.subrange(0, 4));
        if n > MAX_FRAME {
            (Err(CodecError::TooLarge), 4)
        } else if bytes.len() < 4 + n {
            (Err(CodecError::Payload), bytes.len() as int)
        } else {
            (message_from_bytes(bytes.subrange(4, 4 + n)), 4 + n)
        }
    }
}

impl ProtocolMessage {
    /// Read a length-prefixed CBOR message from the front of `reader`,
    /// advancing it past the bytes read.
    pub fn decode<'a>(reader: &mut &'a [u8]) -> (r: Result<Self, CodecError>)
        ensures
            match r {
                Ok(msg) => decode_frame(old(reader)@).0 == Ok::<MessageModel, CodecError>(msg.model()),
                Err(e) => decode_frame(old(reader)@).0 == Err::<MessageModel, CodecError>(e),
            },
            final(reader)@ == old(reader)@.subrange(decode_frame(old(reader)@).1, old(reader)@.len() as int),
    {
        let buf: &'a [u8] = *reader;
        if buf.len() < 4 {
            let (_, rest) = buf.split_at(buf.len());
            *reader = rest;
            return Err(CodecError::LengthPrefix);
        }
        let n: u64 = (buf[0] as u64) * 0x100_0000 + (buf[1] as u64) * 0x1_0000 + (buf[2] as u64) * 0x100 + (buf[3] as u64);
        assert(n == header_value(buf@.subrange(0, 4)));
        let (_, after) = buf.split_at(4);
        if n > 67108864 {
            *reader = after;
            return Err(CodecError::TooLarge);
        }
        let len = n as usize;
        if after.len() < len {
            let (_, rest) = buf.split_at(buf.len());
            *reader = rest;
            return Err(CodecError::Payload);
        }
        let (payload, rest) = after.split_at(len);
        assert(payload@ =~= buf@.subrange(4, 4 + n));
        assert(rest@ =~= buf@.subrange(4 + n, buf@.len() as int));
        *reader = rest;
        Self::from_cbor_bytes(payload)
    }
}


/// The length prefix reads back as the length it was written from.
pub proof fn lemma_header_round_trip(n: u32)
    ensures
        header_value(length_header(n)) == n,
        length_header(n).len() == 4,
{
    let h = length_header(n);
    assert((n >> 24u32) < 256 && ((n >> 16u32) & 0xff) < 256 && ((n >> 8u32) & 0xff) < 256 && (n & 0xff) < 256)
        by (bit_vector);
    assert((n >> 24u32) * 0x100_0000 + ((n >> 16u32) & 0xff) * 0x1_0000 + ((n >> 8u32) & 0xff) * 0x100 + (n & 0xff) == n)
        by (bit_vector);
    assert(h[0] == (n >> 24u32));
    assert(h[1] == ((n >> 16u32) & 0xff));
    assert(h[2] == ((n >> 8u32) & 0xff));
    assert(h[3] == (n & 0xff));
}

/// Framing a payload of at most 64 MiB and reading a frame back takes the
/// whole frame and reads the payload, whatever bytes follow it.
pub proof fn lemma_frame_round_trip(payload: Seq<u8>, tail: Seq<u8>)
    requires
        payload.len() <= MAX_FRAME,
    ensures
        decode_frame(frame(payload) + tail) == (message_from_bytes(payload), 4 + payload.len() as int),
{
    let n = payload.len() as u32;
    lemma_header_round_trip(n);
    let b = frame(payload) + tail;
    assert(b.subrange(0, 4) =~= length_header(n));
    assert(b.subrange(4, 4 + payload.len() as int) =~= payload);
}

} // verus!
