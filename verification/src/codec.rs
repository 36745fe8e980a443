//! CBOR encoding of discovery manifests and protocol messages, the personal
//! hash and the length-prefixed framing of messages.
use vstd::prelude::*;

use crate::cbor::{
    cap_cbor, cap_from_cbor, cap_from_cbor_value, cap_to_cbor_value, lookup_u64, map_get_int,
    CodecError, Field,
};
use crate::cbor_value::{
    array_term, cbor_decode, cbor_decoding, cbor_encode, cbor_encoding, cbor_term_pairs,
    cbor_term_well_formed, cbor_terms, lemma_array_term, lemma_cbor_term_pairs, lemma_cbor_terms,
    lemma_entries_term, lookup, map_get, CborKind, CborTerm, CborValue,
};
use crate::manifest::{
    cap_name_key, caps_model, clone_caps, sort_caps_by_name, CapModel, CapabilityDeclaration,
    DiscoveryManifest, ManifestModel, PEER_ID_LEN,
};
use crate::sorting::sort_by_key;

verus! {

/// The CBOR map a manifest is written as: capabilities sorted by name.
pub open spec fn manifest_cbor(m: ManifestModel) -> CborTerm {
    CborTerm::Entries(
        seq![
            (CborTerm::Integer(crate::manifest_keys::PROTOCOL_VERSION as int), CborTerm::Integer(m.protocol_version as int)),
            (CborTerm::Integer(crate::manifest_keys::PEER_ID as int), CborTerm::Bytes(m.peer_id)),
            (CborTerm::Integer(crate::manifest_keys::SEQUENCE_NUM as int), CborTerm::Integer(m.sequence_num as int)),
            (
                CborTerm::Integer(crate::manifest_keys::CAPABILITIES as int),
                CborTerm::Array(
                    sort_by_key(m.capabilities, cap_name_key()).map_values(|c: CapModel| cap_cbor(c)),
                ),
            ),
            (CborTerm::Integer(crate::manifest_keys::PERSONAL_HASH as int), CborTerm::Bytes(m.personal_hash)),
            (CborTerm::Integer(crate::manifest_keys::HASH_ALGORITHM as int), CborTerm::Text(m.hash_algorithm)),
        ],
    )
}

/// Reads the capabilities of a manifest; the first unreadable one decides the error.
pub open spec fn caps_from_cbor(items: Seq<CborTerm>) -> Result<Seq<CapModel>, CodecError>
    decreases items.len(),
{
    if items.len() == 0 {
        Ok(Seq::empty())
    } else {
        match caps_from_cbor(items.drop_last()) {
            Ok(prev) => match cap_from_cbor(items.last()) {
                Ok(c) => Ok(prev.push(c)),
                Err(e) => Err(e),
            },
            Err(e) => Err(e),
        }
    }
}

/// Reads a manifest from a CBOR item.
pub open spec fn manifest_from_cbor(t: CborTerm) -> Result<ManifestModel, CodecError> {
    match t {
        CborTerm::Entries(m) => match lookup_u64(m, crate::manifest_keys::PROTOCOL_VERSION) {
            None => Err(CodecError::MissingField(Field::ProtocolVersion)),
            Some(protocol_version) => match lookup(m, crate::manifest_keys::PEER_ID, CborKind::Bytes) {
                Some(CborTerm::Bytes(peer_id)) => if peer_id.len() != 32 {
                    Err(CodecError::PeerIdLength)
                } else {
                    match lookup_u64(m, crate::manifest_keys::SEQUENCE_NUM) {
                        None => Err(CodecError::MissingField(Field::SequenceNum)),
                        Some(sequence_num) => match lookup(m, crate::manifest_keys::CAPABILITIES, CborKind::Array) {
                            Some(CborTerm::Array(items)) => match caps_from_cbor(items) {
                                Err(e) => Err(e),
                                Ok(capabilities) => match lookup(m, crate::manifest_keys::PERSONAL_HASH, CborKind::Bytes) {
                                    Some(CborTerm::Bytes(personal_hash)) => match lookup(m, crate::manifest_keys::HASH_ALGORITHM, CborKind::Text) {
                                        Some(CborTerm::Text(hash_algorithm)) => Ok(
                                            ManifestModel {
                                                protocol_version,
                                                peer_id,
                                                sequence_num,
                                                capabilities,
                                                personal_hash,
                                                hash_algorithm,
                                            },
                                        ),
                                        _ => Err(CodecError::MissingField(Field::HashAlgorithm)),
                                    },
                                    _ => Err(CodecError::MissingField(Field::PersonalHash)),
                                },
                            },
                            _ => Err(CodecError::MissingField(Field::Capabilities)),
                        },
                    }
                },
                _ => Err(CodecError::MissingField(Field::PeerId)),
            },
        },
        _ => Err(CodecError::ExpectedMap),
    }
}

/// Writes a manifest as a CBOR map, capabilities sorted by name.
pub fn manifest_to_cbor_value(m: &DiscoveryManifest) -> (r: CborValue)
    ensures
        r.term() == manifest_cbor(m.model()),
        cbor_term_well_formed(r.term()),
{
    let caps = sort_caps_by_name(clone_caps(&m.capabilities));
    let ghost sorted = caps_model(caps@);
    let mut arr: Vec<CborValue> = Vec::new();
    let mut i: usize = 0;
    while i < caps.len()
        invariant
            i <= caps.len(),
            sorted == caps_model(caps@),
            arr@.len() == i,
            forall|x: int| 0 <= x < i ==> (#[trigger] arr@[x]).term() == cap_cbor(sorted[x]) && cbor_term_well_formed(arr@[x].term()),
        decreases caps.len() - i,
    {
        arr.push(cap_to_cbor_value(&caps[i]));
        i = i + 1;
    }
    let av = CborValue::Array(arr);
    proof {
        lemma_array_term(av, arr@);
        assert(arr@.map_values(|v: CborValue| v.term()) =~= sorted.map_values(|c: CapModel| cap_cbor(c)));
        crate::cbor_value::lemma_terms_well_formed(arr@.map_values(|v: CborValue| v.term()));
    }
    let mut pairs: Vec<(CborValue, CborValue)> = Vec::new();
    pairs.push((CborValue::Integer(1), CborValue::Integer(m.protocol_version as i128)));
    pairs.push((CborValue::Integer(2), CborValue::Bytes(crate::manifest::peer_id_bytes(&m.peer_id))));
    pairs.push((CborValue::Integer(3), CborValue::Integer(m.sequence_num as i128)));
    pairs.push((CborValue::Integer(4), av));
    pairs.push((CborValue::Integer(5), CborValue::Bytes(m.personal_hash.clone())));
    pairs.push((CborValue::Integer(6), CborValue::Text(m.hash_algorithm.clone())));
    let r = CborValue::Entries(pairs);
    proof {
        lemma_entries_term(r, pairs@);
        let all = pairs@.map_values(|p: (CborValue, CborValue)| (p.0.term(), p.1.term()));
        assert(all =~= match manifest_cbor(m.model()) {
            CborTerm::Entries(e) => e,
            _ => Seq::empty(),
        });
        crate::cbor_value::lemma_pairs_well_formed(all);
        assert forall|k: int| 0 <= k < all.len() implies cbor_term_well_formed(#[trigger] all[k].0) && cbor_term_well_formed(all[k].1) by {
        }
    }
    r
}

} // verus!

verus! {

/// Reads a manifest from a CBOR item.
#[verifier::loop_isolation(false)]
pub fn manifest_from_cbor_value(val: &CborValue) -> (r: Result<DiscoveryManifest, CodecError>)
    ensures
        match r {
            Ok(m) => manifest_from_cbor(val.term()) == Ok::<ManifestModel, CodecError>(m.model()),
            Err(e) => manifest_from_cbor(val.term()) == Err::<ManifestModel, CodecError>(e),
        },
{
    let m = match val {
        CborValue::Entries(m) => m,
        _ => {
            return Err(CodecError::ExpectedMap);
        },
    };
    let protocol_version = match map_get_int(m, crate::manifest_keys::PROTOCOL_VERSION) {
        Some(v) => v,
        None => {
            return Err(CodecError::MissingField(Field::ProtocolVersion));
        },
    };
    let peer_id_bytes = match map_get(m, crate::manifest_keys::PEER_ID, CborKind::Bytes) {
        Some(CborValue::Bytes(b)) => b,
        _ => {
            return Err(CodecError::MissingField(Field::PeerId));
        },
    };
    if peer_id_bytes.len() != PEER_ID_LEN {
        return Err(CodecError::PeerIdLength);
    }
    let peer_id = crate::manifest::peer_id_from_bytes(peer_id_bytes.as_slice());
    let sequence_num = match map_get_int(m, crate::manifest_keys::SEQUENCE_NUM) {
        Some(v) => v,
        None => {
            return Err(CodecError::MissingField(Field::SequenceNum));
        },
    };
    let arr = match map_get(m, crate::manifest_keys::CAPABILITIES, CborKind::Array) {
        Some(CborValue::Array(a)) => a,
        _ => {
            return Err(CodecError::MissingField(Field::Capabilities));
        },
    };
    let ghost items = cbor_terms(arr@);
    proof {
        lemma_cbor_terms(arr@);
    }
    let mut capabilities: Vec<CapabilityDeclaration> = Vec::new();
    let mut i: usize = 0;
    assert(items.subrange(0, 0) =~= Seq::<CborTerm>::empty());
    assert(caps_model(capabilities@) =~= Seq::<CapModel>::empty());
    while i < arr.len()
        invariant
            i <= arr.len(),
            items == arr@.map_values(|v: CborValue| v.term()),
            caps_from_cbor(items.subrange(0, i as int)) == Ok::<Seq<CapModel>, CodecError>(caps_model(capabilities@)),
        decreases arr.len() - i,
    {
        let ghost pre = items.subrange(0, i + 1);
        assert(pre.drop_last() =~= items.subrange(0, i as int));
        assert(pre.last() == arr@[i as int].term());
        match cap_from_cbor_value(&arr[i]) {
            Ok(c) => {
                let ghost before = capabilities@;
                capabilities.push(c);
                assert(caps_model(capabilities@) =~= caps_model(before).push(c.model()));
            },
            Err(e) => {
                proof {
                    assert(caps_from_cbor(pre) == Err::<Seq<CapModel>, CodecError>(e));
                    lemma_caps_error_prefix(items, i as int + 1);
                }
                return Err(e);
            },
        }
        i = i + 1;
    }
    assert(items.subrange(0, i as int) =~= items);
    let personal_hash = match map_get(m, crate::manifest_keys::PERSONAL_HASH, CborKind::Bytes) {
        Some(CborValue::Bytes(b)) => b.clone(),
        _ => {
            return Err(CodecError::MissingField(Field::PersonalHash));
        },
    };
    let hash_algorithm = match map_get(m, crate::manifest_keys::HASH_ALGORITHM, CborKind::Text) {
        Some(CborValue::Text(t)) => t.clone(),
        _ => {
            return Err(CodecError::MissingField(Field::HashAlgorithm));
        },
    };
    Ok(DiscoveryManifest { protocol_version, peer_id, sequence_num, capabilities, personal_hash, hash_algorithm })
}

/// An error among the first `n` capabilities is the error of the whole list.
proof fn lemma_caps_error_prefix(items: Seq<CborTerm>, n: int)
    requires
        0 <= n <= items.len(),
        caps_from_cbor(items.subrange(0, n)) is Err,
    ensures
        caps_from_cbor(items) == caps_from_cbor(items.subrange(0, n)),
    decreases items.len() - n,
{
    if n < items.len() {
        let next = items.subrange(0, n + 1);
        assert(next.drop_last() =~= items.subrange(0, n));
        lemma_caps_error_prefix(items, n + 1);
    } else {
        assert(items.subrange(0, n) =~= items);
    }
}

/// The digest `sha2::Sha256` computes of a byte string.
pub uninterp spec fn sha256_digest(data: Seq<u8>) -> Seq<u8>;

/// Hashes bytes with `sha2::Sha256::digest`. Claims: the result is
/// `sha256_digest` of the input, and a SHA-256 digest is 32 bytes long.
#[verifier::external_body]
pub(crate) fn sha256(data: &[u8]) -> (r: Vec<u8>)
    ensures
        r@ == sha256_digest(data@),
        r@.len() == 32,
{
    <sha2::Sha256 as sha2::Digest>::digest(data).to_vec()
}

/// The model of a manifest with its sequence number and personal hash cleared,
/// the form the personal hash is computed over.
pub open spec fn hash_basis(m: ManifestModel) -> ManifestModel {
    ManifestModel { sequence_num: 0, personal_hash: Seq::empty(), ..m }
}

impl DiscoveryManifest {
    /// Encode manifest to deterministic CBOR with integer keys.
    /// Capabilities are sorted lexicographically before encoding.
    pub fn to_cbor(&self) -> (r: Vec<u8>)
        ensures
            r@ == cbor_encoding(manifest_cbor(self.model())),
    {
        cbor_encode(&manifest_to_cbor_value(self))
    }

    /// Decode manifest from CBOR bytes.
    pub fn from_cbor(bytes: &[u8]) -> (r: Result<Self, CodecError>)
        ensures
            match cbor_decoding(bytes@) {
                None => r == Err::<Self, CodecError>(CodecError::Cbor),
                Some(t) => match r {
                    Ok(m) => manifest_from_cbor(t) == Ok::<ManifestModel, CodecError>(m.model()),
                    Err(e) => manifest_from_cbor(t) == Err::<ManifestModel, CodecError>(e),
                },
            },
    {
        match cbor_decode(bytes) {
            Some(v) => manifest_from_cbor_value(&v),
            None => Err(CodecError::Cbor),
        }
    }
}

/// Compute SHA-256 of deterministic CBOR-encoded manifest with sequence_num=0
/// and an empty personal hash: the capability configuration hash.
pub fn personal_hash(manifest: &DiscoveryManifest) -> (r: Vec<u8>)
    ensures
        r@ == sha256_digest(cbor_encoding(manifest_cbor(hash_basis(manifest.model())))),
        r@.len() == 32,
{
    let mut m = manifest.clone();
    m.sequence_num = 0;
    m.personal_hash = Vec::new();
    assert(m.model() == hash_basis(manifest.model()));
    let encoded = m.to_cbor();
    sha256(encoded.as_slice())
}

/// The personal hash does not depend on the sequence number or on the
/// personal hash already stored in the manifest.
pub proof fn lemma_personal_hash_ignores_sequence(a: ManifestModel, b: ManifestModel)
    requires
        a.protocol_version == b.protocol_version,
        a.peer_id == b.peer_id,
        a.capabilities == b.capabilities,
        a.hash_algorithm == b.hash_algorithm,
    ensures
        sha256_digest(cbor_encoding(manifest_cbor(hash_basis(a)))) == sha256_digest(
            cbor_encoding(manifest_cbor(hash_basis(b))),
        ),
{
    assert(hash_basis(a) == hash_basis(b));
}

} // verus!
