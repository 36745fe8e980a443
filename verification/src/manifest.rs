use vstd::prelude::*;

use crate::scope::{ScopeModel, ScopeParams};
use crate::sorting::{insert_by_key, lemma_insert_position, sort_by_key};
use crate::strings::text_less;
use crate::wire::Role;

verus! {

/// Protocol version spoken by this node.
pub const PROTOCOL_VERSION: u64 = 1;

/// WireGuard Curve25519 public key length in bytes.
pub const PEER_ID_LEN: usize = 32;

/// Peer identity: the WireGuard Curve25519 public key, 32 bytes.
pub type PeerId = [u8; 32];

/// A capability as declared in a discovery manifest.
#[derive(Debug)]
pub struct CapabilityDeclaration {
    /// Fully qualified name (e.g. "core.session.heartbeat.1")
    pub name: String,
    pub role: Role,
    /// Required for Both+Both matching
    pub mutual: bool,
    /// Scope constraints advertised to remote peers.
    pub scope: Option<ScopeParams>,
    /// Optional list of scope parameter keys meaningful for this capability.
    pub applicable_scope_keys: Option<Vec<u64>>,
}

/// Mathematical model of a capability declaration.
pub struct CapModel {
    pub name: Seq<char>,
    pub role: Role,
    pub mutual: bool,
    pub scope: Option<ScopeModel>,
    pub applicable_scope_keys: Option<Seq<u64>>,
}

impl CapabilityDeclaration {
    pub open spec fn model(&self) -> CapModel {
        CapModel {
            name: self.name@,
            role: self.role,
            mutual: self.mutual,
            scope: match self.scope {
                Some(s) => Some(s.model()),
                None => None,
            },
            applicable_scope_keys: match self.applicable_scope_keys {
                Some(k) => Some(k@),
                None => None,
            },
        }
    }
}

impl Clone for CapabilityDeclaration {
    fn clone(&self) -> (r: Self)
        ensures
            r.model() == self.model(),
    {
        CapabilityDeclaration {
            name: self.name.clone(),
            role: self.role,
            mutual: self.mutual,
            scope: match &self.scope {
                Some(s) => Some(s.clone()),
                None => None,
            },
            applicable_scope_keys: match &self.applicable_scope_keys {
                Some(k) => Some(k.clone()),
                None => None,
            },
        }
    }
}

/// The models of a sequence of capability declarations.
pub open spec fn caps_model(s: Seq<CapabilityDeclaration>) -> Seq<CapModel> {
    s.map_values(|c: CapabilityDeclaration| c.model())
}

/// The sort key of a capability: its name.
pub open spec fn cap_name_key() -> spec_fn(CapModel) -> Seq<char> {
    |c: CapModel| c.name
}

/// A peer's discovery manifest.
#[derive(Debug)]
pub struct DiscoveryManifest {
    pub protocol_version: u64,
    /// WireGuard Curve25519 public key (32 bytes) — this IS the peer_id.
    pub peer_id: PeerId,
    /// Monotonically increasing; incremented on each rebroadcast.
    pub sequence_num: u64,
    /// MUST be sorted lexicographically by name before serialization.
    pub capabilities: Vec<CapabilityDeclaration>,
    /// SHA-256 of deterministic CBOR-encoded manifest with sequence_num=0.
    pub personal_hash: Vec<u8>,
    /// IANA hash algorithm name, e.g. "sha-256".
    pub hash_algorithm: String,
}

/// Mathematical model of a discovery manifest.
pub struct ManifestModel {
    pub protocol_version: u64,
    pub peer_id: Seq<u8>,
    pub sequence_num: u64,
    pub capabilities: Seq<CapModel>,
    pub personal_hash: Seq<u8>,
    pub hash_algorithm: Seq<char>,
}

impl DiscoveryManifest {
    pub open spec fn model(&self) -> ManifestModel {
        ManifestModel {
            protocol_version: self.protocol_version,
            peer_id: self.peer_id@,
            sequence_num: self.sequence_num,
            capabilities: caps_model(self.capabilities@),
            personal_hash: self.personal_hash@,
            hash_algorithm: self.hash_algorithm@,
        }
    }
}

/// Clones a list of capability declarations.
pub fn clone_caps(caps: &Vec<CapabilityDeclaration>) -> (r: Vec<CapabilityDeclaration>)
    ensures
        caps_model(r@) == caps_model(caps@),
{
    let mut out: Vec<CapabilityDeclaration> = Vec::new();
    let mut i: usize = 0;
    while i < caps.len()
        invariant
            i <= caps.len(),
            out@.len() == i,
            forall|k: int| 0 <= k < i ==> #[trigger] out@[k].model() == caps@[k].model(),
        decreases caps.len() - i,
    {
        out.push(caps[i].clone());
        i = i + 1;
    }
    assert(caps_model(out@) =~= caps_model(caps@));
    out
}

impl Clone for DiscoveryManifest {
    fn clone(&self) -> (r: Self)
        ensures
            r.model() == self.model(),
    {
        DiscoveryManifest {
            protocol_version: self.protocol_version,
            peer_id: self.peer_id,
            sequence_num: self.sequence_num,
            capabilities: clone_caps(&self.capabilities),
            personal_hash: self.personal_hash.clone(),
            hash_algorithm: self.hash_algorithm.clone(),
        }
    }
}

/// Sorts capability declarations by name, stably (the order of
/// `sort_by(|a, b| a.name.cmp(&b.name))`).
pub fn sort_caps_by_name(caps: Vec<CapabilityDeclaration>) -> (r: Vec<CapabilityDeclaration>)
    ensures
        caps_model(r@) == sort_by_key(caps_model(caps@), cap_name_key()),
{
    let mut input = caps;
    let ghost orig = caps_model(input@);
    let mut out: Vec<CapabilityDeclaration> = Vec::new();
    let mut i: usize = 0;
    let n = input.len();
    while i < n
        invariant
            n == orig.len(),
            i <= n,
            input@.len() == n - i,
            caps_model(input@) == orig.subrange(i as int, n as int),
            caps_model(out@) == sort_by_key(orig.subrange(0, i as int), cap_name_key()),
        decreases n - i,
    {
        let ghost old_in = input@;
        assert(caps_model(old_in)[0] == orig.subrange(i as int, n as int)[0]);
        let x = input.remove(0);
        let ghost xm = x.model();
        assert(xm == orig[i as int]);
        assert(caps_model(input@) =~= caps_model(old_in).subrange(1, old_in.len() as int));
        assert(caps_model(input@) =~= orig.subrange(i + 1, n as int));
        let mut j = out.len();
        while j > 0 && text_less(x.name.as_str(), out[j - 1].name.as_str())
            invariant
                j <= out@.len(),
                x.model() == xm,
                forall|k: int| j <= k < out@.len() ==> crate::strings::text_lt(xm.name, #[trigger] out@[k].model().name),
            decreases j,
        {
            j = j - 1;
        }
        let ghost before = caps_model(out@);
        proof {
            let key = cap_name_key();
            assert forall|k: int| j <= k < before.len() implies crate::strings::text_lt(key(xm), #[trigger] key(before[k])) by {
                assert(before[k] == out@[k].model());
            }
            if j > 0 {
                assert(before[j - 1] == out@[j - 1].model());
            }
            lemma_insert_position(before, xm, key, j as int);
        }
        out.insert(j, x);
        proof {
            assert(caps_model(out@) =~= before.insert(j as int, xm));
            let pre = orig.subrange(0, i + 1);
            assert(pre.drop_last() =~= orig.subrange(0, i as int));
            assert(pre.last() == xm);
        }
        i = i + 1;
    }
    assert(orig.subrange(0, n as int) =~= orig);
    out
}

impl DiscoveryManifest {
    /// Sort capabilities lexicographically by name
    pub fn sort_capabilities(&mut self)
        ensures
            final(self).model() == (ManifestModel {
                capabilities: sort_by_key(old(self).model().capabilities, cap_name_key()),
                ..old(self).model()
            }),
    {
        let mut caps: Vec<CapabilityDeclaration> = Vec::new();
        std::mem::swap(&mut caps, &mut self.capabilities);
        self.capabilities = sort_caps_by_name(caps);
    }
}

} // verus!

verus! {

/// Equality of two peer identities.
pub fn peer_id_eq(a: &PeerId, b: &PeerId) -> (r: bool)
    ensures
        r == (a@ == b@),
{
    let mut i: usize = 0;
    while i < 32
        invariant
            i <= 32,
            a@.len() == 32,
            b@.len() == 32,
            forall|k: int| 0 <= k < i ==> a@[k] == b@[k],
        decreases 32 - i,
    {
        if a[i] != b[i] {
            return false;
        }
        i = i + 1;
    }
    assert(a@ =~= b@);
    true
}

} // verus!

verus! {

/// The bytes of a peer id as a vector.
pub fn peer_id_bytes(id: &PeerId) -> (r: Vec<u8>)
    ensures
        r@ == id@,
{
    let mut out: Vec<u8> = Vec::with_capacity(32);
    let mut i: usize = 0;
    while i < 32
        invariant
            i <= 32,
            id@.len() == 32,
            out@ == id@.subrange(0, i as int),
        decreases 32 - i,
    {
        out.push(id[i]);
        i = i + 1;
    }
    assert(id@.subrange(0, 32) =~= id@);
    out
}

/// The peer id held by a 32-byte string.
pub fn peer_id_from_bytes(bytes: &[u8]) -> (r: PeerId)
    requires
        bytes@.len() == 32,
    ensures
        r@ == bytes@,
{
    let mut id: PeerId = [0u8; 32];
    let mut i: usize = 0;
    while i < 32
        invariant
            i <= 32,
            bytes@.len() == 32,
            id@.len() == 32,
            forall|k: int| 0 <= k < i ==> id@[k] == bytes@[k],
        decreases 32 - i,
    {
        id.set(i, bytes[i]);
        i = i + 1;
    }
    assert(id@ =~= bytes@);
    id
}

} // verus!
