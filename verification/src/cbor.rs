//! The P2P-CD wire schema over CBOR: integer-keyed maps for scope
//! parameters, capability declarations, manifests and protocol messages.
use vstd::prelude::*;

use crate::cbor_value::{
    array_term, cbor_term_pairs, cbor_terms, cbor_term_well_formed, entries_term, lemma_array_term,
    lemma_cbor_term_pairs, lemma_cbor_terms, lemma_entries_term, lookup, map_get, term_u64, CborKind,
    CborTerm, CborValue,
};
use crate::manifest::{CapModel, CapabilityDeclaration};
use crate::wire::{role_code, role_of_code, Role};
use crate::scope::{
    ext_model, lemma_scope_terms_is_map, scope_terms, sorted_entries, ScopeModel, ScopeParams,
    ScopeTerm, ScopeValue,
};

verus! {

/// The CBOR item a scope value is written as.
pub open spec fn scope_term_cbor(t: ScopeTerm) -> CborTerm
    decreases t, 1int,
{
    match t {
        ScopeTerm::Uint(v) => CborTerm::Integer(v as int),
        ScopeTerm::Text(s) => CborTerm::Text(s),
        ScopeTerm::Bool(b) => CborTerm::Bool(b),
        ScopeTerm::Bytes(b) => CborTerm::Bytes(b),
        ScopeTerm::Array(items) => CborTerm::Array(scope_terms_cbor(items)),
    }
}

pub open spec fn scope_terms_cbor(items: Seq<ScopeTerm>) -> Seq<CborTerm>
    decreases items, 0int,
{
    if items.len() == 0 {
        Seq::empty()
    } else {
        seq![scope_term_cbor(items[0])] + scope_terms_cbor(items.subrange(1, items.len() as int))
    }
}

/// The scope value a CBOR item is read as, if any: unsigned integers, texts,
/// booleans, byte strings, and arrays (whose unreadable items are dropped).
pub open spec fn cbor_scope_term(t: CborTerm) -> Option<ScopeTerm>
    decreases t, 1int,
{
    match t {
        CborTerm::Integer(i) => match term_u64(t) {
            Some(v) => Some(ScopeTerm::Uint(v)),
            None => None,
        },
        CborTerm::Text(s) => Some(ScopeTerm::Text(s)),
        CborTerm::Bool(b) => Some(ScopeTerm::Bool(b)),
        CborTerm::Bytes(b) => Some(ScopeTerm::Bytes(b)),
        CborTerm::Array(items) => Some(ScopeTerm::Array(cbor_scope_terms(items))),
        _ => None,
    }
}

pub open spec fn cbor_scope_terms(items: Seq<CborTerm>) -> Seq<ScopeTerm>
    decreases items, 0int,
{
    if items.len() == 0 {
        Seq::empty()
    } else {
        let rest = cbor_scope_terms(items.subrange(0, items.len() - 1));
        match cbor_scope_term(items[items.len() - 1]) {
            Some(x) => rest.push(x),
            None => rest,
        }
    }
}

pub proof fn lemma_scope_terms_cbor(items: Seq<ScopeTerm>)
    ensures
        scope_terms_cbor(items) == items.map_values(|t: ScopeTerm| scope_term_cbor(t)),
    decreases items.len(),
{
    if items.len() > 0 {
        lemma_scope_terms_cbor(items.subrange(1, items.len() as int));
    }
    assert(scope_terms_cbor(items) =~= items.map_values(|t: ScopeTerm| scope_term_cbor(t)));
}

/// Writing a scope value as CBOR and reading it back gives the same value.
pub proof fn lemma_scope_term_round_trip(t: ScopeTerm)
    ensures
        cbor_scope_term(scope_term_cbor(t)) == Some(t),
        cbor_term_well_formed(scope_term_cbor(t)),
    decreases t, 1int,
{
    match t {
        ScopeTerm::Array(items) => {
            lemma_scope_terms_round_trip(items);
            let enc = scope_terms_cbor(items);
            crate::cbor_value::lemma_terms_well_formed(enc);
        },
        _ => {},
    }
}

pub proof fn lemma_scope_terms_round_trip(items: Seq<ScopeTerm>)
    ensures
        cbor_scope_terms(scope_terms_cbor(items)) == items,
        forall|k: int| 0 <= k < scope_terms_cbor(items).len() ==> #[trigger] cbor_term_well_formed(scope_terms_cbor(items)[k]),
    decreases items, 0int,
{
    lemma_scope_terms_cbor(items);
    if items.len() > 0 {
        let init = items.subrange(0, items.len() - 1);
        lemma_scope_terms_round_trip(init);
        lemma_scope_terms_cbor(init);
        let enc = scope_terms_cbor(items);
        assert(enc.subrange(0, enc.len() - 1) =~= scope_terms_cbor(init));
        lemma_scope_term_round_trip(items[items.len() - 1]);
        assert(cbor_scope_terms(enc) =~= items);
        assert forall|k: int| 0 <= k < enc.len() implies #[trigger] cbor_term_well_formed(enc[k]) by {
            if k < enc.len() - 1 {
                assert(enc[k] == scope_terms_cbor(init)[k]);
            } else {
                lemma_scope_term_round_trip(items[k]);
            }
        }
    } else {
        assert(cbor_scope_terms(scope_terms_cbor(items)) =~= items);
    }
}

/// Convert a ScopeValue to a CBOR value.
#[verifier::loop_isolation(false)]
pub fn scope_value_to_cbor(sv: &ScopeValue) -> (r: CborValue)
    ensures
        r.term() == scope_term_cbor(sv.model()),
    decreases sv,
{
    match sv {
        ScopeValue::Uint(v) => CborValue::Integer(*v as i128),
        ScopeValue::Text(s) => CborValue::Text(s.clone()),
        ScopeValue::Bool(b) => CborValue::Bool(*b),
        ScopeValue::Bytes(b) => CborValue::Bytes(b.clone()),
        ScopeValue::Array(arr) => {
            let mut out: Vec<CborValue> = Vec::new();
            let mut i: usize = 0;
            proof {
                lemma_scope_terms_is_map(arr@);
                lemma_scope_terms_cbor(scope_terms(arr@));
            }
            while i < arr.len()
                invariant
                    *sv == ScopeValue::Array(*arr),
                    i <= arr.len(),
                    out@.len() == i,
                    forall|k: int| 0 <= k < i ==> #[trigger] out@[k].term() == scope_term_cbor(arr@[k].model()),
                decreases arr.len() - i,
            {
                proof {
                    vstd::std_specs::vec::axiom_vec_index_decreases(*arr, i as int);
                }
                let item = scope_value_to_cbor(&arr[i]);
                out.push(item);
                i = i + 1;
            }
            let r = CborValue::Array(out);
            proof {
                lemma_array_term(r, out@);
                assert(out@.map_values(|v: CborValue| v.term()) =~= scope_terms_cbor(scope_terms(arr@)));
            }
            r
        },
    }
}

/// Convert a CBOR value to a ScopeValue (maps, nulls, tags, floats and
/// out-of-range integers are not scope values).
#[verifier::loop_isolation(false)]
pub fn cbor_to_scope_value(val: &CborValue) -> (r: Option<ScopeValue>)
    ensures
        match r {
            Some(v) => cbor_scope_term(val.term()) == Some(v.model()),
            None => cbor_scope_term(val.term()) is None,
        },
    decreases val,
{
    match val {
        CborValue::Integer(i) => {
            if 0 <= *i && *i <= 0xffff_ffff_ffff_ffff {
                Some(ScopeValue::Uint(*i as u64))
            } else {
                None
            }
        },
        CborValue::Text(s) => Some(ScopeValue::Text(s.clone())),
        CborValue::Bool(b) => Some(ScopeValue::Bool(*b)),
        CborValue::Bytes(b) => Some(ScopeValue::Bytes(b.clone())),
        CborValue::Array(arr) => {
            let mut items: Vec<ScopeValue> = Vec::new();
            let mut i: usize = 0;
            let ghost terms = cbor_terms(arr@);
            proof {
                lemma_cbor_terms(arr@);
            }
            while i < arr.len()
                invariant
                    *val == CborValue::Array(*arr),
                    i <= arr.len(),
                    terms == cbor_terms(arr@),
                    terms == arr@.map_values(|v: CborValue| v.term()),
                    scope_terms(items@) == cbor_scope_terms(terms.subrange(0, i as int)),
                decreases arr.len() - i,
            {
                proof {
                    vstd::std_specs::vec::axiom_vec_index_decreases(*arr, i as int);
                }
                let ghost pre = terms.subrange(0, i + 1);
                assert(pre.subrange(0, i as int) =~= terms.subrange(0, i as int));
                assert(pre[i as int] == arr@[i as int].term());
                let ghost before = items@;
                match cbor_to_scope_value(&arr[i]) {
                    Some(x) => {
                        items.push(x);
                        proof {
                            lemma_scope_terms_is_map(before);
                            lemma_scope_terms_is_map(items@);
                            assert(scope_terms(items@) =~= scope_terms(before).push(x.model()));
                        }
                    },
                    None => {},
                }
                i = i + 1;
            }
            assert(terms.subrange(0, i as int) =~= terms);
            Some(ScopeValue::Array(items))
        },
        _ => None,
    }
}

} // verus!

verus! {

/// Why a CBOR wire item could not be read.
#[derive(Debug, Clone, Copy, PartialEq, Eq, Structural)]
pub enum CodecError {
    /// Fewer than four bytes were left for the length prefix.
    LengthPrefix,
    /// The length prefix announced more than 64 MiB.
    TooLarge,
    /// Fewer bytes were left than the length prefix announced.
    Payload,
    /// The bytes are not a CBOR item (as `ciborium` reads them).
    Cbor,
    /// A map was expected.
    ExpectedMap,
    /// A required field is absent (or has the wrong kind).
    MissingField(Field),
    /// The peer id is not 32 bytes long.
    PeerIdLength,
    /// The role code is not a known role.
    UnknownRole,
    /// An active-set entry is not a text.
    ActiveSetEntry,
}

/// The required fields of the wire schema.
#[derive(Debug, Clone, Copy, PartialEq, Eq, Structural)]
pub enum Field {
    CapabilityName,
    CapabilityRole,
    ProtocolVersion,
    PeerId,
    SequenceNum,
    Capabilities,
    PersonalHash,
    HashAlgorithm,
    MessageType,
    Manifest,
    ActiveSet,
    Timestamp,
}

/// The unsigned integer of the first entry keyed `key` whose value is an integer.
pub open spec fn lookup_u64(m: Seq<(CborTerm, CborTerm)>, key: u64) -> Option<u64> {
    match lookup(m, key, CborKind::Integer) {
        Some(t) => term_u64(t),
        None => None,
    }
}

/// Get integer value from a CBOR map by integer key.
pub fn map_get_int(m: &Vec<(CborValue, CborValue)>, key: u64) -> (r: Option<u64>)
    ensures
        r == lookup_u64(cbor_term_pairs(m@), key),
{
    match map_get(m, key, CborKind::Integer) {
        Some(CborValue::Integer(i)) => {
            if 0 <= *i && *i <= 0xffff_ffff_ffff_ffff {
                Some(*i as u64)
            } else {
                None
            }
        },
        _ => None,
    }
}

/// A strictly increasing listing of exactly the keys of `dom`.
pub open spec fn is_key_listing(ks: Seq<u64>, dom: Set<u64>) -> bool {
    &&& forall|i: int, j: int| 0 <= i < j < ks.len() ==> ks[i] < ks[j]
    &&& forall|i: int| 0 <= i < ks.len() ==> #[trigger] dom.contains(ks[i])
    &&& forall|k: u64| #[trigger] dom.contains(k) ==> ks.contains(k)
}

/// The keys of a map's domain in increasing order.
pub open spec fn key_listing(dom: Set<u64>) -> Seq<u64> {
    choose|ks: Seq<u64>| is_key_listing(ks, dom)
}

/// Two strictly increasing sequences with the same elements are equal.
pub proof fn lemma_increasing_unique(a: Seq<u64>, b: Seq<u64>)
    requires
        forall|i: int, j: int| 0 <= i < j < a.len() ==> a[i] < a[j],
        forall|i: int, j: int| 0 <= i < j < b.len() ==> b[i] < b[j],
        forall|x: u64| a.contains(x) <==> b.contains(x),
    ensures
        a == b,
    decreases a.len(),
{
    if a.len() == 0 {
        if b.len() > 0 {
            assert(b.contains(b[0]));
        }
        assert(a =~= b);
    } else {
        assert(a.contains(a[0]));
        assert(b.len() > 0);
        assert(b.contains(b[0]));
        let ja = choose|j: int| 0 <= j < b.len() && b[j] == a[0];
        let jb = choose|j: int| 0 <= j < a.len() && a[j] == b[0];
        assert(a[0] == b[0]) by {
            if ja > 0 {
                assert(b[0] < b[ja]);
            }
            if jb > 0 {
                assert(a[0] < a[jb]);
            }
        }
        let ta = a.subrange(1, a.len() as int);
        let tb = b.subrange(1, b.len() as int);
        assert forall|x: u64| ta.contains(x) <==> tb.contains(x) by {
            if ta.contains(x) {
                let i = choose|i: int| 0 <= i < ta.len() && ta[i] == x;
                assert(a[i + 1] == x);
                assert(a[0] < x);
                assert(b.contains(x));
                let j = choose|j: int| 0 <= j < b.len() && b[j] == x;
                assert(j != 0);
                assert(tb[j - 1] == x);
            }
            if tb.contains(x) {
                let i = choose|i: int| 0 <= i < tb.len() && tb[i] == x;
                assert(b[i + 1] == x);
                assert(b[0] < x);
                assert(a.contains(x));
                let j = choose|j: int| 0 <= j < a.len() && a[j] == x;
                assert(j != 0);
                assert(ta[j - 1] == x);
            }
        }
        lemma_increasing_unique(ta, tb);
        assert(a =~= seq![a[0]] + ta);
        assert(b =~= seq![b[0]] + tb);
    }
}

/// The listing of a domain is the one increasing listing of it.
pub proof fn lemma_key_listing_is(ks: Seq<u64>, dom: Set<u64>)
    requires
        is_key_listing(ks, dom),
    ensures
        key_listing(dom) == ks,
{
    let other = key_listing(dom);
    assert(is_key_listing(other, dom));
    assert forall|x: u64| other.contains(x) <==> ks.contains(x) by {
        if other.contains(x) {
            let i = choose|i: int| 0 <= i < other.len() && other[i] == x;
            assert(dom.contains(other[i]));
        }
        if ks.contains(x) {
            let i = choose|i: int| 0 <= i < ks.len() && ks[i] == x;
            assert(dom.contains(ks[i]));
        }
    }
    lemma_increasing_unique(other, ks);
}

/// The CBOR entries of an extension map, in increasing key order.
pub open spec fn ext_entries_cbor(m: Map<u64, ScopeTerm>) -> Seq<(CborTerm, CborTerm)> {
    key_listing(m.dom()).map_values(|k: u64| (CborTerm::Integer(k as int), scope_term_cbor(m[k])))
}

/// The entry for an unsigned limit, present only when the limit is set (non-zero).
pub open spec fn limit_entry(key: u64, v: u64) -> Seq<(CborTerm, CborTerm)> {
    if v > 0 {
        seq![(CborTerm::Integer(key as int), CborTerm::Integer(v as int))]
    } else {
        Seq::empty()
    }
}

/// The CBOR map scope parameters are written as: rate limit (key 1) and ttl
/// (key 2) when non-zero, then the extensions in increasing key order.
pub open spec fn scope_cbor(s: ScopeModel) -> CborTerm {
    CborTerm::Entries(
        limit_entry(crate::scope_keys::RATE_LIMIT, s.rate_limit) + limit_entry(crate::scope_keys::TTL, s.ttl)
            + ext_entries_cbor(s.extensions),
    )
}

/// The extensions read from the entries of a scope map: each entry keyed by
/// an unsigned integer above 2 whose value reads as a scope value; a later
/// entry for a key replaces an earlier one.
pub open spec fn ext_from_entries(m: Seq<(CborTerm, CborTerm)>) -> Map<u64, ScopeTerm>
    decreases m.len(),
{
    if m.len() == 0 {
        Map::empty()
    } else {
        let prev = ext_from_entries(m.drop_last());
        match (term_u64(m.last().0), cbor_scope_term(m.last().1)) {
            (Some(k), Some(x)) => if k > crate::scope_keys::TTL {
                prev.insert(k, x)
            } else {
                prev
            },
            _ => prev,
        }
    }
}

/// Reads scope parameters from a CBOR item.
pub open spec fn scope_from_cbor(t: CborTerm) -> Result<ScopeModel, CodecError> {
    match t {
        CborTerm::Entries(m) => Ok(
            ScopeModel {
                rate_limit: match lookup_u64(m, crate::scope_keys::RATE_LIMIT) {
                    Some(v) => v,
                    None => 0,
                },
                ttl: match lookup_u64(m, crate::scope_keys::TTL) {
                    Some(v) => v,
                    None => 0,
                },
                extensions: ext_from_entries(m),
            },
        ),
        _ => Err(CodecError::ExpectedMap),
    }
}

} // verus!

verus! {

/// Writes scope parameters as a CBOR map.
pub fn scope_to_cbor_value(scope: &ScopeParams) -> (r: CborValue)
    ensures
        r.term() == scope_cbor(scope.model()),
        cbor_term_well_formed(r.term()),
{
    let mut pairs: Vec<(CborValue, CborValue)> = Vec::new();
    if scope.rate_limit > 0 {
        pairs.push((CborValue::Integer(1), CborValue::Integer(scope.rate_limit as i128)));
    }
    if scope.ttl > 0 {
        pairs.push((CborValue::Integer(2), CborValue::Integer(scope.ttl as i128)));
    }
    let ghost head = pairs@.map_values(|p: (CborValue, CborValue)| (p.0.term(), p.1.term()));
    assert(head =~= limit_entry(crate::scope_keys::RATE_LIMIT, scope.rate_limit) + limit_entry(
        crate::scope_keys::TTL,
        scope.ttl,
    ));
    let n0 = pairs.len();
    let entries = sorted_entries(&scope.extensions);
    let ghost em = ext_model(scope.extensions@);
    let ghost ks = entries@.map_values(|e: (u64, &ScopeValue)| e.0);
    proof {
        assert forall|i: int| 0 <= i < ks.len() implies #[trigger] em.dom().contains(ks[i]) by {
            assert(entries@[i].0 == ks[i]);
        }
        assert forall|k: u64| #[trigger] em.dom().contains(k) implies ks.contains(k) by {
            assert(scope.extensions@.contains_key(k));
            let i = choose|i: int| 0 <= i < entries@.len() && entries@[i].0 == k;
            assert(ks[i] == k);
        }
        assert forall|i: int, j: int| 0 <= i < j < ks.len() implies ks[i] < ks[j] by {
            assert(entries@[i].0 == ks[i]);
            assert(entries@[j].0 == ks[j]);
        }
        lemma_key_listing_is(ks, em.dom());
    }
    let mut i: usize = 0;
    while i < entries.len()
        invariant
            i <= entries.len(),
            ks == entries@.map_values(|e: (u64, &ScopeValue)| e.0),
            key_listing(em.dom()) == ks,
            em == ext_model(scope.extensions@),
            forall|x: int|
                #![trigger entries@[x]]
                0 <= x < entries@.len() ==> scope.extensions@.contains_key(entries@[x].0)
                    && scope.extensions@[entries@[x].0] == *entries@[x].1,
            pairs@.len() == n0 + i,
            pairs@.subrange(0, n0 as int).map_values(|p: (CborValue, CborValue)| (p.0.term(), p.1.term())) == head,
            forall|x: int|
                0 <= x < i ==> (#[trigger] pairs@[n0 + x]).0.term() == CborTerm::Integer(ks[x] as int)
                    && pairs@[n0 + x].1.term() == scope_term_cbor(em[ks[x]]),
            forall|x: int| 0 <= x < pairs@.len() ==> cbor_term_well_formed(#[trigger] pairs@[x].0.term())
                && cbor_term_well_formed(pairs@[x].1.term()),
        decreases entries.len() - i,
    {
        let (k, v) = entries[i];
        let cv = scope_value_to_cbor(v);
        proof {
            assert(entries@[i as int].0 == k);
            assert(ks[i as int] == k);
            assert(em[k] == v.model());
            lemma_scope_term_round_trip(v.model());
        }
        let ghost before = pairs@;
        pairs.push((CborValue::Integer(k as i128), cv));
        proof {
            assert(pairs@.subrange(0, n0 as int) =~= before.subrange(0, n0 as int));
        }
        i = i + 1;
    }
    let r = CborValue::Entries(pairs);
    proof {
        lemma_entries_term(r, pairs@);
        let all = pairs@.map_values(|p: (CborValue, CborValue)| (p.0.term(), p.1.term()));
        let tail = ext_entries_cbor(em);
        assert(all.subrange(0, n0 as int) =~= head);
        assert(tail.len() == ks.len());
        assert forall|x: int| 0 <= x < tail.len() implies all.subrange(n0 as int, all.len() as int)[x] == tail[x] by {
            assert(all[n0 + x] == (pairs@[n0 + x].0.term(), pairs@[n0 + x].1.term()));
        }
        assert(all.subrange(n0 as int, all.len() as int) =~= tail);
        assert(all =~= head + tail);
        assert(all =~= limit_entry(crate::scope_keys::RATE_LIMIT, scope.rate_limit) + limit_entry(
            crate::scope_keys::TTL,
            scope.ttl,
        ) + ext_entries_cbor(em));
        crate::cbor_value::lemma_pairs_well_formed(all);
    }
    r
}

} // verus!

verus! {

/// Reads scope parameters from a CBOR item.
pub fn scope_from_cbor_value(val: &CborValue) -> (r: Result<ScopeParams, CodecError>)
    ensures
        match r {
            Ok(p) => scope_from_cbor(val.term()) == Ok::<ScopeModel, CodecError>(p.model()),
            Err(e) => scope_from_cbor(val.term()) == Err::<ScopeModel, CodecError>(e),
        },
{
    let m = match val {
        CborValue::Entries(m) => m,
        _ => {
            return Err(CodecError::ExpectedMap);
        },
    };
    let rate_limit = match map_get_int(m, crate::scope_keys::RATE_LIMIT) {
        Some(v) => v,
        None => 0,
    };
    let ttl = match map_get_int(m, crate::scope_keys::TTL) {
        Some(v) => v,
        None => 0,
    };
    let ghost terms = cbor_term_pairs(m@);
    proof {
        lemma_cbor_term_pairs(m@);
    }
    let mut extensions: std::collections::BTreeMap<u64, ScopeValue> = std::collections::BTreeMap::new();
    let mut i: usize = 0;
    while i < m.len()
        invariant
            i <= m.len(),
            terms == cbor_term_pairs(m@),
            terms == m@.map_values(|p: (CborValue, CborValue)| (p.0.term(), p.1.term())),
            ext_model(extensions@) == ext_from_entries(terms.subrange(0, i as int)),
        decreases m.len() - i,
    {
        let ghost pre = terms.subrange(0, i + 1);
        assert(pre.drop_last() =~= terms.subrange(0, i as int));
        assert(pre.last() == (m@[i as int].0.term(), m@[i as int].1.term()));
        let (k, v) = &m[i];
        if let CborValue::Integer(ki) = k {
            if 2 < *ki && *ki <= 0xffff_ffff_ffff_ffff {
                match cbor_to_scope_value(v) {
                    Some(sv) => {
                        let ghost before = extensions@;
                        extensions.insert(*ki as u64, sv);
                        proof {
                            assert(ext_model(extensions@) =~= ext_model(before).insert(*ki as u64, sv.model()));
                        }
                    },
                    None => {},
                }
            }
        }
        i = i + 1;
    }
    assert(terms.subrange(0, i as int) =~= terms);
    Ok(ScopeParams { rate_limit, ttl, extensions })
}

} // verus!

verus! {

/// The CBOR map a capability declaration is written as: name and
/// role always; `mutual` only when true; scope and applicable keys when present.
/// The local classification never appears on the wire.
pub open spec fn cap_cbor(c: CapModel) -> CborTerm {
    CborTerm::Entries(
        seq![
            (CborTerm::Integer(crate::capability_keys::NAME as int), CborTerm::Text(c.name)),
            (CborTerm::Integer(crate::capability_keys::ROLE as int), CborTerm::Integer(role_code(c.role) as int)),
        ] + (if c.mutual {
            seq![(CborTerm::Integer(crate::capability_keys::MUTUAL as int), CborTerm::Bool(true))]
        } else {
            Seq::empty()
        }) + (match c.scope {
            Some(s) => seq![(CborTerm::Integer(crate::capability_keys::SCOPE as int), scope_cbor(s))],
            None => Seq::empty(),
        }) + (match c.applicable_scope_keys {
            Some(ks) => seq![
                (
                    CborTerm::Integer(crate::capability_keys::APPLICABLE_SCOPE_KEYS as int),
                    CborTerm::Array(ks.map_values(|k: u64| CborTerm::Integer(k as int))),
                ),
            ],
            None => Seq::empty(),
        }),
    )
}

/// The unsigned integers among CBOR items, in order (other items are dropped).
pub open spec fn u64_items(items: Seq<CborTerm>) -> Seq<u64>
    decreases items.len(),
{
    if items.len() == 0 {
        Seq::empty()
    } else {
        let rest = u64_items(items.drop_last());
        match term_u64(items.last()) {
            Some(v) => rest.push(v),
            None => rest,
        }
    }
}

/// Reads a capability declaration from a CBOR item.
pub open spec fn cap_from_cbor(t: CborTerm) -> Result<CapModel, CodecError> {
    match t {
        CborTerm::Entries(m) => match lookup(m, crate::capability_keys::NAME, CborKind::Text) {
            Some(CborTerm::Text(name)) => match lookup_u64(m, crate::capability_keys::ROLE) {
                Some(code) => match role_of_code(code) {
                    Some(role) => {
                        let mutual = match lookup(m, crate::capability_keys::MUTUAL, CborKind::Bool) {
                            Some(CborTerm::Bool(b)) => b,
                            _ => false,
                        };
                        let scope = match lookup(m, crate::capability_keys::SCOPE, CborKind::Entries) {
                            Some(s) => match scope_from_cbor(s) {
                                Ok(sm) => Some(sm),
                                Err(_) => None,
                            },
                            None => None,
                        };
                        let keys = match lookup(m, crate::capability_keys::APPLICABLE_SCOPE_KEYS, CborKind::Array) {
                            Some(CborTerm::Array(items)) => Some(u64_items(items)),
                            _ => None,
                        };
                        Ok(CapModel { name, role, mutual, scope, applicable_scope_keys: keys })
                    },
                    None => Err(CodecError::UnknownRole),
                },
                None => Err(CodecError::MissingField(Field::CapabilityRole)),
            },
            _ => Err(CodecError::MissingField(Field::CapabilityName)),
        },
        _ => Err(CodecError::ExpectedMap),
    }
}

fn entry(key: u64, v: CborValue) -> (r: (CborValue, CborValue))
    ensures
        r.0.term() == CborTerm::Integer(key as int),
        r.1 == v,
{
    (CborValue::Integer(key as i128), v)
}

/// Writes a capability declaration as a CBOR map.
pub fn cap_to_cbor_value(cap: &CapabilityDeclaration) -> (r: CborValue)
    ensures
        r.term() == cap_cbor(cap.model()),
        cbor_term_well_formed(r.term()),
{
    let ghost c = cap.model();
    let mut pairs: Vec<(CborValue, CborValue)> = Vec::new();
    pairs.push(entry(crate::capability_keys::NAME, CborValue::Text(cap.name.clone())));
    pairs.push(entry(crate::capability_keys::ROLE, CborValue::Integer(cap.role.to_u64() as i128)));
    let ghost p0 = seq![
        (CborTerm::Integer(crate::capability_keys::NAME as int), CborTerm::Text(c.name)),
        (CborTerm::Integer(crate::capability_keys::ROLE as int), CborTerm::Integer(role_code(c.role) as int)),
    ];
    let ghost p1 = if c.mutual {
        seq![(CborTerm::Integer(crate::capability_keys::MUTUAL as int), CborTerm::Bool(true))]
    } else {
        Seq::empty()
    };
    let ghost p2 = match c.scope {
        Some(s) => seq![(CborTerm::Integer(crate::capability_keys::SCOPE as int), scope_cbor(s))],
        None => Seq::empty(),
    };
    let ghost p3 = match c.applicable_scope_keys {
        Some(ks) => seq![
            (
                CborTerm::Integer(crate::capability_keys::APPLICABLE_SCOPE_KEYS as int),
                CborTerm::Array(ks.map_values(|k: u64| CborTerm::Integer(k as int))),
            ),
        ],
        None => Seq::empty(),
    };
    assert(pairs@.map_values(|p: (CborValue, CborValue)| (p.0.term(), p.1.term())) =~= p0);
    if cap.mutual {
        let ghost before = pairs@;
        pairs.push(entry(crate::capability_keys::MUTUAL, CborValue::Bool(true)));
        assert(pairs@.map_values(|p: (CborValue, CborValue)| (p.0.term(), p.1.term())) =~= before.map_values(|p: (CborValue, CborValue)| (p.0.term(), p.1.term())) + p1);
    }
    assert(pairs@.map_values(|p: (CborValue, CborValue)| (p.0.term(), p.1.term())) =~= p0 + p1);
    match &cap.scope {
        Some(scope) => {
            let ghost before = pairs@;
            let sv = scope_to_cbor_value(scope);
            pairs.push(entry(crate::capability_keys::SCOPE, sv));
            assert(pairs@.map_values(|p: (CborValue, CborValue)| (p.0.term(), p.1.term())) =~= before.map_values(|p: (CborValue, CborValue)| (p.0.term(), p.1.term())) + p2);
        },
        None => {},
    }
    assert(pairs@.map_values(|p: (CborValue, CborValue)| (p.0.term(), p.1.term())) =~= p0 + p1 + p2);
    match &cap.applicable_scope_keys {
        Some(keys) => {
            let mut arr: Vec<CborValue> = Vec::new();
            let mut i: usize = 0;
            while i < keys.len()
                invariant
                    i <= keys.len(),
                    arr@.len() == i,
                    forall|x: int| 0 <= x < i ==> #[trigger] arr@[x].term() == CborTerm::Integer(keys@[x] as int),
                decreases keys.len() - i,
            {
                arr.push(CborValue::Integer(keys[i] as i128));
                i = i + 1;
            }
            let av = CborValue::Array(arr);
            proof {
                lemma_array_term(av, arr@);
                assert(arr@.map_values(|v: CborValue| v.term()) =~= keys@.map_values(|k: u64| CborTerm::Integer(k as int)));
                crate::cbor_value::lemma_terms_well_formed(arr@.map_values(|v: CborValue| v.term()));
            }
            let ghost before = pairs@;
            pairs.push(entry(crate::capability_keys::APPLICABLE_SCOPE_KEYS, av));
            assert(pairs@.map_values(|p: (CborValue, CborValue)| (p.0.term(), p.1.term())) =~= before.map_values(|p: (CborValue, CborValue)| (p.0.term(), p.1.term())) + p3);
        },
        None => {},
    }
    let r = CborValue::Entries(pairs);
    proof {
        let all = pairs@.map_values(|p: (CborValue, CborValue)| (p.0.term(), p.1.term()));
        assert(all =~= p0 + p1 + p2 + p3);
        lemma_entries_term(r, pairs@);
        crate::cbor_value::lemma_pairs_well_formed(all);
        assert forall|k: int| 0 <= k < all.len() implies cbor_term_well_formed(#[trigger] all[k].0) && cbor_term_well_formed(all[k].1) by {
        }
    }
    r
}

} // verus!

verus! {

/// Reads a capability declaration from a CBOR item.
pub fn cap_from_cbor_value(val: &CborValue) -> (r: Result<CapabilityDeclaration, CodecError>)
    ensures
        match r {
            Ok(c) => cap_from_cbor(val.term()) == Ok::<CapModel, CodecError>(c.model()),
            Err(e) => cap_from_cbor(val.term()) == Err::<CapModel, CodecError>(e),
        },
{
    let m = match val {
        CborValue::Entries(m) => m,
        _ => {
            return Err(CodecError::ExpectedMap);
        },
    };
    let ghost mt = cbor_term_pairs(m@);
    let name = match map_get(m, crate::capability_keys::NAME, CborKind::Text) {
        Some(CborValue::Text(s)) => s.clone(),
        _ => {
            return Err(CodecError::MissingField(Field::CapabilityName));
        },
    };
    let role_u64 = match map_get_int(m, crate::capability_keys::ROLE) {
        Some(v) => v,
        None => {
            return Err(CodecError::MissingField(Field::CapabilityRole));
        },
    };
    let role = match Role::from_u64(role_u64) {
        Some(r) => r,
        None => {
            return Err(CodecError::UnknownRole);
        },
    };
    let mutual = match map_get(m, crate::capability_keys::MUTUAL, CborKind::Bool) {
        Some(CborValue::Bool(b)) => *b,
        _ => false,
    };
    let scope = match map_get(m, crate::capability_keys::SCOPE, CborKind::Entries) {
        Some(sv) => match scope_from_cbor_value(sv) {
            Ok(s) => Some(s),
            Err(_) => None,
        },
        None => None,
    };
    let applicable_scope_keys = match map_get(m, crate::capability_keys::APPLICABLE_SCOPE_KEYS, CborKind::Array) {
        Some(CborValue::Array(arr)) => {
            let ghost items = cbor_terms(arr@);
            proof {
                lemma_cbor_terms(arr@);
            }
            let mut keys: Vec<u64> = Vec::new();
            let mut i: usize = 0;
            while i < arr.len()
                invariant
                    i <= arr.len(),
                    items == arr@.map_values(|v: CborValue| v.term()),
                    keys@ == u64_items(items.subrange(0, i as int)),
                decreases arr.len() - i,
            {
                let ghost pre = items.subrange(0, i + 1);
                assert(pre.drop_last() =~= items.subrange(0, i as int));
                assert(pre.last() == arr@[i as int].term());
                match &arr[i] {
                    CborValue::Integer(k) => {
                        if 0 <= *k && *k <= 0xffff_ffff_ffff_ffff {
                            keys.push(*k as u64);
                        }
                    },
                    _ => {},
                }
                i = i + 1;
            }
            assert(items.subrange(0, i as int) =~= items);
            Some(keys)
        },
        _ => None,
    };
    Ok(CapabilityDeclaration { name, role, mutual, scope, applicable_scope_keys })
}

} // verus!
