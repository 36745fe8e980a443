use vstd::prelude::*;

use ciborium::value::{Integer, Value};

verus! {

/// A dynamic CBOR data item as it appears in an encoded message.
/// Mirrors the shape of `ciborium::value::Value`; a float is carried through
/// untouched as the `ciborium` value that holds it.
#[derive(Debug)]
pub enum CborValue {
    Integer(i128),
    Bytes(Vec<u8>),
    Float(Value),
    Text(String),
    Bool(bool),
    Null,
    Tag(u64, Box<CborValue>),
    Array(Vec<CborValue>),
    Entries(Vec<(CborValue, CborValue)>),
}

/// Mathematical model of a CBOR data item.
pub enum CborTerm {
    Integer(int),
    Bytes(Seq<u8>),
    Float(Value),
    Text(Seq<char>),
    Bool(bool),
    Null,
    Tag(u64, Box<CborTerm>),
    Array(Seq<CborTerm>),
    Entries(Seq<(CborTerm, CborTerm)>),
}

pub open spec fn cbor_terms(s: Seq<CborValue>) -> Seq<CborTerm>
    decreases s, 0int,
{
    if s.len() == 0 {
        Seq::empty()
    } else {
        seq![s[0].term()] + cbor_terms(s.subrange(1, s.len() as int))
    }
}

pub open spec fn cbor_term_pairs(s: Seq<(CborValue, CborValue)>) -> Seq<(CborTerm, CborTerm)>
    decreases s, 0int,
{
    if s.len() == 0 {
        Seq::empty()
    } else {
        seq![(s[0].0.term(), s[0].1.term())] + cbor_term_pairs(s.subrange(1, s.len() as int))
    }
}

impl CborValue {
    pub open spec fn term(&self) -> CborTerm
        decreases *self, 1int,
    {
        match self {
            CborValue::Integer(i) => CborTerm::Integer(*i as int),
            CborValue::Bytes(b) => CborTerm::Bytes(b@),
            CborValue::Float(f) => CborTerm::Float(*f),
            CborValue::Text(t) => CborTerm::Text(t@),
            CborValue::Bool(b) => CborTerm::Bool(*b),
            CborValue::Null => CborTerm::Null,
            CborValue::Tag(t, inner) => CborTerm::Tag(*t, Box::new((**inner).term())),
            CborValue::Array(a) => CborTerm::Array(cbor_terms(a@)),
            CborValue::Entries(m) => CborTerm::Entries(cbor_term_pairs(m@)),
        }
    }
}

} // verus!

verus! {

/// Every integer in the term lies in the range CBOR can carry
/// (major types 0 and 1: from -2^64 to 2^64 - 1).
pub open spec fn cbor_term_well_formed(t: CborTerm) -> bool
    decreases t, 1int,
{
    match t {
        CborTerm::Integer(i) => -0x1_0000_0000_0000_0000 <= i <= 0xffff_ffff_ffff_ffff,
        CborTerm::Tag(_, inner) => cbor_term_well_formed(*inner),
        CborTerm::Array(items) => cbor_terms_well_formed(items),
        CborTerm::Entries(entries) => cbor_pairs_well_formed(entries),
        _ => true,
    }
}

pub open spec fn cbor_terms_well_formed(s: Seq<CborTerm>) -> bool
    decreases s, 0int,
{
    s.len() == 0 || (cbor_term_well_formed(s[0]) && cbor_terms_well_formed(s.subrange(1, s.len() as int)))
}

pub open spec fn cbor_pairs_well_formed(s: Seq<(CborTerm, CborTerm)>) -> bool
    decreases s, 0int,
{
    s.len() == 0 || (cbor_term_well_formed(s[0].0) && cbor_term_well_formed(s[0].1)
        && cbor_pairs_well_formed(s.subrange(1, s.len() as int)))
}

/// A sequence of terms is well formed exactly when each term is.
pub proof fn lemma_terms_well_formed(s: Seq<CborTerm>)
    ensures
        cbor_terms_well_formed(s) <==> forall|k: int| 0 <= k < s.len() ==> #[trigger] cbor_term_well_formed(s[k]),
    decreases s.len(),
{
    if s.len() > 0 {
        let rest = s.subrange(1, s.len() as int);
        lemma_terms_well_formed(rest);
        assert(cbor_terms_well_formed(s) == (cbor_term_well_formed(s[0]) && cbor_terms_well_formed(rest)));
        if forall|k: int| 0 <= k < s.len() ==> #[trigger] cbor_term_well_formed(s[k]) {
            assert forall|k: int| 0 <= k < rest.len() implies #[trigger] cbor_term_well_formed(rest[k]) by {
                assert(rest[k] == s[k + 1]);
            }
        }
        if cbor_terms_well_formed(s) {
            assert forall|k: int| 0 <= k < s.len() implies #[trigger] cbor_term_well_formed(s[k]) by {
                if k > 0 {
                    assert(s[k] == rest[k - 1]);
                }
            }
        }
    }
}

/// A sequence of entries is well formed exactly when each key and value is.
pub proof fn lemma_pairs_well_formed(s: Seq<(CborTerm, CborTerm)>)
    ensures
        cbor_pairs_well_formed(s) <==> forall|k: int| 0 <= k < s.len() ==> cbor_term_well_formed(#[trigger] s[k].0) && cbor_term_well_formed(s[k].1),
    decreases s.len(),
{
    if s.len() > 0 {
        let rest = s.subrange(1, s.len() as int);
        lemma_pairs_well_formed(rest);
        assert(cbor_pairs_well_formed(s) == (cbor_term_well_formed(s[0].0) && cbor_term_well_formed(s[0].1) && cbor_pairs_well_formed(rest)));
        if forall|k: int| 0 <= k < s.len() ==> cbor_term_well_formed(#[trigger] s[k].0) && cbor_term_well_formed(s[k].1) {
            assert forall|k: int| 0 <= k < rest.len() implies cbor_term_well_formed(#[trigger] rest[k].0) && cbor_term_well_formed(rest[k].1) by {
                assert(rest[k] == s[k + 1]);
            }
        }
        if cbor_pairs_well_formed(s) {
            assert forall|k: int| 0 <= k < s.len() implies cbor_term_well_formed(#[trigger] s[k].0) && cbor_term_well_formed(s[k].1) by {
                if k > 0 {
                    assert(s[k] == rest[k - 1]);
                }
            }
        }
    }
}

/// A data item with no float and no tag, whose arrays and maps nest at most
/// `depth` levels deep.
pub open spec fn plain_within(t: CborTerm, depth: nat) -> bool
    decreases t,
{
    match t {
        CborTerm::Float(_) => false,
        CborTerm::Tag(_, _) => false,
        CborTerm::Array(items) => depth > 0 && forall|i: int|
            0 <= i < items.len() ==> plain_within(#[trigger] items[i], (depth - 1) as nat),
        CborTerm::Entries(es) => depth > 0 && forall|i: int|
            0 <= i < es.len() ==> plain_within(#[trigger] es[i].0, (depth - 1) as nat) && plain_within(
                es[i].1,
                (depth - 1) as nat,
            ),
        _ => true,
    }
}

/// A data item `ciborium` reads back as it wrote it: integers, bytes,
/// texts, booleans and null, in arrays and maps nested at most 128 deep
/// (its reader refuses nesting beyond 256 levels).
pub open spec fn cbor_plain(t: CborTerm) -> bool {
    plain_within(t, 128)
}

/// A plain item stays plain under a larger depth allowance.
pub proof fn lemma_plain_within_mono(t: CborTerm, d: nat, e: nat)
    requires
        plain_within(t, d),
        d <= e,
    ensures
        plain_within(t, e),
    decreases t,
{
    match t {
        CborTerm::Array(items) => {
            assert forall|i: int| 0 <= i < items.len() implies plain_within(#[trigger] items[i], (e - 1) as nat) by {
                lemma_plain_within_mono(items[i], (d - 1) as nat, (e - 1) as nat);
            }
        },
        CborTerm::Entries(es) => {
            assert forall|i: int| 0 <= i < es.len() implies plain_within(#[trigger] es[i].0, (e - 1) as nat)
                && plain_within(es[i].1, (e - 1) as nat) by {
                lemma_plain_within_mono(es[i].0, (d - 1) as nat, (e - 1) as nat);
                lemma_plain_within_mono(es[i].1, (d - 1) as nat, (e - 1) as nat);
            }
        },
        _ => {},
    }
}

#[verifier::external_type_specification]
#[verifier::external_body]
pub struct ExCiboriumValue(Value);

/// The bytes that `ciborium::ser::into_writer` writes for a data item.
pub uninterp spec fn cbor_encoding(t: CborTerm) -> Seq<u8>;

/// The data item that `ciborium::de::from_reader` reads from the front of a
/// byte string, or `None` when it reports an error.
pub uninterp spec fn cbor_decoding(bytes: Seq<u8>) -> Option<CborTerm>;

/// Builds the `ciborium` value with the same shape as `v`, variant for
/// variant. Nothing is claimed of the result: it only feeds `cbor_encode`.
#[verifier::external_body]
fn to_ciborium(v: &CborValue) -> Value
    requires
        cbor_term_well_formed(v.term()),
{
    match v {
        CborValue::Integer(i) => Value::Integer(Integer::try_from(*i).unwrap()),
        CborValue::Bytes(b) => Value::Bytes(b.clone()),
        CborValue::Float(f) => f.clone(),
        CborValue::Text(t) => Value::Text(t.clone()),
        CborValue::Bool(b) => Value::Bool(*b),
        CborValue::Null => Value::Null,
        CborValue::Tag(t, x) => Value::Tag(*t, Box::new(to_ciborium(x))),
        CborValue::Array(a) => Value::Array(a.iter().map(to_ciborium).collect()),
        CborValue::Entries(m) => Value::Map(m.iter().map(|(k, x)| (to_ciborium(k), to_ciborium(x))).collect()),
    }
}

/// Builds the library's value with the same shape as a decoded `ciborium`
/// value, variant for variant. Nothing is claimed of the result here: the
/// claim is made by `cbor_decode` over the name `cbor_decoding`.
#[verifier::external_body]
fn from_ciborium(v: Value) -> CborValue {
    match v {
        Value::Integer(i) => CborValue::Integer(i128::from(i)),
        Value::Bytes(b) => CborValue::Bytes(b),
        Value::Text(t) => CborValue::Text(t),
        Value::Bool(b) => CborValue::Bool(b),
        Value::Null => CborValue::Null,
        Value::Tag(t, x) => CborValue::Tag(t, Box::new(from_ciborium(*x))),
        Value::Array(a) => CborValue::Array(a.into_iter().map(from_ciborium).collect()),
        Value::Map(m) => CborValue::Entries(m.into_iter().map(|(k, x)| (from_ciborium(k), from_ciborium(x))).collect()),
        other => CborValue::Float(other),
    }
}

/// Serialises a data item with `ciborium::ser::into_writer` into a fresh
/// `Vec`. Claims: the bytes are `cbor_encoding` of the item; and
/// `from_reader` reads a plain item back from them as it was: integers in
/// range are written as major types 0 and 1 and read back as integers,
/// bytes and texts with definite lengths, maps and arrays in order with
/// every entry, within the reader's nesting limit. Writing a `Value` into a
/// `Vec` reports no error (the writer cannot fail and every integer is in
/// range), so the call does not panic.
#[verifier::external_body]
pub(crate) fn cbor_encode(v: &CborValue) -> (r: Vec<u8>)
    requires
        cbor_term_well_formed(v.term()),
    ensures
        r@ == cbor_encoding(v.term()),
        cbor_plain(v.term()) ==> cbor_decoding(r@) == Some(v.term()),
{
    let mut out = Vec::new();
    ciborium::ser::into_writer(&to_ciborium(v), &mut out).unwrap();
    out
}

/// Deserialises one data item with `ciborium::de::from_reader`. Claims: the
/// result is `cbor_decoding` of the bytes, `None` exactly when ciborium
/// reports an error; and every integer in it lies in the CBOR range, since a
/// `ciborium::value::Integer` can only be built from a value in that range.
#[verifier::external_body]
pub(crate) fn cbor_decode(bytes: &[u8]) -> (r: Option<CborValue>)
    ensures
        match r {
            Some(v) => cbor_decoding(bytes@) == Some(v.term()) && cbor_term_well_formed(v.term()),
            None => cbor_decoding(bytes@) is None,
        },
{
    ciborium::de::from_reader::<Value, _>(bytes).ok().map(from_ciborium)
}

} // verus!

verus! {

pub proof fn lemma_cbor_terms(s: Seq<CborValue>)
    ensures
        cbor_terms(s) == s.map_values(|v: CborValue| v.term()),
    decreases s.len(),
{
    if s.len() > 0 {
        let rest = s.subrange(1, s.len() as int);
        lemma_cbor_terms(rest);
        assert(cbor_terms(s) =~= s.map_values(|v: CborValue| v.term()));
    } else {
        assert(cbor_terms(s) =~= s.map_values(|v: CborValue| v.term()));
    }
}

pub proof fn lemma_cbor_term_pairs(s: Seq<(CborValue, CborValue)>)
    ensures
        cbor_term_pairs(s) == s.map_values(|p: (CborValue, CborValue)| (p.0.term(), p.1.term())),
    decreases s.len(),
{
    if s.len() > 0 {
        let rest = s.subrange(1, s.len() as int);
        lemma_cbor_term_pairs(rest);
        assert(cbor_term_pairs(s) =~= s.map_values(|p: (CborValue, CborValue)| (p.0.term(), p.1.term())));
    } else {
        assert(cbor_term_pairs(s) =~= s.map_values(|p: (CborValue, CborValue)| (p.0.term(), p.1.term())));
    }
}

/// The term of a map with the given entries.
pub open spec fn entries_term(s: Seq<(CborValue, CborValue)>) -> CborTerm {
    CborTerm::Entries(s.map_values(|p: (CborValue, CborValue)| (p.0.term(), p.1.term())))
}

/// The term of an array with the given items.
pub open spec fn array_term(s: Seq<CborValue>) -> CborTerm {
    CborTerm::Array(s.map_values(|v: CborValue| v.term()))
}

pub proof fn lemma_entries_term(v: CborValue, s: Seq<(CborValue, CborValue)>)
    requires
        v matches CborValue::Entries(e) && e@ == s,
    ensures
        v.term() == entries_term(s),
{
    lemma_cbor_term_pairs(s);
}

pub proof fn lemma_array_term(v: CborValue, s: Seq<CborValue>)
    requires
        v matches CborValue::Array(e) && e@ == s,
    ensures
        v.term() == array_term(s),
{
    lemma_cbor_terms(s);
}

/// The unsigned integer a term denotes, if it is an integer in `u64` range.
pub open spec fn term_u64(t: CborTerm) -> Option<u64> {
    match t {
        CborTerm::Integer(i) => if 0 <= i <= 0xffff_ffff_ffff_ffff {
            Some(i as u64)
        } else {
            None
        },
        _ => None,
    }
}

/// The kinds of value a map lookup may ask for.
#[derive(Debug, Clone, Copy, PartialEq, Eq, Structural)]
pub enum CborKind {
    Integer,
    Bool,
    Text,
    Bytes,
    Array,
    Entries,
    /// Any item at all.
    Any,
}

pub open spec fn term_has_kind(t: CborTerm, kind: CborKind) -> bool {
    match kind {
        CborKind::Integer => t is Integer,
        CborKind::Bool => t is Bool,
        CborKind::Text => t is Text,
        CborKind::Bytes => t is Bytes,
        CborKind::Array => t is Array,
        CborKind::Entries => t is Entries,
        CborKind::Any => true,
    }
}

/// The value of the first entry whose key is the integer `key` and whose
/// value has the asked kind.
pub open spec fn lookup(m: Seq<(CborTerm, CborTerm)>, key: u64, kind: CborKind) -> Option<CborTerm>
    decreases m.len(),
{
    if m.len() == 0 {
        None
    } else if term_u64(m[0].0) == Some(key) && term_has_kind(m[0].1, kind) {
        Some(m[0].1)
    } else {
        lookup(m.subrange(1, m.len() as int), key, kind)
    }
}

/// The unsigned integer an item holds, if it is an integer in the `u64` range.
pub fn value_u64(v: &CborValue) -> (r: Option<u64>)
    ensures
        r == term_u64(v.term()),
{
    match v {
        CborValue::Integer(i) => {
            if 0 <= *i && *i <= 0xffff_ffff_ffff_ffff {
                Some(*i as u64)
            } else {
                None
            }
        },
        _ => None,
    }
}

fn value_has_kind(v: &CborValue, kind: CborKind) -> (r: bool)
    ensures
        r == term_has_kind(v.term(), kind),
{
    match (kind, v) {
        (CborKind::Integer, CborValue::Integer(_)) => true,
        (CborKind::Bool, CborValue::Bool(_)) => true,
        (CborKind::Text, CborValue::Text(_)) => true,
        (CborKind::Bytes, CborValue::Bytes(_)) => true,
        (CborKind::Array, CborValue::Array(_)) => true,
        (CborKind::Entries, CborValue::Entries(_)) => true,
        (CborKind::Any, _) => true,
        _ => false,
    }
}

/// A lookup in `a + b` finds what `a` holds under the key, or else what `b` holds.
pub proof fn lemma_lookup_append(a: Seq<(CborTerm, CborTerm)>, b: Seq<(CborTerm, CborTerm)>, key: u64, kind: CborKind)
    ensures
        lookup(a + b, key, kind) == match lookup(a, key, kind) {
            Some(x) => Some(x),
            None => lookup(b, key, kind),
        },
    decreases a.len(),
{
    if a.len() == 0 {
        assert(a + b =~= b);
    } else {
        lemma_lookup_append(a.subrange(1, a.len() as int), b, key, kind);
        assert((a + b).subrange(1, (a + b).len() as int) =~= a.subrange(1, a.len() as int) + b);
    }
}

/// A map with no entry keyed `key` holds nothing under it.
pub proof fn lemma_lookup_absent(m: Seq<(CborTerm, CborTerm)>, key: u64, kind: CborKind)
    requires
        forall|i: int| 0 <= i < m.len() ==> term_u64(#[trigger] m[i].0) != Some(key),
    ensures
        lookup(m, key, kind) is None,
    decreases m.len(),
{
    if m.len() > 0 {
        let rest = m.subrange(1, m.len() as int);
        assert forall|i: int| 0 <= i < rest.len() implies term_u64(#[trigger] rest[i].0) != Some(key) by {
            assert(rest[i] == m[i + 1]);
        }
        lemma_lookup_absent(rest, key, kind);
    }
}

/// A lookup in a one-entry map.
pub proof fn lemma_lookup_single(k: CborTerm, v: CborTerm, key: u64, kind: CborKind)
    ensures
        lookup(seq![(k, v)], key, kind) == (if term_u64(k) == Some(key) && term_has_kind(v, kind) {
            Some(v)
        } else {
            None
        }),
{
    let m = seq![(k, v)];
    assert(m.subrange(1, 1) =~= Seq::<(CborTerm, CborTerm)>::empty());
    assert(lookup(m.subrange(1, 1), key, kind) is None);
}

/// A lookup finds the value of the first entry with the key and the kind.
pub proof fn lemma_lookup_at(m: Seq<(CborTerm, CborTerm)>, key: u64, kind: CborKind, i: int)
    requires
        0 <= i < m.len(),
        term_u64(m[i].0) == Some(key),
        term_has_kind(m[i].1, kind),
        forall|j: int| 0 <= j < i ==> term_u64(#[trigger] m[j].0) != Some(key),
    ensures
        lookup(m, key, kind) == Some(m[i].1),
    decreases i,
{
    if i > 0 {
        let rest = m.subrange(1, m.len() as int);
        assert forall|j: int| 0 <= j < i - 1 implies term_u64(#[trigger] rest[j].0) != Some(key) by {
            assert(rest[j] == m[j + 1]);
        }
        assert(term_u64(m[0].0) != Some(key));
        lemma_lookup_at(rest, key, kind, i - 1);
    }
}

/// A value found in a well-formed map is well formed.
pub proof fn lemma_lookup_well_formed(m: Seq<(CborTerm, CborTerm)>, key: u64, kind: CborKind)
    requires
        cbor_pairs_well_formed(m),
    ensures
        match lookup(m, key, kind) {
            Some(t) => cbor_term_well_formed(t),
            None => true,
        },
    decreases m.len(),
{
    if m.len() > 0 {
        lemma_lookup_well_formed(m.subrange(1, m.len() as int), key, kind);
    }
}

/// Finds the value of the first entry keyed by the integer `key` whose value
/// has the given kind.
pub fn map_get<'a>(m: &'a Vec<(CborValue, CborValue)>, key: u64, kind: CborKind) -> (r: Option<&'a CborValue>)
    ensures
        match r {
            Some(v) => lookup(cbor_term_pairs(m@), key, kind) == Some(v.term()),
            None => lookup(cbor_term_pairs(m@), key, kind) is None,
        },
{
    proof {
        lemma_cbor_term_pairs(m@);
    }
    let ghost all = cbor_term_pairs(m@);
    assert(all.subrange(0, all.len() as int) =~= all);
    let mut i: usize = 0;
    while i < m.len()
        invariant
            i <= m.len(),
            all == cbor_term_pairs(m@),
            all == m@.map_values(|p: (CborValue, CborValue)| (p.0.term(), p.1.term())),
            lookup(all, key, kind) == lookup(all.subrange(i as int, all.len() as int), key, kind),
        decreases m.len() - i,
    {
        let ghost rest = all.subrange(i as int, all.len() as int);
        assert(rest.subrange(1, rest.len() as int) =~= all.subrange(i + 1, all.len() as int));
        assert(rest[0] == (m@[i as int].0.term(), m@[i as int].1.term()));
        let (k, v) = &m[i];
        if value_u64(k) == Some(key) && value_has_kind(v, kind) {
            return Some(v);
        }
        i = i + 1;
    }
    None
}

} // verus!
