use std::collections::BTreeMap;
use vstd::prelude::*;
use vstd::std_specs::iter::IteratorSpec;

use crate::manifest::PeerId;

verus! {

broadcast use {vstd::std_specs::btree::group_btree_axioms, vstd::laws_cmp::group_laws_cmp};

/// Trust classification of a peer for one capability (local only, never on the wire).
#[derive(Debug, Clone, Copy, PartialEq, Eq, Structural)]
pub enum ClassificationTier {
    /// Any peer with a valid WireGuard tunnel.
    Public,
    /// Peer's WG public key must be in the friends list.
    Friends,
    /// Peer is explicitly blocked.
    Blocked,
}

/// A scope parameter value: any of the types an extension key may hold.
#[derive(Debug)]
pub enum ScopeValue {
    Uint(u64),
    Text(String),
    Bool(bool),
    Bytes(Vec<u8>),
    Array(Vec<ScopeValue>),
}

/// Mathematical model of a scope parameter value.
pub enum ScopeTerm {
    Uint(u64),
    Text(Seq<char>),
    Bool(bool),
    Bytes(Seq<u8>),
    Array(Seq<ScopeTerm>),
}

pub open spec fn scope_terms(s: Seq<ScopeValue>) -> Seq<ScopeTerm>
    decreases s, 0int,
{
    if s.len() == 0 {
        Seq::empty()
    } else {
        seq![s[0].model()] + scope_terms(s.subrange(1, s.len() as int))
    }
}

impl ScopeValue {
    pub open spec fn model(&self) -> ScopeTerm
        decreases *self, 1int,
    {
        match self {
            ScopeValue::Uint(v) => ScopeTerm::Uint(*v),
            ScopeValue::Text(s) => ScopeTerm::Text(s@),
            ScopeValue::Bool(b) => ScopeTerm::Bool(*b),
            ScopeValue::Bytes(b) => ScopeTerm::Bytes(b@),
            ScopeValue::Array(a) => ScopeTerm::Array(scope_terms(a@)),
        }
    }
}

pub proof fn lemma_scope_terms_len(s: Seq<ScopeValue>)
    ensures
        scope_terms(s).len() == s.len(),
    decreases s.len(),
{
    if s.len() > 0 {
        lemma_scope_terms_len(s.subrange(1, s.len() as int));
    }
}

pub proof fn lemma_scope_terms_index(s: Seq<ScopeValue>, i: int)
    requires
        0 <= i < s.len(),
    ensures
        scope_terms(s).len() == s.len(),
        scope_terms(s)[i] == s[i].model(),
    decreases s.len(),
{
    lemma_scope_terms_len(s);
    if i > 0 {
        lemma_scope_terms_index(s.subrange(1, s.len() as int), i - 1);
    }
}

/// `scope_terms` is the element-wise model of the sequence.
pub proof fn lemma_scope_terms_is_map(s: Seq<ScopeValue>)
    ensures
        scope_terms(s) == s.map_values(|v: ScopeValue| v.model()),
{
    lemma_scope_terms_len(s);
    assert forall|i: int| 0 <= i < s.len() implies scope_terms(s)[i] == s[i].model() by {
        lemma_scope_terms_index(s, i);
    }
    assert(scope_terms(s) =~= s.map_values(|v: ScopeValue| v.model()));
}

} // verus!

verus! {

/// The texts of an array of scope terms, when every item is a text.
pub open spec fn text_array_of(items: Seq<ScopeTerm>) -> Option<Seq<Seq<char>>>
    decreases items.len(),
{
    if items.len() == 0 {
        Some(Seq::empty())
    } else {
        match (items.last(), text_array_of(items.drop_last())) {
            (ScopeTerm::Text(t), Some(rest)) => Some(rest.push(t)),
            _ => None,
        }
    }
}

impl Clone for ScopeValue {
    #[verifier::loop_isolation(false)]
    fn clone(&self) -> (r: Self)
        ensures
            r.model() == self.model(),
        decreases self,
    {
        match self {
            ScopeValue::Uint(v) => ScopeValue::Uint(*v),
            ScopeValue::Text(s) => ScopeValue::Text(s.clone()),
            ScopeValue::Bool(b) => ScopeValue::Bool(*b),
            ScopeValue::Bytes(b) => ScopeValue::Bytes(b.clone()),
            ScopeValue::Array(a) => {
                let mut out: Vec<ScopeValue> = Vec::new();
                let mut i: usize = 0;
                while i < a.len()
                    invariant
                        i <= a.len(),
                        out@.len() == i,
                        forall|k: int| 0 <= k < i ==> #[trigger] out@[k].model() == a@[k].model(),
                    decreases a.len() - i,
                {
                    proof {
                        vstd::std_specs::vec::axiom_vec_index_decreases(*a, i as int);
                    }
                    let item = a[i].clone();
                    out.push(item);
                    i = i + 1;
                }
                proof {
                    lemma_scope_terms_is_map(out@);
                    lemma_scope_terms_is_map(a@);
                    assert(scope_terms(out@) =~= scope_terms(a@));
                }
                ScopeValue::Array(out)
            },
        }
    }
}

impl ScopeValue {
    /// Try to extract as u64.
    pub fn as_uint(&self) -> (r: Option<u64>)
        ensures
            r == (match self.model() {
                ScopeTerm::Uint(v) => Some(v),
                _ => None,
            }),
    {
        match self {
            ScopeValue::Uint(v) => Some(*v),
            _ => None,
        }
    }

    /// Try to extract as bool.
    pub fn as_bool(&self) -> (r: Option<bool>)
        ensures
            r == (match self.model() {
                ScopeTerm::Bool(b) => Some(b),
                _ => None,
            }),
    {
        match self {
            ScopeValue::Bool(v) => Some(*v),
            _ => None,
        }
    }

    /// Try to extract as text.
    pub fn as_text(&self) -> (r: Option<&str>)
        ensures
            match self.model() {
                ScopeTerm::Text(t) => r is Some && r.unwrap()@ == t,
                _ => r is None,
            },
    {
        match self {
            ScopeValue::Text(s) => Some(s.as_str()),
            _ => None,
        }
    }

    /// Try to extract as string array (for methods/topics lists).
    #[verifier::loop_isolation(false)]
    pub fn as_text_array(&self) -> (r: Option<Vec<&str>>)
        ensures
            match self.model() {
                ScopeTerm::Array(items) => match text_array_of(items) {
                    Some(texts) => r is Some && r.unwrap()@.len() == texts.len() && forall|k: int|
                        0 <= k < texts.len() ==> (#[trigger] r.unwrap()@[k])@ == texts[k],
                    None => r is None,
                },
                _ => r is None,
            },
    {
        match self {
            ScopeValue::Array(arr) => {
                let mut out: Vec<&str> = Vec::with_capacity(arr.len());
                let mut i: usize = 0;
                proof {
                    lemma_scope_terms_is_map(arr@);
                }
                while i < arr.len()
                    invariant
                        i <= arr.len(),
                        scope_terms(arr@) == arr@.map_values(|v: ScopeValue| v.model()),
                        text_array_of(scope_terms(arr@).subrange(0, i as int)) is Some,
                        text_array_of(scope_terms(arr@).subrange(0, i as int)).unwrap().len() == i,
                        out@.len() == i,
                        forall|k: int|
                            0 <= k < i ==> (#[trigger] out@[k])@
                                == text_array_of(scope_terms(arr@).subrange(0, i as int)).unwrap()[k],
                    decreases arr.len() - i,
                {
                    let ghost terms = scope_terms(arr@);
                    assert(terms.subrange(0, i + 1).drop_last() =~= terms.subrange(0, i as int));
                    assert(terms[i as int] == arr@[i as int].model());
                    assert(terms.subrange(0, i + 1).last() == terms[i as int]);
                    match arr[i].as_text() {
                        Some(t) => {
                            out.push(t);
                            assert(text_array_of(terms.subrange(0, i + 1)) == Some(
                                text_array_of(terms.subrange(0, i as int)).unwrap().push(t@),
                            ));
                        },
                        None => {
                            proof {
                                lemma_text_array_none(terms, i as int);
                            }
                            return None;
                        },
                    }
                    i = i + 1;
                }
                assert(scope_terms(arr@).subrange(0, i as int) =~= scope_terms(arr@));
                Some(out)
            },
            _ => None,
        }
    }
}

proof fn lemma_text_array_none(items: Seq<ScopeTerm>, i: int)
    requires
        0 <= i < items.len(),
        !(items[i] is Text),
    ensures
        text_array_of(items) is None,
    decreases items.len(),
{
    if i < items.len() - 1 {
        assert(items.drop_last()[i] == items[i]);
        lemma_text_array_none(items.drop_last(), i);
    }
}

} // verus!

verus! {

/// The entries of an extension map listed in increasing key order: the keys
/// strictly increase, and the list holds exactly the map's entries.
pub open spec fn is_sorted_listing(entries: Seq<(u64, ScopeValue)>, m: Map<u64, ScopeValue>) -> bool {
    &&& forall|i: int, j: int| 0 <= i < j < entries.len() ==> entries[i].0 < entries[j].0
    &&& forall|i: int| 0 <= i < entries.len() ==> #[trigger] m.contains_key(entries[i].0)
        && m[entries[i].0] == entries[i].1
    &&& forall|k: u64| #[trigger] m.contains_key(k) ==> exists|i: int|
        0 <= i < entries.len() && entries[i].0 == k
}

/// Lists the entries of an extension map in increasing key order.
pub fn sorted_entries(m: &BTreeMap<u64, ScopeValue>) -> (r: Vec<(u64, &ScopeValue)>)
    ensures
        forall|i: int, j: int| 0 <= i < j < r@.len() ==> r@[i].0 < r@[j].0,
        forall|i: int|
            #![trigger r@[i]]
            0 <= i < r@.len() ==> m@.contains_key(r@[i].0) && m@[r@[i].0] == *r@[i].1,
        forall|k: u64| #[trigger]
            m@.contains_key(k) ==> exists|i: int| 0 <= i < r@.len() && r@[i].0 == k,
{
    let mut out: Vec<(u64, &ScopeValue)> = Vec::new();
    let ghost s = vstd::std_specs::btree::spec_btree_map_iter(m).remaining();
    proof {
        vstd::std_specs::btree::axiom_spec_btree_map_iter(m);
    }
    let iter = m.iter();
    assert(iter.remaining() == s);
    assert(vstd::std_specs::btree::increasing_seq(s.map_values(|kv: (&u64, &ScopeValue)| *kv.0)));
    assert forall|i: int, j: int| 0 <= i < j < s.len() implies *s[i].0 < *s[j].0 by {
        let ks = s.map_values(|kv: (&u64, &ScopeValue)| *kv.0);
        crate::key_order::lemma_increasing_u64(ks);
        assert(ks[i] == *s[i].0);
        assert(ks[j] == *s[j].0);
    }
    let mut w = vstd::std_specs::iter::VerusForLoopWrapper::new(iter, Ghost(None));
    loop
        invariant
            w.wf(),
            w.seq() == s,
            s.len() == m@.len(),
            out@.len() == w.index(),
            forall|i: int| 0 <= i < w.index() ==> (#[trigger] out@[i]).0 == *s[i].0 && out@[i].1 == s[i].1,
        ensures
            out@.len() == s.len(),
            forall|i: int| 0 <= i < s.len() ==> (#[trigger] out@[i]).0 == *s[i].0 && out@[i].1 == s[i].1,
        decreases m@.len() - w.index(),
    {
        match w.next() {
            Some(e) => {
                let (k, v) = e;
                out.push((*k, v));
            },
            None => {
                break;
            },
        }
    }
    proof {
        assert forall|k: u64| #[trigger] m@.contains_key(k) implies exists|i: int|
            0 <= i < out@.len() && out@[i].0 == k by {
            assert(s.contains((&k, &m@[k])));
            let i = choose|i: int| 0 <= i < s.len() && s[i] == (&k, &m@[k]);
            assert(out@[i].0 == k);
        }
    }
    out
}

} // verus!

verus! {

/// Structural equality of two scope values, decided on their models.
pub fn scope_value_eq(a: &ScopeValue, b: &ScopeValue) -> (r: bool)
    ensures
        r == (a.model() == b.model()),
    decreases a,
{
    match (a, b) {
        (ScopeValue::Uint(x), ScopeValue::Uint(y)) => *x == *y,
        (ScopeValue::Bool(x), ScopeValue::Bool(y)) => *x == *y,
        (ScopeValue::Text(x), ScopeValue::Text(y)) => crate::strings::text_eq(x.as_str(), y.as_str()),
        (ScopeValue::Bytes(x), ScopeValue::Bytes(y)) => bytes_eq(x, y),
        (ScopeValue::Array(x), ScopeValue::Array(y)) => {
            proof {
                lemma_scope_terms_is_map(x@);
                lemma_scope_terms_is_map(y@);
            }
            if x.len() != y.len() {
                assert(scope_terms(x@).len() != scope_terms(y@).len());
                return false;
            }
            let mut i: usize = 0;
            while i < x.len()
                invariant
                    *a == ScopeValue::Array(*x),
                    *b == ScopeValue::Array(*y),
                    i <= x.len(),
                    x.len() == y.len(),
                    scope_terms(x@) == x@.map_values(|v: ScopeValue| v.model()),
                    scope_terms(y@) == y@.map_values(|v: ScopeValue| v.model()),
                    forall|k: int| 0 <= k < i ==> #[trigger] x@[k].model() == y@[k].model(),
                decreases x.len() - i,
            {
                proof {
                    vstd::std_specs::vec::axiom_vec_index_decreases(*x, i as int);
                }
                if !scope_value_eq(&x[i], &y[i]) {
                    assert(scope_terms(x@)[i as int] != scope_terms(y@)[i as int]);
                    assert(scope_terms(x@) != scope_terms(y@));
                    assert(a.model() == ScopeTerm::Array(scope_terms(x@)));
                    assert(b.model() == ScopeTerm::Array(scope_terms(y@)));
                    return false;
                }
                i = i + 1;
            }
            assert(scope_terms(x@) =~= scope_terms(y@));
            true
        },
        _ => false,
    }
}

/// Equality of two byte strings.
pub fn bytes_eq(a: &Vec<u8>, b: &Vec<u8>) -> (r: bool)
    ensures
        r == (a@ == b@),
{
    if a.len() != b.len() {
        return false;
    }
    let mut i: usize = 0;
    while i < a.len()
        invariant
            i <= a.len(),
            a.len() == b.len(),
            forall|k: int| 0 <= k < i ==> a@[k] == b@[k],
        decreases a.len() - i,
    {
        if a[i] != b[i] {
            return false;
        }
        i = i + 1;
    }
    assert(a@ =~= b@);
    true
}

/// Most-restrictive-wins for unsigned limits where 0 means unlimited.
pub open spec fn reconcile_uint(a: u64, b: u64) -> u64 {
    if a == 0 {
        b
    } else if b == 0 {
        a
    } else if a <= b {
        a
    } else {
        b
    }
}

/// The items of `x` that also occur in `y`, in the order of `x`.
pub open spec fn common_terms(x: Seq<ScopeTerm>, y: Seq<ScopeTerm>) -> Seq<ScopeTerm>
    decreases x.len(),
{
    if x.len() == 0 {
        Seq::empty()
    } else {
        let rest = common_terms(x.drop_last(), y);
        if y.contains(x.last()) {
            rest.push(x.last())
        } else {
            rest
        }
    }
}

/// Reconciliation of one extension key: uint → most-restrictive-wins, array →
/// intersection, anything else → the provider's (first) value.
pub open spec fn reconcile_term(a: ScopeTerm, b: ScopeTerm) -> ScopeTerm {
    match (a, b) {
        (ScopeTerm::Uint(x), ScopeTerm::Uint(y)) => ScopeTerm::Uint(reconcile_uint(x, y)),
        (ScopeTerm::Array(x), ScopeTerm::Array(y)) => ScopeTerm::Array(common_terms(x, y)),
        _ => a,
    }
}

/// The provider's value wins unless both sides carry integers or both carry
/// arrays: for texts, booleans, byte strings and values of different kinds
/// the reconciled value is the first (the provider's) one.
pub proof fn lemma_provider_wins(a: ScopeTerm, b: ScopeTerm)
    requires
        !(a is Uint && b is Uint),
        !(a is Array && b is Array),
    ensures
        reconcile_term(a, b) == a,
{
}

/// Most-restrictive-wins for uint where 0 = unlimited.
pub fn reconcile_uint_zero_unlimited(a: u64, b: u64) -> (r: u64)
    ensures
        r == reconcile_uint(a, b),
{
    if a == 0 {
        b
    } else if b == 0 {
        a
    } else if a <= b {
        a
    } else {
        b
    }
}

fn contains_value(items: &Vec<ScopeValue>, v: &ScopeValue) -> (r: bool)
    ensures
        r == scope_terms(items@).contains(v.model()),
{
    proof {
        lemma_scope_terms_is_map(items@);
    }
    let mut i: usize = 0;
    while i < items.len()
        invariant
            i <= items.len(),
            scope_terms(items@) == items@.map_values(|x: ScopeValue| x.model()),
            forall|k: int| 0 <= k < i ==> items@[k].model() != v.model(),
        decreases items.len() - i,
    {
        if scope_value_eq(&items[i], v) {
            assert(scope_terms(items@)[i as int] == v.model());
            return true;
        }
        i = i + 1;
    }
    proof {
        if scope_terms(items@).contains(v.model()) {
            let k = choose|k: int| 0 <= k < scope_terms(items@).len() && scope_terms(items@)[k] == v.model();
            assert(items@[k].model() == v.model());
        }
    }
    false
}

/// Reconcile a single scope value pair.
pub fn reconcile_scope_value(a: &ScopeValue, b: &ScopeValue) -> (r: ScopeValue)
    ensures
        r.model() == reconcile_term(a.model(), b.model()),
{
    match (a, b) {
        (ScopeValue::Uint(va), ScopeValue::Uint(vb)) => ScopeValue::Uint(
            reconcile_uint_zero_unlimited(*va, *vb),
        ),
        (ScopeValue::Array(va), ScopeValue::Array(vb)) => {
            let mut out: Vec<ScopeValue> = Vec::new();
            let mut i: usize = 0;
            proof {
                lemma_scope_terms_is_map(va@);
            }
            while i < va.len()
                invariant
                    i <= va.len(),
                    scope_terms(va@) == va@.map_values(|x: ScopeValue| x.model()),
                    scope_terms(out@) == common_terms(scope_terms(va@).subrange(0, i as int), scope_terms(vb@)),
                decreases va.len() - i,
            {
                let ghost xs = scope_terms(va@).subrange(0, i + 1);
                assert(xs.drop_last() =~= scope_terms(va@).subrange(0, i as int));
                assert(xs.last() == va@[i as int].model());
                if contains_value(vb, &va[i]) {
                    let item = va[i].clone();
                    let ghost before = out@;
                    out.push(item);
                    proof {
                        lemma_scope_terms_is_map(before);
                        lemma_scope_terms_is_map(out@);
                        assert(scope_terms(out@) =~= scope_terms(before).push(item.model()));
                    }
                }
                i = i + 1;
            }
            assert(scope_terms(va@).subrange(0, va.len() as int) =~= scope_terms(va@));
            ScopeValue::Array(out)
        },
        _ => a.clone(),
    }
}

} // verus!

verus! {

/// Scope parameters advertised for a capability.
#[derive(Debug)]
pub struct ScopeParams {
    /// Requests per second (0 = unlimited) — scope key 1
    pub rate_limit: u64,
    /// Session TTL in seconds (0 = no expiry) — scope key 2
    pub ttl: u64,
    /// Extension params (keys 3+), stored as integer→value pairs.
    /// Keys 3-15: reserved for the core protocol. 16-127: registered extensions. 128+: app-defined.
    pub extensions: BTreeMap<u64, ScopeValue>,
}

/// Mathematical model of scope parameters.
pub struct ScopeModel {
    pub rate_limit: u64,
    pub ttl: u64,
    pub extensions: Map<u64, ScopeTerm>,
}

/// The models of the values of an extension map.
pub open spec fn ext_model(m: Map<u64, ScopeValue>) -> Map<u64, ScopeTerm> {
    m.map_values(|v: ScopeValue| v.model())
}

impl ScopeParams {
    pub open spec fn model(&self) -> ScopeModel {
        ScopeModel {
            rate_limit: self.rate_limit,
            ttl: self.ttl,
            extensions: ext_model(self.extensions@),
        }
    }
}

/// Reconciliation of extension maps: keys of either side; where both
/// sides carry a key, the values are reconciled with the provider (`a`) first.
pub open spec fn reconcile_ext(a: Map<u64, ScopeTerm>, b: Map<u64, ScopeTerm>) -> Map<u64, ScopeTerm> {
    Map::new(
        |k: u64| a.contains_key(k) || b.contains_key(k),
        |k: u64|
            if a.contains_key(k) && b.contains_key(k) {
                reconcile_term(a[k], b[k])
            } else if a.contains_key(k) {
                a[k]
            } else {
                b[k]
            },
    )
}

/// Reconciliation of two scope parameter sets, `a` being the provider.
pub open spec fn reconcile_model(a: ScopeModel, b: ScopeModel) -> ScopeModel {
    ScopeModel {
        rate_limit: reconcile_uint(a.rate_limit, b.rate_limit),
        ttl: reconcile_uint(a.ttl, b.ttl),
        extensions: reconcile_ext(a.extensions, b.extensions),
    }
}

/// Most-restrictive-wins on a limit (0 = unlimited): the reconciled limit is
/// one of the two, no looser than either side's limit, unlimited only when
/// both are, and the same whichever side provides.
pub proof fn lemma_reconcile_limit(a: u64, b: u64)
    ensures
        reconcile_uint(a, b) == reconcile_uint(b, a),
        reconcile_uint(a, b) == a || reconcile_uint(a, b) == b,
        a != 0 ==> 0 < reconcile_uint(a, b) <= a,
        b != 0 ==> 0 < reconcile_uint(a, b) <= b,
        reconcile_uint(a, b) == 0 <==> (a == 0 && b == 0),
{
}

/// Both sides of a session reconcile to the same numeric limits: the rate
/// limit, the TTL and every unsigned extension both carry come out the same
/// whichever side provides, and the extension keys are those of either side.
pub proof fn lemma_reconcile_agreement(a: ScopeModel, b: ScopeModel)
    ensures
        reconcile_model(a, b).rate_limit == reconcile_model(b, a).rate_limit,
        reconcile_model(a, b).ttl == reconcile_model(b, a).ttl,
        reconcile_model(a, b).extensions.dom() == reconcile_model(b, a).extensions.dom(),
        forall|k: u64|
            a.extensions.contains_key(k) && b.extensions.contains_key(k) && a.extensions[k] is Uint
                && b.extensions[k] is Uint ==> #[trigger] reconcile_model(a, b).extensions[k] == reconcile_model(
                b,
                a,
            ).extensions[k],
{
    assert(reconcile_model(a, b).extensions.dom() =~= reconcile_model(b, a).extensions.dom());
}

proof fn lemma_common_terms_all(x: Seq<ScopeTerm>, y: Seq<ScopeTerm>)
    requires
        forall|i: int| 0 <= i < x.len() ==> y.contains(#[trigger] x[i]),
    ensures
        common_terms(x, y) == x,
    decreases x.len(),
{
    if x.len() > 0 {
        assert forall|i: int| 0 <= i < x.drop_last().len() implies y.contains(#[trigger] x.drop_last()[i]) by {
            assert(x.drop_last()[i] == x[i]);
        }
        lemma_common_terms_all(x.drop_last(), y);
        assert(y.contains(x[x.len() - 1]));
        assert(x.drop_last().push(x.last()) =~= x);
    }
}

/// Reconciling parameters with themselves changes nothing.
pub proof fn lemma_reconcile_self(a: ScopeModel)
    ensures
        reconcile_model(a, a) == a,
{
    assert forall|k: u64| #[trigger] a.extensions.contains_key(k) implies reconcile_ext(a.extensions, a.extensions)[k]
        == a.extensions[k] by {
        match a.extensions[k] {
            ScopeTerm::Array(x) => {
                assert forall|i: int| 0 <= i < x.len() implies x.contains(#[trigger] x[i]) by {}
                lemma_common_terms_all(x, x);
            },
            _ => {},
        }
    }
    assert(reconcile_ext(a.extensions, a.extensions) =~= a.extensions);
}

impl Default for ScopeParams {
    fn default() -> (r: Self)
        ensures
            r.rate_limit == 0,
            r.ttl == 0,
            r.extensions@ == Map::<u64, ScopeValue>::empty(),
    {
        ScopeParams { rate_limit: 0, ttl: 0, extensions: BTreeMap::new() }
    }
}

impl Clone for ScopeParams {
    fn clone(&self) -> (r: Self)
        ensures
            r.model() == self.model(),
    {
        ScopeParams {
            rate_limit: self.rate_limit,
            ttl: self.ttl,
            extensions: self.extensions.clone(),
        }
    }
}

impl ScopeParams {
    /// Reconcile two scope params: most-restrictive-wins for numeric,
    /// provider-takes-precedence for non-numeric, intersection for arrays.
    /// `self` is the local (provider) side, `other` is the remote side.
    pub fn reconcile(&self, other: &ScopeParams) -> (r: ScopeParams)
        ensures
            r.model() == reconcile_model(self.model(), other.model()),
    {
        let rate_limit = reconcile_uint_zero_unlimited(self.rate_limit, other.rate_limit);
        let ttl = reconcile_uint_zero_unlimited(self.ttl, other.ttl);
        let ghost am = ext_model(self.extensions@);
        let ghost bm = ext_model(other.extensions@);
        let ghost target = reconcile_ext(am, bm);
        let mine = sorted_entries(&self.extensions);
        let theirs = sorted_entries(&other.extensions);
        let mut extensions: BTreeMap<u64, ScopeValue> = BTreeMap::new();
        let mut i: usize = 0;
        while i < mine.len()
            invariant
                i <= mine.len(),
                forall|x: int, y: int| 0 <= x < y < mine@.len() ==> mine@[x].0 < mine@[y].0,
                forall|x: int|
                    #![trigger mine@[x]]
                    0 <= x < mine@.len() ==> self.extensions@.contains_key(mine@[x].0)
                        && self.extensions@[mine@[x].0] == *mine@[x].1,
                forall|k: u64| #[trigger]
                    extensions@.contains_key(k) <==> exists|x: int| 0 <= x < i && mine@[x].0 == k,
                forall|k: u64| #[trigger]
                    extensions@.contains_key(k) ==> extensions@[k].model() == target[k],
                target == reconcile_ext(am, bm),
                am == ext_model(self.extensions@),
                bm == ext_model(other.extensions@),
            decreases mine.len() - i,
        {
            let (k, v) = mine[i];
            let value = match other.extensions.get(&k) {
                Some(b) => reconcile_scope_value(v, b),
                None => v.clone(),
            };
            extensions.insert(k, value);
            proof {
                assert(mine@[i as int].0 == k);
            }
            i = i + 1;
        }
        let mut j: usize = 0;
        while j < theirs.len()
            invariant
                j <= theirs.len(),
                forall|x: int|
                    #![trigger theirs@[x]]
                    0 <= x < theirs@.len() ==> other.extensions@.contains_key(theirs@[x].0)
                        && other.extensions@[theirs@[x].0] == *theirs@[x].1,
                forall|k: u64| #[trigger]
                    extensions@.contains_key(k) <==> (self.extensions@.contains_key(k) || exists|x: int|
                        0 <= x < j && theirs@[x].0 == k),
                forall|k: u64| #[trigger]
                    extensions@.contains_key(k) ==> extensions@[k].model() == target[k],
                target == reconcile_ext(am, bm),
                am == ext_model(self.extensions@),
                bm == ext_model(other.extensions@),
            decreases theirs.len() - j,
        {
            let (k, v) = theirs[j];
            proof {
                assert(theirs@[j as int].0 == k);
                assert(other.extensions@.contains_key(k));
                assert(bm.contains_key(k) && bm[k] == v.model());
            }
            if !self.extensions.contains_key(&k) {
                let value = v.clone();
                proof {
                    assert(!am.contains_key(k));
                    assert(target[k] == bm[k]);
                }
                extensions.insert(k, value);
            }
            j = j + 1;
        }
        let r = ScopeParams { rate_limit, ttl, extensions };
        proof {
            assert(ext_model(r.extensions@) =~= target);
        }
        r
    }

    /// Get an extension value by key.
    pub fn get_ext(&self, key: u64) -> (r: Option<&ScopeValue>)
        ensures
            match r {
                Some(v) => self.extensions@.contains_key(key) && self.extensions@[key] == *v,
                None => !self.extensions@.contains_key(key),
            },
    {
        self.extensions.get(&key)
    }

    /// Get an extension uint value by key.
    pub fn get_ext_uint(&self, key: u64) -> (r: Option<u64>)
        ensures
            r == (if self.extensions@.contains_key(key) {
                match self.extensions@[key].model() {
                    ScopeTerm::Uint(v) => Some(v),
                    _ => None,
                }
            } else {
                None
            }),
    {
        match self.extensions.get(&key) {
            Some(v) => v.as_uint(),
            None => None,
        }
    }

    /// Set an extension value.
    pub fn set_ext(&mut self, key: u64, val: ScopeValue)
        ensures
            final(self).rate_limit == old(self).rate_limit,
            final(self).ttl == old(self).ttl,
            final(self).extensions@ == old(self).extensions@.insert(key, val),
    {
        self.extensions.insert(key, val);
    }
}

} // verus!

verus! {

/// Local trust gate configuration per capability.
/// Uses WireGuard public keys for peer identification.
#[derive(Debug, Clone)]
pub struct TrustPolicy {
    /// Default tier applied to peers not in overrides.
    pub default_tier: ClassificationTier,
    /// Per-peer overrides: WG public key -> tier (the first entry for a key counts).
    pub overrides: Vec<(PeerId, ClassificationTier)>,
    /// Friends list: WireGuard public keys.
    pub friends: Vec<PeerId>,
}

/// The tier an override list assigns to a peer: that of the first entry for it.
pub open spec fn override_tier(overrides: Seq<(PeerId, ClassificationTier)>, peer: Seq<u8>) -> Option<ClassificationTier>
    decreases overrides.len(),
{
    if overrides.len() == 0 {
        None
    } else if overrides[0].0@ == peer {
        Some(overrides[0].1)
    } else {
        override_tier(overrides.subrange(1, overrides.len() as int), peer)
    }
}

/// Whether a tier admits a peer, given whether the peer is a friend.
pub open spec fn tier_allows(tier: ClassificationTier, is_friend: bool) -> bool {
    match tier {
        ClassificationTier::Public => true,
        ClassificationTier::Friends => is_friend,
        ClassificationTier::Blocked => false,
    }
}

/// The decision of a trust policy for a peer: the override tier if one is
/// set for the peer, else the default tier.
pub open spec fn policy_allows(p: TrustPolicy, peer: Seq<u8>) -> bool {
    let is_friend = exists|k: int| 0 <= k < p.friends@.len() && #[trigger] p.friends@[k]@ == peer;
    match override_tier(p.overrides@, peer) {
        Some(t) => tier_allows(t, is_friend),
        None => tier_allows(p.default_tier, is_friend),
    }
}

impl TrustPolicy {
    /// Evaluate trust gate for a specific peer.
    /// Returns true for ALLOW, false for DENY.
    pub fn evaluate(&self, remote_peer_id: &PeerId) -> (r: bool)
        ensures
            r == policy_allows(*self, remote_peer_id@),
    {
        let mut is_friend = false;
        let mut i: usize = 0;
        while i < self.friends.len()
            invariant
                i <= self.friends.len(),
                is_friend == exists|k: int| 0 <= k < i && #[trigger] self.friends@[k]@ == remote_peer_id@,
            decreases self.friends.len() - i,
        {
            if crate::manifest::peer_id_eq(&self.friends[i], remote_peer_id) {
                is_friend = true;
            }
            i = i + 1;
        }
        let mut tier = self.default_tier;
        let mut j: usize = 0;
        let mut matched = false;
        assert(self.overrides@.subrange(0, self.overrides@.len() as int) =~= self.overrides@);
        while j < self.overrides.len()
            invariant
                j <= self.overrides.len(),
                !matched ==> tier == self.default_tier,
                matched ==> override_tier(self.overrides@, remote_peer_id@) == Some(tier),
                !matched ==> override_tier(self.overrides@, remote_peer_id@)
                    == override_tier(self.overrides@.subrange(j as int, self.overrides@.len() as int), remote_peer_id@),
            decreases self.overrides.len() - j,
        {
            let ghost rest = self.overrides@.subrange(j as int, self.overrides@.len() as int);
            assert(rest.subrange(1, rest.len() as int) =~= self.overrides@.subrange(j + 1, self.overrides@.len() as int));
            if !matched && crate::manifest::peer_id_eq(&self.overrides[j].0, remote_peer_id) {
                tier = self.overrides[j].1;
                matched = true;
            }
            j = j + 1;
        }
        match tier {
            ClassificationTier::Public => true,
            ClassificationTier::Friends => is_friend,
            ClassificationTier::Blocked => false,
        }
    }
}

} // verus!

verus! {

/// Reconciled parameters keep the provider's value of every extension both
/// sides carry unless both are integers or both are arrays; an extension
/// only one side carries keeps that side's value.
pub proof fn lemma_provider_extension_wins(a: ScopeModel, b: ScopeModel, k: u64)
    ensures
        a.extensions.contains_key(k) && b.extensions.contains_key(k) && !(a.extensions[k] is Uint
            && b.extensions[k] is Uint) && !(a.extensions[k] is Array && b.extensions[k] is Array)
            ==> reconcile_model(a, b).extensions[k] == a.extensions[k],
        a.extensions.contains_key(k) && !b.extensions.contains_key(k) ==> reconcile_model(a, b).extensions[k]
            == a.extensions[k],
        !a.extensions.contains_key(k) && b.extensions.contains_key(k) ==> reconcile_model(a, b).extensions[k]
            == b.extensions[k],
{
}

/// An array extension reconciles to the items of the provider's array that
/// the other side's array also holds, in the provider's order.
pub proof fn lemma_array_intersection(x: Seq<ScopeTerm>, y: Seq<ScopeTerm>, t: ScopeTerm)
    ensures
        common_terms(x, y).contains(t) <==> x.contains(t) && y.contains(t),
        common_terms(x, y).len() <= x.len(),
    decreases x.len(),
{
    if x.len() > 0 {
        let init = x.drop_last();
        lemma_array_intersection(init, y, t);
        let rest = common_terms(init, y);
        assert(x =~= init.push(x.last()));
        if x.contains(t) {
            let i = choose|i: int| 0 <= i < x.len() && x[i] == t;
            if i < x.len() - 1 {
                assert(init[i] == t);
            }
        }
        if init.contains(t) {
            let i = choose|i: int| 0 <= i < init.len() && init[i] == t;
            assert(x[i] == t);
        }
        if y.contains(x.last()) {
            assert(rest.push(x.last())[rest.len() as int] == x.last());
            if rest.contains(t) {
                let i = choose|i: int| 0 <= i < rest.len() && rest[i] == t;
                assert(rest.push(x.last())[i] == t);
            }
            if rest.push(x.last()).contains(t) {
                let i = choose|i: int| 0 <= i < rest.len() + 1 && rest.push(x.last())[i] == t;
                if i < rest.len() {
                    assert(rest[i] == t);
                }
            }
        }
        if x.last() == t {
            assert(x[x.len() - 1] == t);
        }
    }
}

} // verus!
