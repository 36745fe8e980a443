//! What reading gives back of writing: scope parameters, capability
//! declarations, manifests and protocol messages, over the CBOR item models.
use vstd::prelude::*;

use crate::cbor::{
    cap_cbor, cap_from_cbor, cbor_scope_term, ext_entries_cbor, ext_from_entries, is_key_listing,
    key_listing, lemma_scope_term_round_trip, limit_entry, lookup_u64, scope_cbor, scope_from_cbor,
    scope_term_cbor, u64_items, CodecError,
};
use crate::cbor_value::{
    lemma_lookup_absent, lemma_lookup_append, lemma_lookup_single, lookup, term_u64, CborKind,
    CborTerm,
};
use crate::capability_keys::{APPLICABLE_SCOPE_KEYS, MUTUAL, NAME, ROLE, SCOPE};
use crate::cbor_value::lemma_lookup_at;
use crate::codec::{caps_from_cbor, manifest_cbor, manifest_from_cbor};
use crate::manifest::{cap_name_key, CapModel, ManifestModel};
use crate::manifest_keys::{CAPABILITIES, HASH_ALGORITHM, PEER_ID, PERSONAL_HASH, PROTOCOL_VERSION, SEQUENCE_NUM};
use crate::sorting::{lemma_sort_by_key, sort_by_key};
use crate::cbor_value::{cbor_decoding, cbor_encoding, cbor_plain, lemma_plain_within_mono};
use crate::message::{
    decode_frame, frame, int_entry, lemma_frame_round_trip, message_cbor, message_from_cbor,
    params_cbor, params_from_entries, texts_of, MessageModel, MAX_FRAME,
};
use crate::message_keys::{
    ACCEPTED_PARAMS, ACTIVE_SET, MANIFEST, MESSAGE_TYPE, PAYLOAD, PERSONAL_HASH as MSG_PERSONAL_HASH, REASON, TIMESTAMP,
};
use crate::params::{lemma_upsert_last, names_increasing};
use crate::strings::text_lt;
use crate::wire::{lemma_close_reason_code_round_trip, message_type_of_code};
use crate::scope::{ScopeModel, ScopeTerm};
use crate::wire::{lemma_role_code_round_trip, role_code};
use crate::scope_keys::{RATE_LIMIT, TTL};

verus! {

/// Scope parameters that can travel: finitely many extensions, each keyed
/// above the two keys of the rate limit and the ttl.
pub open spec fn scope_valid(s: ScopeModel) -> bool {
    &&& s.extensions.dom().finite()
    &&& forall|k: u64| #[trigger] s.extensions.contains_key(k) ==> k > TTL
}

/// Every finite set of keys has an increasing listing.
pub proof fn lemma_key_listing_exists(dom: Set<u64>)
    requires
        dom.finite(),
    ensures
        is_key_listing(key_listing(dom), dom),
    decreases dom.len(),
{
    if dom.len() == 0 {
        assert(dom =~= Set::<u64>::empty()) by {
            if exists|k: u64| dom.contains(k) {
                let k = choose|k: u64| dom.contains(k);
                assert(dom.remove(k).len() < dom.len());
            }
        }
        assert(is_key_listing(Seq::<u64>::empty(), dom));
    } else {
        let r = |a: u64, b: u64| a <= b;
        assert(vstd::relations::total_ordering(r));
        dom.find_unique_maximal_ensures(r);
        let mx = dom.find_unique_maximal(r);
        let rest = dom.remove(mx);
        lemma_key_listing_exists(rest);
        let ks0 = key_listing(rest);
        let ks = ks0.push(mx);
        assert forall|i: int| 0 <= i < ks0.len() implies ks0[i] < mx by {
            let x = ks0[i];
            assert(rest.contains(x));
            assert(dom.contains(x) && x != mx);
            if mx <= x {
                assert(r(mx, x));
                assert(r(x, mx));
                assert(x <= mx);
            }
        }
        assert forall|k: u64| #[trigger] dom.contains(k) implies ks.contains(k) by {
            if k != mx {
                assert(rest.contains(k));
                assert(ks0.contains(k));
                let i = choose|i: int| 0 <= i < ks0.len() && ks0[i] == k;
                assert(ks[i] == k);
            } else {
                assert(ks[ks.len() - 1] == mx);
            }
        }
        assert(is_key_listing(ks, dom));
    }
}


/// The entries of an extension map listed by `ks` read back as the map
/// restricted to the listed keys.
proof fn lemma_ext_from_listing(m: Map<u64, ScopeTerm>, ks: Seq<u64>)
    requires
        forall|i: int| 0 <= i < ks.len() ==> #[trigger] ks[i] > TTL,
    ensures
        ext_from_entries(ks.map_values(|k: u64| (CborTerm::Integer(k as int), scope_term_cbor(m[k]))))
            == Map::new(|k: u64| ks.contains(k), |k: u64| m[k]),
    decreases ks.len(),
{
    let es = ks.map_values(|k: u64| (CborTerm::Integer(k as int), scope_term_cbor(m[k])));
    if ks.len() == 0 {
        assert(Map::new(|k: u64| ks.contains(k), |k: u64| m[k]) =~= Map::<u64, ScopeTerm>::empty());
    } else {
        let init = ks.drop_last();
        assert forall|i: int| 0 <= i < init.len() implies #[trigger] init[i] > TTL by {
            assert(init[i] == ks[i]);
        }
        lemma_ext_from_listing(m, init);
        assert(es.drop_last() =~= init.map_values(|k: u64| (CborTerm::Integer(k as int), scope_term_cbor(m[k]))));
        let k = ks.last();
        assert(ks[ks.len() - 1] > TTL);
        lemma_scope_term_round_trip(m[k]);
        assert(es.last() == (CborTerm::Integer(k as int), scope_term_cbor(m[k])));
        assert(term_u64(es.last().0) == Some(k));
        assert forall|x: u64| ks.contains(x) == (init.contains(x) || x == k) by {
            if ks.contains(x) && x != k {
                let i = choose|i: int| 0 <= i < ks.len() && ks[i] == x;
                assert(i < ks.len() - 1);
                assert(init[i] == x);
            }
            if init.contains(x) {
                let i = choose|i: int| 0 <= i < init.len() && init[i] == x;
                assert(ks[i] == x);
            }
            if x == k {
                assert(ks[ks.len() - 1] == x);
            }
        }
        assert(ext_from_entries(es) =~= Map::new(|x: u64| ks.contains(x), |x: u64| m[x]));
    }
}

/// The extension entries of a map read back as the map.
pub proof fn lemma_ext_entries_round_trip(m: Map<u64, ScopeTerm>)
    requires
        m.dom().finite(),
        forall|k: u64| #[trigger] m.contains_key(k) ==> k > TTL,
    ensures
        ext_from_entries(ext_entries_cbor(m)) == m,
{
    lemma_key_listing_exists(m.dom());
    let ks = key_listing(m.dom());
    assert forall|i: int| 0 <= i < ks.len() implies #[trigger] ks[i] > TTL by {
        assert(m.dom().contains(ks[i]));
    }
    lemma_ext_from_listing(m, ks);
    assert forall|k: u64| ks.contains(k) == m.dom().contains(k) by {
        if ks.contains(k) {
            let i = choose|i: int| 0 <= i < ks.len() && ks[i] == k;
            assert(m.dom().contains(ks[i]));
        }
    }
    assert(Map::new(|k: u64| ks.contains(k), |k: u64| m[k]) =~= m);
}

/// No entry of `a` is keyed by an extension key.
pub open spec fn no_extension_keys(a: Seq<(CborTerm, CborTerm)>) -> bool {
    forall|i: int| 0 <= i < a.len() ==> match term_u64(#[trigger] a[i].0) {
        Some(k) => k <= TTL,
        None => true,
    }
}

proof fn lemma_ext_skip_all(a: Seq<(CborTerm, CborTerm)>)
    requires
        no_extension_keys(a),
    ensures
        ext_from_entries(a) == Map::<u64, ScopeTerm>::empty(),
    decreases a.len(),
{
    if a.len() > 0 {
        let init = a.drop_last();
        assert forall|i: int| 0 <= i < init.len() implies match term_u64(#[trigger] init[i].0) {
            Some(k) => k <= TTL,
            None => true,
        } by {
            assert(init[i] == a[i]);
        }
        lemma_ext_skip_all(init);
        assert(a.last() == a[a.len() - 1]);
    }
}

/// Entries without extension keys in front of others change no extension.
proof fn lemma_ext_skip_prefix(a: Seq<(CborTerm, CborTerm)>, b: Seq<(CborTerm, CborTerm)>)
    requires
        no_extension_keys(a),
    ensures
        ext_from_entries(a + b) == ext_from_entries(b),
    decreases b.len(),
{
    if b.len() == 0 {
        assert(a + b =~= a);
        lemma_ext_skip_all(a);
    } else {
        lemma_ext_skip_prefix(a, b.drop_last());
        assert((a + b).drop_last() =~= a + b.drop_last());
        assert((a + b).last() == b.last());
    }
}

/// Writing scope parameters and reading them back gives them again, when
/// their extensions are finitely many and keyed above 2.
pub proof fn lemma_scope_round_trip(s: ScopeModel)
    requires
        scope_valid(s),
    ensures
        scope_from_cbor(scope_cbor(s)) == Ok::<ScopeModel, CodecError>(s),
{
    let l1 = limit_entry(RATE_LIMIT, s.rate_limit);
    let l2 = limit_entry(TTL, s.ttl);
    let e = ext_entries_cbor(s.extensions);
    lemma_key_listing_exists(s.extensions.dom());
    let ks = key_listing(s.extensions.dom());
    assert forall|i: int| 0 <= i < e.len() implies term_u64(#[trigger] e[i].0) != Some(RATE_LIMIT)
        && term_u64(e[i].0) != Some(TTL) by {
        assert(s.extensions.dom().contains(ks[i]));
        assert(e[i].0 == CborTerm::Integer(ks[i] as int));
    }
    lemma_lookup_append(l1 + l2, e, RATE_LIMIT, CborKind::Integer);
    lemma_lookup_append(l1, l2, RATE_LIMIT, CborKind::Integer);
    lemma_lookup_append(l1 + l2, e, TTL, CborKind::Integer);
    lemma_lookup_append(l1, l2, TTL, CborKind::Integer);
    lemma_lookup_absent(e, RATE_LIMIT, CborKind::Integer);
    lemma_lookup_absent(e, TTL, CborKind::Integer);
    lemma_lookup_single(CborTerm::Integer(RATE_LIMIT as int), CborTerm::Integer(s.rate_limit as int), RATE_LIMIT, CborKind::Integer);
    lemma_lookup_single(CborTerm::Integer(RATE_LIMIT as int), CborTerm::Integer(s.rate_limit as int), TTL, CborKind::Integer);
    lemma_lookup_single(CborTerm::Integer(TTL as int), CborTerm::Integer(s.ttl as int), RATE_LIMIT, CborKind::Integer);
    lemma_lookup_single(CborTerm::Integer(TTL as int), CborTerm::Integer(s.ttl as int), TTL, CborKind::Integer);
    if s.rate_limit == 0 {
        assert(l1 =~= Seq::<(CborTerm, CborTerm)>::empty());
        assert(lookup(l1, RATE_LIMIT, CborKind::Integer) is None);
        assert(lookup(l1, TTL, CborKind::Integer) is None);
    }
    if s.ttl == 0 {
        assert(l2 =~= Seq::<(CborTerm, CborTerm)>::empty());
        assert(lookup(l2, RATE_LIMIT, CborKind::Integer) is None);
        assert(lookup(l2, TTL, CborKind::Integer) is None);
    }
    let front = l1 + l2;
    assert(no_extension_keys(front)) by {
        assert forall|i: int| 0 <= i < front.len() implies match term_u64(#[trigger] front[i].0) {
            Some(k) => k <= TTL,
            None => true,
        } by {
            if i < l1.len() {
                assert(front[i] == l1[i]);
            } else {
                assert(front[i] == l2[i - l1.len()]);
            }
        }
    }
    lemma_ext_skip_prefix(front, e);
    lemma_ext_entries_round_trip(s.extensions);
}


/// A capability declaration that can travel: its scope, if any, can.
pub open spec fn cap_valid(c: CapModel) -> bool {
    match c.scope {
        Some(s) => scope_valid(s),
        None => true,
    }
}

/// The unsigned integers written as items read back as themselves.
proof fn lemma_u64_items_round_trip(ks: Seq<u64>)
    ensures
        u64_items(ks.map_values(|k: u64| CborTerm::Integer(k as int))) == ks,
    decreases ks.len(),
{
    let items = ks.map_values(|k: u64| CborTerm::Integer(k as int));
    if ks.len() > 0 {
        lemma_u64_items_round_trip(ks.drop_last());
        assert(items.drop_last() =~= ks.drop_last().map_values(|k: u64| CborTerm::Integer(k as int)));
        assert(items.last() == CborTerm::Integer(ks.last() as int));
        assert(u64_items(items) =~= ks);
    } else {
        assert(u64_items(items) =~= ks);
    }
}

/// The entries of a capability declaration, in the four parts it is written in.
proof fn lemma_cap_lookup(c: CapModel, key: u64, kind: CborKind)
    ensures
        ({
            let base = seq![
                (CborTerm::Integer(NAME as int), CborTerm::Text(c.name)),
                (CborTerm::Integer(ROLE as int), CborTerm::Integer(role_code(c.role) as int)),
            ];
            let mu: Seq<(CborTerm, CborTerm)> = if c.mutual {
                seq![(CborTerm::Integer(MUTUAL as int), CborTerm::Bool(true))]
            } else {
                Seq::empty()
            };
            let sc: Seq<(CborTerm, CborTerm)> = match c.scope {
                Some(s) => seq![(CborTerm::Integer(SCOPE as int), scope_cbor(s))],
                None => Seq::empty(),
            };
            let ky: Seq<(CborTerm, CborTerm)> = match c.applicable_scope_keys {
                Some(ks) => seq![
                    (
                        CborTerm::Integer(APPLICABLE_SCOPE_KEYS as int),
                        CborTerm::Array(ks.map_values(|k: u64| CborTerm::Integer(k as int))),
                    ),
                ],
                None => Seq::empty(),
            };
            &&& cap_cbor(c) == CborTerm::Entries(base + mu + sc + ky)
            &&& lookup(base + mu + sc + ky, key, kind) == match lookup(base, key, kind) {
                Some(x) => Some(x),
                None => match lookup(mu, key, kind) {
                    Some(x) => Some(x),
                    None => match lookup(sc, key, kind) {
                        Some(x) => Some(x),
                        None => lookup(ky, key, kind),
                    },
                },
            }
        }),
{
    let base = seq![
        (CborTerm::Integer(NAME as int), CborTerm::Text(c.name)),
        (CborTerm::Integer(ROLE as int), CborTerm::Integer(role_code(c.role) as int)),
    ];
    let mu: Seq<(CborTerm, CborTerm)> = if c.mutual {
        seq![(CborTerm::Integer(MUTUAL as int), CborTerm::Bool(true))]
    } else {
        Seq::empty()
    };
    let sc: Seq<(CborTerm, CborTerm)> = match c.scope {
        Some(s) => seq![(CborTerm::Integer(SCOPE as int), scope_cbor(s))],
        None => Seq::empty(),
    };
    let ky: Seq<(CborTerm, CborTerm)> = match c.applicable_scope_keys {
        Some(ks) => seq![
            (
                CborTerm::Integer(APPLICABLE_SCOPE_KEYS as int),
                CborTerm::Array(ks.map_values(|k: u64| CborTerm::Integer(k as int))),
            ),
        ],
        None => Seq::empty(),
    };
    lemma_lookup_append(base + mu + sc, ky, key, kind);
    lemma_lookup_append(base + mu, sc, key, kind);
    lemma_lookup_append(base, mu, key, kind);
}

/// A part of a capability map holding at most the one entry `e`.
proof fn lemma_part_lookup(part: Seq<(CborTerm, CborTerm)>, e: (CborTerm, CborTerm), key: u64, kind: CborKind)
    requires
        part == seq![e] || part == Seq::<(CborTerm, CborTerm)>::empty(),
    ensures
        lookup(part, key, kind) == (if part.len() == 1 && term_u64(e.0) == Some(key) && crate::cbor_value::term_has_kind(e.1, kind) {
            Some(e.1)
        } else {
            None
        }),
{
    lemma_lookup_single(e.0, e.1, key, kind);
}

/// Writing a capability declaration and reading it back gives it again,
/// when its scope can travel.
pub proof fn lemma_cap_round_trip(c: CapModel)
    requires
        cap_valid(c),
    ensures
        cap_from_cbor(cap_cbor(c)) == Ok::<CapModel, CodecError>(c),
{
    let base = seq![
        (CborTerm::Integer(NAME as int), CborTerm::Text(c.name)),
        (CborTerm::Integer(ROLE as int), CborTerm::Integer(role_code(c.role) as int)),
    ];
    let mu_e = (CborTerm::Integer(MUTUAL as int), CborTerm::Bool(true));
    let mu: Seq<(CborTerm, CborTerm)> = if c.mutual { seq![mu_e] } else { Seq::empty() };
    let sc_e = (CborTerm::Integer(SCOPE as int), match c.scope {
        Some(s) => scope_cbor(s),
        None => CborTerm::Null,
    });
    let sc: Seq<(CborTerm, CborTerm)> = match c.scope {
        Some(s) => seq![sc_e],
        None => Seq::empty(),
    };
    let ky_e = (CborTerm::Integer(APPLICABLE_SCOPE_KEYS as int), CborTerm::Array(match c.applicable_scope_keys {
        Some(ks) => ks.map_values(|k: u64| CborTerm::Integer(k as int)),
        None => Seq::empty(),
    }));
    let ky: Seq<(CborTerm, CborTerm)> = match c.applicable_scope_keys {
        Some(ks) => seq![ky_e],
        None => Seq::empty(),
    };
    assert(seq![base[1]] =~= base.subrange(1, 2));
    lemma_lookup_at(base, NAME, CborKind::Text, 0);
    lemma_lookup_at(base, ROLE, CborKind::Integer, 1);
    lemma_lookup_absent(base, MUTUAL, CborKind::Bool);
    lemma_lookup_absent(base, SCOPE, CborKind::Entries);
    lemma_lookup_absent(base, APPLICABLE_SCOPE_KEYS, CborKind::Array);
    lemma_cap_lookup(c, NAME, CborKind::Text);
    lemma_cap_lookup(c, ROLE, CborKind::Integer);
    lemma_cap_lookup(c, MUTUAL, CborKind::Bool);
    lemma_cap_lookup(c, SCOPE, CborKind::Entries);
    lemma_cap_lookup(c, APPLICABLE_SCOPE_KEYS, CborKind::Array);
    lemma_part_lookup(mu, mu_e, MUTUAL, CborKind::Bool);
    lemma_part_lookup(mu, mu_e, SCOPE, CborKind::Entries);
    lemma_part_lookup(mu, mu_e, APPLICABLE_SCOPE_KEYS, CborKind::Array);
    lemma_part_lookup(sc, sc_e, MUTUAL, CborKind::Bool);
    lemma_part_lookup(sc, sc_e, SCOPE, CborKind::Entries);
    lemma_part_lookup(ky, ky_e, MUTUAL, CborKind::Bool);
    lemma_part_lookup(ky, ky_e, SCOPE, CborKind::Entries);
    lemma_part_lookup(sc, sc_e, APPLICABLE_SCOPE_KEYS, CborKind::Array);
    lemma_part_lookup(ky, ky_e, APPLICABLE_SCOPE_KEYS, CborKind::Array);
    lemma_role_code_round_trip(c.role);
    let ent = base + mu + sc + ky;
    assert(lookup(ent, NAME, CborKind::Text) == Some(CborTerm::Text(c.name)));
    assert(lookup_u64(ent, ROLE) == Some(role_code(c.role)));
    assert(lookup(ent, MUTUAL, CborKind::Bool) == (if c.mutual { Some(CborTerm::Bool(true)) } else { None::<CborTerm> }));
    assert(lookup(ent, SCOPE, CborKind::Entries) == (match c.scope { Some(s) => Some(scope_cbor(s)), None => None::<CborTerm> }));
    match c.scope {
        Some(s) => {
            lemma_scope_round_trip(s);
        },
        None => {},
    }
    match c.applicable_scope_keys {
        Some(ks) => {
            lemma_u64_items_round_trip(ks);
        },
        None => {},
    }
}


/// Every capability of the list can travel.
pub open spec fn caps_valid(caps: Seq<CapModel>) -> bool {
    forall|i: int| 0 <= i < caps.len() ==> cap_valid(#[trigger] caps[i])
}

/// A manifest that can travel: a 32-byte peer id, and capabilities that can.
pub open spec fn manifest_valid(m: ManifestModel) -> bool {
    &&& m.peer_id.len() == 32
    &&& caps_valid(m.capabilities)
}

proof fn lemma_caps_round_trip(caps: Seq<CapModel>)
    requires
        caps_valid(caps),
    ensures
        caps_from_cbor(caps.map_values(|c: CapModel| cap_cbor(c))) == Ok::<Seq<CapModel>, CodecError>(caps),
    decreases caps.len(),
{
    let items = caps.map_values(|c: CapModel| cap_cbor(c));
    if caps.len() == 0 {
        assert(caps =~= Seq::<CapModel>::empty());
    } else {
        let init = caps.drop_last();
        assert forall|i: int| 0 <= i < init.len() implies cap_valid(#[trigger] init[i]) by {
            assert(init[i] == caps[i]);
        }
        lemma_caps_round_trip(init);
        assert(items.drop_last() =~= init.map_values(|c: CapModel| cap_cbor(c)));
        assert(cap_valid(caps[caps.len() - 1]));
        lemma_cap_round_trip(caps.last());
        assert(init.push(caps.last()) =~= caps);
    }
}

/// Writing a manifest and reading it back gives it again, its capabilities
/// sorted by name.
pub proof fn lemma_manifest_round_trip(m: ManifestModel)
    requires
        manifest_valid(m),
    ensures
        manifest_from_cbor(manifest_cbor(m)) == Ok::<ManifestModel, CodecError>(
            ManifestModel { capabilities: sort_by_key(m.capabilities, cap_name_key()), ..m },
        ),
{
    broadcast use vstd::seq_lib::group_to_multiset_ensures;
    let sorted = sort_by_key(m.capabilities, cap_name_key());
    lemma_sort_by_key(m.capabilities, cap_name_key());
    assert forall|i: int| 0 <= i < sorted.len() implies cap_valid(#[trigger] sorted[i]) by {
        assert(sorted.to_multiset().count(sorted[i]) > 0);
        assert(m.capabilities.contains(sorted[i]));
        let j = choose|j: int| 0 <= j < m.capabilities.len() && m.capabilities[j] == sorted[i];
        assert(cap_valid(m.capabilities[j]));
    }
    lemma_caps_round_trip(sorted);
    let es = match manifest_cbor(m) {
        CborTerm::Entries(es) => es,
        _ => Seq::empty(),
    };
    lemma_lookup_at(es, PROTOCOL_VERSION, CborKind::Integer, 0);
    lemma_lookup_at(es, PEER_ID, CborKind::Bytes, 1);
    lemma_lookup_at(es, SEQUENCE_NUM, CborKind::Integer, 2);
    lemma_lookup_at(es, CAPABILITIES, CborKind::Array, 3);
    lemma_lookup_at(es, PERSONAL_HASH, CborKind::Bytes, 4);
    lemma_lookup_at(es, HASH_ALGORITHM, CborKind::Text, 5);
}


/// Accepted params that can travel: names strictly increasing, each scope
/// able to travel.
pub open spec fn params_valid(p: Seq<(Seq<char>, ScopeModel)>) -> bool {
    &&& names_increasing(p)
    &&& forall|i: int| 0 <= i < p.len() ==> scope_valid(#[trigger] p[i].1)
}

/// A message that can travel: its manifest, accepted params or message type
/// as above; a capability message carries a type that is not a protocol type.
pub open spec fn message_valid(m: MessageModel) -> bool {
    match m {
        MessageModel::Offer { manifest } => manifest_valid(manifest),
        MessageModel::Confirm { accepted_params, .. } => match accepted_params {
            Some(p) => params_valid(p),
            None => true,
        },
        MessageModel::CapabilityMsg { message_type, .. } => message_type_of_code(message_type) is None,
        _ => true,
    }
}

/// The message that reading back a written message gives: the same message,
/// except that an OFFER's capabilities come back sorted by name.
pub open spec fn message_read_back(m: MessageModel) -> MessageModel {
    match m {
        MessageModel::Offer { manifest } => MessageModel::Offer {
            manifest: ManifestModel { capabilities: sort_by_key(manifest.capabilities, cap_name_key()), ..manifest },
        },
        _ => m,
    }
}

proof fn lemma_texts_round_trip(names: Seq<Seq<char>>)
    ensures
        texts_of(names.map_values(|s: Seq<char>| CborTerm::Text(s))) == Some(names),
    decreases names.len(),
{
    let items = names.map_values(|s: Seq<char>| CborTerm::Text(s));
    if names.len() == 0 {
        assert(names =~= Seq::<Seq<char>>::empty());
    } else {
        lemma_texts_round_trip(names.drop_last());
        assert(items.drop_last() =~= names.drop_last().map_values(|s: Seq<char>| CborTerm::Text(s)));
        assert(items.last() == CborTerm::Text(names.last()));
        assert(names.drop_last().push(names.last()) =~= names);
    }
}

proof fn lemma_params_round_trip(p: Seq<(Seq<char>, ScopeModel)>)
    requires
        params_valid(p),
    ensures
        params_from_entries(params_cbor(p)) == Ok::<Seq<(Seq<char>, ScopeModel)>, CodecError>(p),
    decreases p.len(),
{
    if p.len() == 0 {
        assert(p =~= Seq::<(Seq<char>, ScopeModel)>::empty());
    } else {
        let init = p.drop_last();
        let last = p.last();
        assert(params_valid(init)) by {
            assert forall|i: int, j: int| 0 <= i < j < init.len() implies text_lt(#[trigger] init[i].0, #[trigger] init[j].0) by {
                assert(init[i] == p[i] && init[j] == p[j]);
            }
            assert forall|i: int| 0 <= i < init.len() implies scope_valid(#[trigger] init[i].1) by {
                assert(init[i] == p[i]);
            }
        }
        lemma_params_round_trip(init);
        assert(params_cbor(p).drop_last() =~= params_cbor(init));
        assert(params_cbor(p).last() == (CborTerm::Text(last.0), scope_cbor(last.1)));
        assert(scope_valid(p[p.len() - 1].1));
        lemma_scope_round_trip(last.1);
        assert forall|j: int| 0 <= j < init.len() implies text_lt(#[trigger] init[j].0, last.0) by {
            assert(init[j] == p[j]);
            assert(text_lt(p[j].0, p[p.len() - 1].0));
        }
        lemma_upsert_last(init, last.0, last.1);
        assert(init.push(last) =~= p);
    }
}

/// Writing a message and reading it back gives `message_read_back` of it,
/// when the message can travel and its envelope is a plain data item.
pub proof fn lemma_message_round_trip(m: MessageModel)
    requires
        message_valid(m),
        cbor_plain(message_cbor(m)),
    ensures
        message_from_cbor(message_cbor(m)) == Ok::<MessageModel, CodecError>(message_read_back(m)),
{
    let es = match message_cbor(m) {
        CborTerm::Entries(es) => es,
        _ => Seq::empty(),
    };
    lemma_lookup_at(es, MESSAGE_TYPE, CborKind::Integer, 0);
    match m {
        MessageModel::Offer { manifest } => {
            lemma_lookup_at(es, MANIFEST, CborKind::Any, 1);
            assert(es[1].1 == manifest_cbor(manifest));
            lemma_plain_within_mono(manifest_cbor(manifest), 127, 128);
            lemma_manifest_round_trip(manifest);
        },
        MessageModel::Confirm { personal_hash, active_set, accepted_params } => {
            let base = seq![
                int_entry(MESSAGE_TYPE, 2),
                (CborTerm::Integer(MSG_PERSONAL_HASH as int), CborTerm::Bytes(personal_hash)),
                (
                    CborTerm::Integer(ACTIVE_SET as int),
                    CborTerm::Array(active_set.map_values(|s: Seq<char>| CborTerm::Text(s))),
                ),
            ];
            let opt: Seq<(CborTerm, CborTerm)> = match accepted_params {
                Some(p) => seq![(CborTerm::Integer(ACCEPTED_PARAMS as int), CborTerm::Entries(params_cbor(p)))],
                None => Seq::empty(),
            };
            assert(es == base + opt);
            lemma_lookup_at(es, MSG_PERSONAL_HASH, CborKind::Bytes, 1);
            lemma_lookup_at(es, ACTIVE_SET, CborKind::Array, 2);
            lemma_lookup_append(base, opt, ACCEPTED_PARAMS, CborKind::Entries);
            lemma_lookup_absent(base, ACCEPTED_PARAMS, CborKind::Entries);
            lemma_texts_round_trip(active_set);
            match accepted_params {
                Some(p) => {
                    lemma_lookup_single(
                        CborTerm::Integer(ACCEPTED_PARAMS as int),
                        CborTerm::Entries(params_cbor(p)),
                        ACCEPTED_PARAMS,
                        CborKind::Entries,
                    );
                    lemma_params_round_trip(p);
                },
                None => {
                    assert(lookup(opt, ACCEPTED_PARAMS, CborKind::Entries) is None);
                },
            }
        },
        MessageModel::Close { personal_hash, reason } => {
            lemma_lookup_at(es, MSG_PERSONAL_HASH, CborKind::Bytes, 1);
            lemma_lookup_at(es, REASON, CborKind::Integer, 2);
            lemma_close_reason_code_round_trip(reason);
        },
        MessageModel::Ping { timestamp } => {
            lemma_lookup_at(es, TIMESTAMP, CborKind::Integer, 1);
        },
        MessageModel::Pong { timestamp } => {
            lemma_lookup_at(es, TIMESTAMP, CborKind::Integer, 1);
        },
        MessageModel::CapabilityMsg { message_type, payload } => {
            lemma_lookup_at(es, PAYLOAD, CborKind::Bytes, 1);
        },
    }
}

/// Decoding the encoding of a message, followed by any bytes, takes exactly
/// the encoded frame and gives `message_read_back` of the message, when the
/// message can travel, its envelope is a plain data item, its CBOR is at
/// most 64 MiB and `ciborium` reads back what it wrote for it.
pub proof fn lemma_decode_encoded(m: MessageModel, tail: Seq<u8>)
    requires
        message_valid(m),
        cbor_plain(message_cbor(m)),
        cbor_decoding(cbor_encoding(message_cbor(m))) == Some(message_cbor(m)),
        cbor_encoding(message_cbor(m)).len() <= MAX_FRAME,
    ensures
        decode_frame(frame(cbor_encoding(message_cbor(m))) + tail) == (
            Ok::<MessageModel, CodecError>(message_read_back(m)),
            4 + cbor_encoding(message_cbor(m)).len() as int,
        ),
{
    lemma_frame_round_trip(cbor_encoding(message_cbor(m)), tail);
    lemma_message_round_trip(m);
}

} // verus!

verus! {

/// The envelope of a PING, PONG, CLOSE or capability message is a plain
/// data item, so its round trip through `encode` and `decode` depends only
/// on the frame's size.
pub proof fn lemma_flat_message_plain(m: MessageModel)
    requires
        m is Ping || m is Pong || m is Close || m is CapabilityMsg,
    ensures
        cbor_plain(message_cbor(m)),
{
    let es = match message_cbor(m) {
        CborTerm::Entries(es) => es,
        _ => Seq::empty(),
    };
    assert forall|i: int| 0 <= i < es.len() implies crate::cbor_value::plain_within(#[trigger] es[i].0, 127)
        && crate::cbor_value::plain_within(es[i].1, 127) by {
        assert(es[i].0 is Integer);
    }
}

} // verus!
