use vstd::prelude::*;

use crate::manifest::{CapModel, DiscoveryManifest, ManifestModel, PeerId};
use crate::scope::{policy_allows, TrustPolicy};
use crate::sorting::{insert_by_key, lemma_insert_position, lemma_sort_by_key, sort_by_key, sorted_by_key};
use crate::strings::{lemma_text_lt_irrefl, lemma_text_lt_total, text_eq, text_le, text_less, text_lt};
use crate::wire::{lemma_roles_match_symmetric, roles_match};

verus! {

/// Name of the heartbeat capability, which no trust gate can exclude.
pub open spec fn heartbeat_name() -> Seq<char> {
    "core.session.heartbeat.1"@
}

/// The remote manifest declares a capability with the same name as local
/// capability `j`, whose role matches it.
pub open spec fn has_role_match(local: ManifestModel, remote: ManifestModel, j: int) -> bool {
    exists|k: int|
        0 <= k < remote.capabilities.len() && #[trigger] remote.capabilities[k].name
            == local.capabilities[j].name && roles_match(
            local.capabilities[j].role,
            remote.capabilities[k].role,
            local.capabilities[j].mutual,
            remote.capabilities[k].mutual,
        )
}

/// The names of the capabilities at the positions `sel` marks, in order.
pub open spec fn selected_names(caps: Seq<CapModel>, sel: Seq<bool>) -> Seq<Seq<char>>
    decreases caps.len(),
{
    if caps.len() == 0 || sel.len() != caps.len() {
        Seq::empty()
    } else {
        let rest = selected_names(caps.drop_last(), sel.drop_last());
        if sel.last() {
            rest.push(caps.last().name)
        } else {
            rest
        }
    }
}

/// The identity key for sorting names.
pub open spec fn text_key() -> spec_fn(Seq<char>) -> Seq<char> {
    |t: Seq<char>| t
}

/// The models of a list of texts.
pub open spec fn texts_model(s: Seq<String>) -> Seq<Seq<char>> {
    s.map_values(|t: String| t@)
}

/// A copy of a list of texts.
pub(crate) fn copy_texts(v: &Vec<String>) -> (r: Vec<String>)
    ensures
        texts_model(r@) == texts_model(v@),
{
    let mut out: Vec<String> = Vec::new();
    let mut i: usize = 0;
    while i < v.len()
        invariant
            i <= v.len(),
            out@.len() == i,
            forall|k: int| 0 <= k < i ==> (#[trigger] out@[k])@ == v@[k]@,
        decreases v.len() - i,
    {
        out.push(v[i].clone());
        i = i + 1;
    }
    assert(texts_model(out@) =~= texts_model(v@));
    out
}

/// One call of the trust gate on `name` and `peer` may have returned `answer`.
pub open spec fn gate_answered<F: Fn(&str, &PeerId) -> bool>(
    gate: F,
    name: Seq<char>,
    peer: PeerId,
    answer: bool,
) -> bool {
    exists|s: &str| s@ == name && call_ensures(gate, (s, &peer), answer)
}

/// Sorts texts in `String` order.
pub fn sort_texts(items: Vec<String>) -> (r: Vec<String>)
    ensures
        texts_model(r@) == sort_by_key(texts_model(items@), text_key()),
{
    let mut input = items;
    let ghost orig = texts_model(input@);
    let mut out: Vec<String> = Vec::new();
    let mut i: usize = 0;
    let n = input.len();
    while i < n
        invariant
            n == orig.len(),
            i <= n,
            input@.len() == n - i,
            texts_model(input@) == orig.subrange(i as int, n as int),
            texts_model(out@) == sort_by_key(orig.subrange(0, i as int), text_key()),
        decreases n - i,
    {
        let ghost old_in = input@;
        assert(texts_model(old_in)[0] == orig.subrange(i as int, n as int)[0]);
        let x = input.remove(0);
        let ghost xm = x@;
        assert(texts_model(input@) =~= texts_model(old_in).subrange(1, old_in.len() as int));
        assert(texts_model(input@) =~= orig.subrange(i + 1, n as int));
        let mut j = out.len();
        while j > 0 && text_less(x.as_str(), out[j - 1].as_str())
            invariant
                j <= out@.len(),
                x@ == xm,
                forall|k: int| j <= k < out@.len() ==> text_lt(xm, #[trigger] out@[k]@),
            decreases j,
        {
            j = j - 1;
        }
        let ghost before = texts_model(out@);
        proof {
            let key = text_key();
            assert forall|k: int| j <= k < before.len() implies text_lt(key(xm), #[trigger] key(before[k])) by {
                assert(before[k] == out@[k]@);
            }
            if j > 0 {
                assert(before[j - 1] == out@[j - 1]@);
            }
            lemma_insert_position(before, xm, key, j as int);
        }
        out.insert(j, x);
        proof {
            assert(texts_model(out@) =~= before.insert(j as int, xm));
            let pre = orig.subrange(0, i + 1);
            assert(pre.drop_last() =~= orig.subrange(0, i as int));
            assert(pre.last() == xm);
        }
        i = i + 1;
    }
    assert(orig.subrange(0, n as int) =~= orig);
    out
}

/// A call of the trust gate that the intersection may make: for the remote
/// peer, on the name of a local capability (not the heartbeat) that the
/// remote declares with a matching role.
pub open spec fn gate_call_allowed(local: DiscoveryManifest, remote: DiscoveryManifest, name: Seq<char>, peer: PeerId) -> bool {
    &&& peer == remote.peer_id
    &&& name != heartbeat_name()
    &&& exists|j: int|
        0 <= j < local.model().capabilities.len() && #[trigger] local.model().capabilities[j].name == name
            && has_role_match(local.model(), remote.model(), j)
}

/// What a computed active set `r` is: the sorted names of a selection of
/// the local capabilities, where a selected capability has a role match in
/// the remote manifest, a matching heartbeat is always selected, and any
/// other matching capability is selected exactly when a call of the trust
/// gate on its name and the remote peer answered true.
pub open spec fn intersection_of<F: Fn(&str, &PeerId) -> bool>(
    local: DiscoveryManifest,
    remote: DiscoveryManifest,
    trust_gate: F,
    r: Seq<Seq<char>>,
) -> bool {
    exists|sel: Seq<bool>|
        {
            &&& sel.len() == local.model().capabilities.len()
            &&& r == sort_by_key(selected_names(local.model().capabilities, sel), text_key())
            &&& forall|j: int|
                0 <= j < sel.len() ==> (#[trigger] sel[j] ==> has_role_match(local.model(), remote.model(), j))
            &&& forall|j: int|
                0 <= j < sel.len() && has_role_match(local.model(), remote.model(), j)
                    && local.model().capabilities[j].name == heartbeat_name() ==> #[trigger] sel[j]
            &&& forall|j: int|
                0 <= j < sel.len() && has_role_match(local.model(), remote.model(), j)
                    && local.model().capabilities[j].name != heartbeat_name() ==> (#[trigger] sel[j]
                    ==> gate_answered(trust_gate, local.model().capabilities[j].name, remote.peer_id, true))
                    && (!sel[j] ==> gate_answered(
                    trust_gate,
                    local.model().capabilities[j].name,
                    remote.peer_id,
                    false,
                ))
        }
}

/// Compute the active set from two manifests and a trust gate.
/// Returns the sorted list of local capability names that the remote also
/// declares with a matching role and that the trust gate allows for the
/// remote peer; the heartbeat capability is never filtered out by trust.
/// The trust gate is called only for the remote peer and for matched
/// capabilities other than the heartbeat; its `requires` covers exactly
/// those calls.
pub fn compute_intersection<F>(
    local: &DiscoveryManifest,
    remote: &DiscoveryManifest,
    trust_gate: &F,
) -> (r: Vec<String>) where F: Fn(&str, &PeerId) -> bool
    requires
        forall|s: &str, p: &PeerId| gate_call_allowed(*local, *remote, s@, *p) ==> #[trigger] trust_gate.requires((s, p)),
    ensures
        intersection_of(*local, *remote, *trust_gate, texts_model(r@)),
{
    let ghost lm = local.model();
    let ghost rm = remote.model();
    let mut active: Vec<String> = Vec::new();
    let ghost mut sel: Seq<bool> = Seq::empty();
    let mut i: usize = 0;
    while i < local.capabilities.len()
        invariant
            lm == local.model(),
            rm == remote.model(),
            forall|s: &str, p: &PeerId| gate_call_allowed(*local, *remote, s@, *p) ==> #[trigger] trust_gate.requires((s, p)),
            i <= local.capabilities.len(),
            sel.len() == i,
            texts_model(active@) == selected_names(lm.capabilities.subrange(0, i as int), sel),
            forall|j: int| 0 <= j < i ==> (#[trigger] sel[j] ==> has_role_match(lm, rm, j)),
            forall|j: int|
                0 <= j < i && has_role_match(lm, rm, j) && lm.capabilities[j].name == heartbeat_name()
                    ==> #[trigger] sel[j],
            forall|j: int|
                0 <= j < i && has_role_match(lm, rm, j) && lm.capabilities[j].name != heartbeat_name()
                    ==> (#[trigger] sel[j] ==> gate_answered(*trust_gate, lm.capabilities[j].name, remote.peer_id, true))
                    && (!sel[j] ==> gate_answered(*trust_gate, lm.capabilities[j].name, remote.peer_id, false)),
        decreases local.capabilities.len() - i,
    {
        let local_cap = &local.capabilities[i];
        let ghost cm = local_cap.model();
        assert(cm == lm.capabilities[i as int]);
        let is_heartbeat = text_eq(local_cap.name.as_str(), "core.session.heartbeat.1");
        let mut found = false;
        let mut k: usize = 0;
        while k < remote.capabilities.len()
            invariant_except_break
                !found,
            invariant
                lm == local.model(),
                rm == remote.model(),
                cm == lm.capabilities[i as int],
                i < lm.capabilities.len(),
                forall|s: &str, p: &PeerId| gate_call_allowed(*local, *remote, s@, *p) ==> #[trigger] trust_gate.requires((s, p)),
                is_heartbeat == (cm.name == heartbeat_name()),
                k <= remote.capabilities.len(),
                local_cap.model() == cm,
                forall|m: int|
                    0 <= m < k && rm.capabilities[m].name == cm.name && roles_match(
                        cm.role,
                        rm.capabilities[m].role,
                        cm.mutual,
                        rm.capabilities[m].mutual,
                    ) ==> !is_heartbeat && gate_answered(*trust_gate, cm.name, remote.peer_id, false),
            ensures
                found ==> has_role_match(lm, rm, i as int) && (is_heartbeat || gate_answered(*trust_gate, cm.name, remote.peer_id, true)),
                !found ==> (has_role_match(lm, rm, i as int) ==> !is_heartbeat && gate_answered(*trust_gate, cm.name, remote.peer_id, false)),
            decreases remote.capabilities.len() - k,
        {
            let remote_cap = &remote.capabilities[k];
            assert(remote_cap.model() == rm.capabilities[k as int]);
            if text_eq(local_cap.name.as_str(), remote_cap.name.as_str())
                && local_cap.role.matches(&remote_cap.role, local_cap.mutual, remote_cap.mutual) {
                if is_heartbeat {
                    found = true;
                    assert(rm.capabilities[k as int].name == lm.capabilities[i as int].name);
                    break;
                }
                assert(rm.capabilities[k as int].name == lm.capabilities[i as int].name);
                assert(has_role_match(lm, rm, i as int));
                assert(gate_call_allowed(*local, *remote, local_cap.name@, remote.peer_id));
                let allowed = trust_gate(local_cap.name.as_str(), &remote.peer_id);
                if allowed {
                    found = true;
                    assert(rm.capabilities[k as int].name == lm.capabilities[i as int].name);
                    break;
                }
            }
            k = k + 1;
        }
        proof {
            let pre = lm.capabilities.subrange(0, i + 1);
            assert(pre.drop_last() =~= lm.capabilities.subrange(0, i as int));
            assert(pre.last() == cm);
            let nsel = sel.push(found);
            assert(nsel.drop_last() =~= sel);
            sel = nsel;
        }
        if found {
            let name = local_cap.name.clone();
            active.push(name);
            assert(texts_model(active@) =~= texts_model(active@.drop_last()).push(cm.name));
        }
        i = i + 1;
    }
    assert(lm.capabilities.subrange(0, i as int) =~= lm.capabilities);
    let r = sort_texts(active);
    assert(sel.len() == lm.capabilities.len());
    r
}

} // verus!

verus! {

/// The decision of a per-capability policy table: the first policy
/// listed for the capability decides; a capability without a policy is allowed.
pub open spec fn policy_table_allows(policies: Seq<(String, TrustPolicy)>, name: Seq<char>, peer: Seq<u8>) -> bool
    decreases policies.len(),
{
    if policies.len() == 0 {
        true
    } else if policies[0].0@ == name {
        policy_allows(policies[0].1, peer)
    } else {
        policy_table_allows(policies.subrange(1, policies.len() as int), name, peer)
    }
}

fn policy_table_gate(policies: &Vec<(String, TrustPolicy)>, cap_name: &str, peer_id: &PeerId) -> (r: bool)
    ensures
        r == policy_table_allows(policies@, cap_name@, peer_id@),
{
    let mut i: usize = 0;
    assert(policies@.subrange(0, policies@.len() as int) =~= policies@);
    while i < policies.len()
        invariant
            i <= policies.len(),
            policy_table_allows(policies@, cap_name@, peer_id@) == policy_table_allows(
                policies@.subrange(i as int, policies@.len() as int),
                cap_name@,
                peer_id@,
            ),
        decreases policies.len() - i,
    {
        let ghost rest = policies@.subrange(i as int, policies@.len() as int);
        assert(rest.subrange(1, rest.len() as int) =~= policies@.subrange(i + 1, policies@.len() as int));
        if text_eq(policies[i].0.as_str(), cap_name) {
            return policies[i].1.evaluate(peer_id);
        }
        i = i + 1;
    }
    true
}

/// Intersection driven by a per-capability trust policy table.
/// The trust decision for a capability is made by the first policy listed
/// for it; a capability without a policy admits every peer.
pub fn compute_intersection_legacy(
    local: &DiscoveryManifest,
    remote: &DiscoveryManifest,
    trust_policies: &Vec<(String, TrustPolicy)>,
) -> (r: Vec<String>)
    ensures
        texts_model(r@) == agreed_names(
            local.model(),
            remote.model(),
            |name: Seq<char>| policy_table_allows(trust_policies@, name, remote.peer_id@),
        ),
{
    let gate = |cap_name: &str, peer_id: &PeerId| -> (b: bool)
        ensures
            b == policy_table_allows(trust_policies@, cap_name@, peer_id@),
        { policy_table_gate(trust_policies, cap_name, peer_id) };
    let r = compute_intersection(local, remote, &gate);
    proof {
        let lm = local.model();
        let rm = remote.model();
        let sel = choose|sel: Seq<bool>|
            {
                &&& sel.len() == lm.capabilities.len()
                &&& texts_model(r@) == sort_by_key(selected_names(lm.capabilities, sel), text_key())
                &&& forall|j: int| 0 <= j < sel.len() ==> (#[trigger] sel[j] ==> has_role_match(lm, rm, j))
                &&& forall|j: int|
                    0 <= j < sel.len() && has_role_match(lm, rm, j) && lm.capabilities[j].name
                        == heartbeat_name() ==> #[trigger] sel[j]
                &&& forall|j: int|
                    0 <= j < sel.len() && has_role_match(lm, rm, j) && lm.capabilities[j].name
                        != heartbeat_name() ==> (#[trigger] sel[j] ==> gate_answered(gate, lm.capabilities[j].name, remote.peer_id, true))
                        && (!sel[j] ==> gate_answered(gate, lm.capabilities[j].name, remote.peer_id, false))
            };
        assert forall|j: int| 0 <= j < sel.len() implies (#[trigger] sel[j] <==> has_role_match(lm, rm, j) && (
            lm.capabilities[j].name == heartbeat_name() || policy_table_allows(trust_policies@, lm.capabilities[j].name, remote.peer_id@))) by {
            let name = lm.capabilities[j].name;
            if has_role_match(lm, rm, j) && name != heartbeat_name() {
                if sel[j] {
                    let s = choose|s: &str| s@ == name && call_ensures(gate, (s, &remote.peer_id), true);
                } else {
                    let s = choose|s: &str| s@ == name && call_ensures(gate, (s, &remote.peer_id), false);
                }
            }
        }
        let allows = |name: Seq<char>| policy_table_allows(trust_policies@, name, remote.peer_id@);
        assert(sel =~= admitted(lm, rm, allows));
    }
    r
}

/// Which of `local`'s capabilities make the active set against `remote`:
/// those the remote declares with a matching role that the heartbeat rule
/// or `allows` admits.
pub open spec fn admitted(local: ManifestModel, remote: ManifestModel, allows: spec_fn(Seq<char>) -> bool) -> Seq<bool> {
    Seq::new(
        local.capabilities.len(),
        |j: int|
            has_role_match(local, remote, j) && (local.capabilities[j].name == heartbeat_name() || allows(
                local.capabilities[j].name,
            )),
    )
}

/// The active set `local` computes against `remote`, sorted by name.
pub open spec fn agreed_names(local: ManifestModel, remote: ManifestModel, allows: spec_fn(Seq<char>) -> bool) -> Seq<Seq<char>> {
    sort_by_key(selected_names(local.capabilities, admitted(local, remote, allows)), text_key())
}

/// No two capabilities of a manifest share a name.
pub open spec fn names_unique(m: ManifestModel) -> bool {
    forall|i: int, j: int|
        0 <= i < j < m.capabilities.len() ==> #[trigger] m.capabilities[i].name != #[trigger] m.capabilities[j].name
}

proof fn lemma_selected_contains(caps: Seq<CapModel>, sel: Seq<bool>, n: Seq<char>)
    requires
        sel.len() == caps.len(),
    ensures
        selected_names(caps, sel).contains(n) <==> exists|j: int|
            0 <= j < caps.len() && #[trigger] sel[j] && caps[j].name == n,
    decreases caps.len(),
{
    if caps.len() > 0 {
        let rest = selected_names(caps.drop_last(), sel.drop_last());
        lemma_selected_contains(caps.drop_last(), sel.drop_last(), n);
        if rest.contains(n) {
            let j = choose|j: int| 0 <= j < caps.len() - 1 && #[trigger] sel.drop_last()[j] && caps.drop_last()[j].name == n;
            assert(sel[j] && caps[j].name == n);
        }
        if exists|j: int| 0 <= j < caps.len() && #[trigger] sel[j] && caps[j].name == n {
            let j = choose|j: int| 0 <= j < caps.len() && #[trigger] sel[j] && caps[j].name == n;
            if j < caps.len() - 1 {
                assert(sel.drop_last()[j] && caps.drop_last()[j].name == n);
                assert(rest.contains(n));
                if sel.last() {
                    let k = choose|k: int| 0 <= k < rest.len() && rest[k] == n;
                    assert(rest.push(caps.last().name)[k] == n);
                }
            } else {
                assert(rest.push(caps.last().name)[rest.len() as int] == n);
            }
        }
        if sel.last() && rest.push(caps.last().name).contains(n) && !rest.contains(n) {
            let k = choose|k: int| 0 <= k < rest.len() + 1 && rest.push(caps.last().name)[k] == n;
            if k < rest.len() {
                assert(rest[k] == n);
            }
            assert(sel[caps.len() - 1] && caps[caps.len() - 1].name == n);
        }
    }
}

proof fn lemma_selected_unique(caps: Seq<CapModel>, sel: Seq<bool>)
    requires
        sel.len() == caps.len(),
        forall|i: int, j: int| 0 <= i < j < caps.len() ==> #[trigger] caps[i].name != #[trigger] caps[j].name,
    ensures
        selected_names(caps, sel).no_duplicates(),
    decreases caps.len(),
{
    if caps.len() > 0 {
        let rest = selected_names(caps.drop_last(), sel.drop_last());
        assert forall|i: int, j: int| 0 <= i < j < caps.len() - 1 implies #[trigger] caps.drop_last()[i].name
            != #[trigger] caps.drop_last()[j].name by {
            assert(caps[i].name != caps[j].name);
        }
        lemma_selected_unique(caps.drop_last(), sel.drop_last());
        if sel.last() {
            let last = caps.last().name;
            lemma_selected_contains(caps.drop_last(), sel.drop_last(), last);
            if rest.contains(last) {
                let j = choose|j: int| 0 <= j < caps.len() - 1 && #[trigger] sel.drop_last()[j] && caps.drop_last()[j].name == last;
                assert(caps[j].name != caps[caps.len() - 1].name);
            }
            let r = rest.push(last);
            assert forall|i: int, j: int| 0 <= i < r.len() && 0 <= j < r.len() && i != j implies r[i] != r[j] by {
                if i == rest.len() {
                    assert(!rest.contains(r[j]) ==> r[i] != r[j]);
                    if r[i] == r[j] {
                        assert(rest[j] == last);
                    }
                } else if j == rest.len() {
                    if r[i] == r[j] {
                        assert(rest[i] == last);
                    }
                }
            }
        }
    }
}

/// Two sorted sequences of distinct names with the same elements are equal.
proof fn lemma_sorted_unique_eq(s: Seq<Seq<char>>, t: Seq<Seq<char>>)
    requires
        sorted_by_key(s, text_key()),
        sorted_by_key(t, text_key()),
        s.no_duplicates(),
        t.no_duplicates(),
        forall|x: Seq<char>| s.contains(x) <==> t.contains(x),
    ensures
        s == t,
    decreases s.len(),
{
    if s.len() == 0 {
        if t.len() > 0 {
            assert(t.contains(t[0]));
        }
        assert(s =~= t);
    } else {
        assert(s.contains(s[0]));
        assert(t.len() > 0);
        assert(t.contains(t[0]));
        let k = choose|k: int| 0 <= k < t.len() && t[k] == s[0];
        let i = choose|i: int| 0 <= i < s.len() && s[i] == t[0];
        if k > 0 {
            assert(text_le(text_key()(t[0]), text_key()(t[k])));
            assert(text_key()(t[0]) == t[0] && text_key()(t[k]) == s[0]);
        } else {
            lemma_text_lt_irrefl(s[0]);
        }
        if i > 0 {
            assert(text_le(text_key()(s[0]), text_key()(s[i])));
            assert(text_key()(s[0]) == s[0] && text_key()(s[i]) == t[0]);
        } else {
            lemma_text_lt_irrefl(t[0]);
        }
        assert(!text_lt(s[0], t[0]));
        assert(!text_lt(t[0], s[0]));
        lemma_text_lt_total(s[0], t[0]);
        let s2 = s.drop_first();
        let t2 = t.drop_first();
        assert forall|x: Seq<char>| s2.contains(x) <==> t2.contains(x) by {
            if s2.contains(x) {
                let a = choose|a: int| 0 <= a < s2.len() && s2[a] == x;
                assert(s[a + 1] == x);
                assert(x != s[0]);
                assert(s.contains(x));
                let b = choose|b: int| 0 <= b < t.len() && t[b] == x;
                assert(b != 0);
                assert(t2[b - 1] == x);
            }
            if t2.contains(x) {
                let a = choose|a: int| 0 <= a < t2.len() && t2[a] == x;
                assert(t[a + 1] == x);
                assert(x != t[0]);
                assert(t.contains(x));
                let b = choose|b: int| 0 <= b < s.len() && s[b] == x;
                assert(b != 0);
                assert(s2[b - 1] == x);
            }
        }
        assert(sorted_by_key(s2, text_key())) by {
            assert forall|a: int, b: int| 0 <= a < b < s2.len() implies text_le(text_key()(s2[a]), text_key()(s2[b])) by {
                assert(s2[a] == s[a + 1] && s2[b] == s[b + 1]);
            }
        }
        assert(sorted_by_key(t2, text_key())) by {
            assert forall|a: int, b: int| 0 <= a < b < t2.len() implies text_le(text_key()(t2[a]), text_key()(t2[b])) by {
                assert(t2[a] == t[a + 1] && t2[b] == t[b + 1]);
            }
        }
        lemma_sorted_unique_eq(s2, t2);
        assert(s =~= seq![s[0]] + s2);
        assert(t =~= seq![t[0]] + t2);
    }
}

/// Sorting keeps the elements and their distinctness.
proof fn lemma_sort_keeps_elements(s: Seq<Seq<char>>)
    requires
        s.no_duplicates(),
    ensures
        sorted_by_key(sort_by_key(s, text_key()), text_key()),
        sort_by_key(s, text_key()).no_duplicates(),
        forall|x: Seq<char>| #[trigger] sort_by_key(s, text_key()).contains(x) <==> s.contains(x),
{
    broadcast use vstd::seq_lib::group_to_multiset_ensures;
    let r = sort_by_key(s, text_key());
    lemma_sort_by_key(s, text_key());
    s.lemma_multiset_has_no_duplicates();
    assert forall|x: Seq<char>| r.to_multiset().contains(x) implies r.to_multiset().count(x) == 1 by {
        assert(s.to_multiset().contains(x));
    }
    r.lemma_multiset_has_no_duplicates_conv();
    assert forall|x: Seq<char>| #[trigger] r.contains(x) <==> s.contains(x) by {
        assert(r.to_multiset().count(x) == s.to_multiset().count(x));
    }
}

/// Active-set agreement: when no manifest repeats a capability name and the
/// two peers' trust decisions agree on every name, each peer computes the
/// same active set against the other.
pub proof fn lemma_active_set_agreement(
    a: ManifestModel,
    b: ManifestModel,
    allows_a: spec_fn(Seq<char>) -> bool,
    allows_b: spec_fn(Seq<char>) -> bool,
)
    requires
        names_unique(a),
        names_unique(b),
        forall|n: Seq<char>| #[trigger] allows_a(n) == allows_b(n),
    ensures
        agreed_names(a, b, allows_a) == agreed_names(b, a, allows_b),
{
    let sa = admitted(a, b, allows_a);
    let sb = admitted(b, a, allows_b);
    let la = selected_names(a.capabilities, sa);
    let lb = selected_names(b.capabilities, sb);
    lemma_selected_unique(a.capabilities, sa);
    lemma_selected_unique(b.capabilities, sb);
    assert forall|n: Seq<char>| la.contains(n) <==> lb.contains(n) by {
        lemma_selected_contains(a.capabilities, sa, n);
        lemma_selected_contains(b.capabilities, sb, n);
        if la.contains(n) {
            let j = choose|j: int| 0 <= j < a.capabilities.len() && #[trigger] sa[j] && a.capabilities[j].name == n;
            let k = choose|k: int|
                0 <= k < b.capabilities.len() && #[trigger] b.capabilities[k].name == a.capabilities[j].name
                    && roles_match(a.capabilities[j].role, b.capabilities[k].role, a.capabilities[j].mutual, b.capabilities[k].mutual);
            lemma_roles_match_symmetric(a.capabilities[j].role, b.capabilities[k].role, a.capabilities[j].mutual, b.capabilities[k].mutual);
            assert(a.capabilities[j].name == b.capabilities[k].name);
            assert(has_role_match(b, a, k));
            assert(sb[k]);
        }
        if lb.contains(n) {
            let k = choose|k: int| 0 <= k < b.capabilities.len() && #[trigger] sb[k] && b.capabilities[k].name == n;
            let j = choose|j: int|
                0 <= j < a.capabilities.len() && #[trigger] a.capabilities[j].name == b.capabilities[k].name
                    && roles_match(b.capabilities[k].role, a.capabilities[j].role, b.capabilities[k].mutual, a.capabilities[j].mutual);
            lemma_roles_match_symmetric(b.capabilities[k].role, a.capabilities[j].role, b.capabilities[k].mutual, a.capabilities[j].mutual);
            assert(has_role_match(a, b, j));
            assert(sa[j]);
        }
    }
    lemma_sort_keeps_elements(la);
    lemma_sort_keeps_elements(lb);
    lemma_sorted_unique_eq(sort_by_key(la, text_key()), sort_by_key(lb, text_key()));
}

/// With a trust gate whose every answer is `allows` of the capability name
/// and the peer, the active set is `agreed_names` under that decision for
/// the remote peer.
pub proof fn lemma_intersection_by_gate<F: Fn(&str, &PeerId) -> bool>(
    local: DiscoveryManifest,
    remote: DiscoveryManifest,
    gate: F,
    allows: spec_fn(Seq<char>, Seq<u8>) -> bool,
    r: Seq<Seq<char>>,
)
    requires
        intersection_of(local, remote, gate, r),
        forall|s: &str, p: &PeerId, b: bool| #[trigger] call_ensures(gate, (s, p), b) ==> b == allows(s@, p@),
    ensures
        r == agreed_names(local.model(), remote.model(), |n: Seq<char>| allows(n, remote.peer_id@)),
{
    let lm = local.model();
    let rm = remote.model();
    let pick = |n: Seq<char>| allows(n, remote.peer_id@);
    let sel = choose|sel: Seq<bool>|
        {
            &&& sel.len() == lm.capabilities.len()
            &&& r == sort_by_key(selected_names(lm.capabilities, sel), text_key())
            &&& forall|j: int| 0 <= j < sel.len() ==> (#[trigger] sel[j] ==> has_role_match(lm, rm, j))
            &&& forall|j: int|
                0 <= j < sel.len() && has_role_match(lm, rm, j) && lm.capabilities[j].name == heartbeat_name()
                    ==> #[trigger] sel[j]
            &&& forall|j: int|
                0 <= j < sel.len() && has_role_match(lm, rm, j) && lm.capabilities[j].name != heartbeat_name()
                    ==> (#[trigger] sel[j] ==> gate_answered(gate, lm.capabilities[j].name, remote.peer_id, true))
                    && (!sel[j] ==> gate_answered(gate, lm.capabilities[j].name, remote.peer_id, false))
        };
    let adm = admitted(lm, rm, pick);
    assert forall|j: int| 0 <= j < sel.len() implies sel[j] == adm[j] by {
        if has_role_match(lm, rm, j) && lm.capabilities[j].name != heartbeat_name() {
            let name = lm.capabilities[j].name;
            let peer = remote.peer_id;
            if sel[j] {
                assert(gate_answered(gate, name, peer, true));
                let s = choose|s: &str| s@ == name && call_ensures(gate, (s, &peer), true);
                assert(call_ensures(gate, (s, &peer), true));
            } else {
                assert(gate_answered(gate, name, peer, false));
                let s = choose|s: &str| s@ == name && call_ensures(gate, (s, &peer), false);
                assert(call_ensures(gate, (s, &peer), false));
            }
        }
    }
    assert(sel =~= adm);
}

/// Both peers compute the same active set when neither manifest repeats a
/// capability name and the trust gate's every answer depends on the
/// capability name alone (such as a gate that allows everything).
pub proof fn lemma_intersection_symmetric<F: Fn(&str, &PeerId) -> bool>(
    a: DiscoveryManifest,
    b: DiscoveryManifest,
    gate: F,
    allows: spec_fn(Seq<char>) -> bool,
    ra: Seq<Seq<char>>,
    rb: Seq<Seq<char>>,
)
    requires
        names_unique(a.model()),
        names_unique(b.model()),
        intersection_of(a, b, gate, ra),
        intersection_of(b, a, gate, rb),
        forall|s: &str, p: &PeerId, x: bool| #[trigger] call_ensures(gate, (s, p), x) ==> x == allows(s@),
    ensures
        ra == rb,
{
    let by_name = |n: Seq<char>, p: Seq<u8>| allows(n);
    lemma_intersection_by_gate(a, b, gate, by_name, ra);
    lemma_intersection_by_gate(b, a, gate, by_name, rb);
    let fa = |n: Seq<char>| by_name(n, b.peer_id@);
    let fb = |n: Seq<char>| by_name(n, a.peer_id@);
    assert(ra == agreed_names(a.model(), b.model(), fa));
    assert(rb == agreed_names(b.model(), a.model(), fb));
    lemma_active_set_agreement(a.model(), b.model(), fa, fb);
}

/// The policy-table intersection is the gated one whose gate answers from
/// the same table (a capability without a policy allowed): what a gated
/// computation with such a gate gives is what `compute_intersection_legacy`
/// states.
pub proof fn lemma_legacy_is_gated<F: Fn(&str, &PeerId) -> bool>(
    local: DiscoveryManifest,
    remote: DiscoveryManifest,
    policies: Seq<(String, TrustPolicy)>,
    gate: F,
    r: Seq<Seq<char>>,
)
    requires
        intersection_of(local, remote, gate, r),
        forall|s: &str, p: &PeerId, x: bool|
            #[trigger] call_ensures(gate, (s, p), x) ==> x == policy_table_allows(policies, s@, p@),
    ensures
        r == agreed_names(local.model(), remote.model(), |name: Seq<char>| policy_table_allows(policies, name, remote.peer_id@)),
{
    let table = |n: Seq<char>, p: Seq<u8>| policy_table_allows(policies, n, p);
    lemma_intersection_by_gate(local, remote, gate, table, r);
    assert((|n: Seq<char>| table(n, remote.peer_id@)) =~= (|name: Seq<char>| policy_table_allows(policies, name, remote.peer_id@)));
}

} // verus!
