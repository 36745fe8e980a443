//! The accepted scope parameters of a CONFIRM: capability name to scope
//! parameters, held as entries sorted by name with each name once, the order
//! in which they are written on the wire.
use vstd::prelude::*;

use crate::scope::{ScopeModel, ScopeParams};
use crate::strings::{
    lemma_text_lt_irrefl, lemma_text_lt_total, lemma_text_lt_trans, text_eq, text_less, text_lt,
};

verus! {

/// The names of the entries strictly increase.
pub open spec fn names_increasing(s: Seq<(Seq<char>, ScopeModel)>) -> bool {
    forall|i: int, j: int| 0 <= i < j < s.len() ==> text_lt(#[trigger] s[i].0, #[trigger] s[j].0)
}

/// `s` with `name` bound to `v`: its entry replaced where there is one,
/// otherwise a new entry placed before the first larger name.
pub open spec fn upsert(s: Seq<(Seq<char>, ScopeModel)>, name: Seq<char>, v: ScopeModel) -> Seq<(Seq<char>, ScopeModel)>
    decreases s.len(),
{
    if s.len() == 0 {
        seq![(name, v)]
    } else if s[0].0 == name {
        s.update(0, (name, v))
    } else if text_lt(name, s[0].0) {
        seq![(name, v)] + s
    } else {
        seq![s[0]] + upsert(s.drop_first(), name, v)
    }
}

/// The parameters bound to `name`: those of its first entry.
pub open spec fn params_get(s: Seq<(Seq<char>, ScopeModel)>, name: Seq<char>) -> Option<ScopeModel>
    decreases s.len(),
{
    if s.len() == 0 {
        None
    } else if s[0].0 == name {
        Some(s[0].1)
    } else {
        params_get(s.drop_first(), name)
    }
}

/// Reading a name after binding it gives the bound parameters; every other
/// name keeps what it had.
pub proof fn lemma_upsert_get(s: Seq<(Seq<char>, ScopeModel)>, name: Seq<char>, v: ScopeModel, other: Seq<char>)
    ensures
        params_get(upsert(s, name, v), other) == (if other == name {
            Some(v)
        } else {
            params_get(s, other)
        }),
    decreases s.len(),
{
    let u = upsert(s, name, v);
    if s.len() == 0 {
        assert(u[0] == (name, v));
        assert(u.drop_first() =~= Seq::<(Seq<char>, ScopeModel)>::empty());
        assert(params_get(u.drop_first(), other) is None);
    } else if s[0].0 == name {
        assert(u[0] == (name, v));
        assert(u.drop_first() =~= s.drop_first());
    } else if text_lt(name, s[0].0) {
        assert(u[0] == (name, v));
        assert(u.drop_first() =~= s);
    } else {
        lemma_upsert_get(s.drop_first(), name, v, other);
        assert(u[0] == s[0]);
        assert(u.drop_first() =~= upsert(s.drop_first(), name, v));
    }
}

/// A name below `name` and below every name of `s` is below every name of
/// `upsert(s, name, v)`.
proof fn lemma_upsert_lower_bound(s: Seq<(Seq<char>, ScopeModel)>, name: Seq<char>, v: ScopeModel, x: Seq<char>)
    requires
        text_lt(x, name),
        forall|j: int| 0 <= j < s.len() ==> text_lt(x, #[trigger] s[j].0),
    ensures
        forall|i: int| 0 <= i < upsert(s, name, v).len() ==> text_lt(x, #[trigger] upsert(s, name, v)[i].0),
    decreases s.len(),
{
    let u = upsert(s, name, v);
    if s.len() == 0 {
    } else if s[0].0 == name {
    } else if text_lt(name, s[0].0) {
        assert forall|i: int| 0 <= i < u.len() implies text_lt(x, #[trigger] u[i].0) by {
            if i > 0 {
                assert(u[i] == s[i - 1]);
            }
        }
    } else {
        let rest = s.drop_first();
        assert forall|j: int| 0 <= j < rest.len() implies text_lt(x, #[trigger] rest[j].0) by {
            assert(rest[j] == s[j + 1]);
        }
        lemma_upsert_lower_bound(rest, name, v, x);
        assert forall|i: int| 0 <= i < u.len() implies text_lt(x, #[trigger] u[i].0) by {
            if i > 0 {
                assert(u[i] == upsert(rest, name, v)[i - 1]);
            }
        }
    }
}

/// Binding a name keeps the names strictly increasing.
pub proof fn lemma_upsert_increasing(s: Seq<(Seq<char>, ScopeModel)>, name: Seq<char>, v: ScopeModel)
    requires
        names_increasing(s),
    ensures
        names_increasing(upsert(s, name, v)),
    decreases s.len(),
{
    let u = upsert(s, name, v);
    if s.len() == 0 {
    } else if s[0].0 == name {
        assert forall|i: int, j: int| 0 <= i < j < u.len() implies text_lt(#[trigger] u[i].0, #[trigger] u[j].0) by {
            assert(u[i].0 == s[i].0);
            assert(u[j].0 == s[j].0);
        }
    } else if text_lt(name, s[0].0) {
        assert forall|i: int, j: int| 0 <= i < j < u.len() implies text_lt(#[trigger] u[i].0, #[trigger] u[j].0) by {
            if i == 0 {
                if j > 1 {
                    lemma_text_lt_trans(name, s[0].0, s[j - 1].0);
                }
            } else {
                assert(u[i] == s[i - 1]);
                assert(u[j] == s[j - 1]);
            }
        }
    } else {
        let rest = s.drop_first();
        if !text_lt(s[0].0, name) {
            lemma_text_lt_total(name, s[0].0);
        }
        assert(names_increasing(rest)) by {
            assert forall|i: int, j: int| 0 <= i < j < rest.len() implies text_lt(#[trigger] rest[i].0, #[trigger] rest[j].0) by {
                assert(rest[i] == s[i + 1]);
                assert(rest[j] == s[j + 1]);
            }
        }
        lemma_upsert_increasing(rest, name, v);
        assert forall|j: int| 0 <= j < rest.len() implies text_lt(s[0].0, #[trigger] rest[j].0) by {
            assert(rest[j] == s[j + 1]);
        }
        lemma_upsert_lower_bound(rest, name, v, s[0].0);
        let ur = upsert(rest, name, v);
        assert forall|i: int, j: int| 0 <= i < j < u.len() implies text_lt(#[trigger] u[i].0, #[trigger] u[j].0) by {
            assert(u[j] == ur[j - 1]);
            if i > 0 {
                assert(u[i] == ur[i - 1]);
            }
        }
    }
}

/// Binding a name above every name present appends its entry.
pub proof fn lemma_upsert_last(s: Seq<(Seq<char>, ScopeModel)>, name: Seq<char>, v: ScopeModel)
    requires
        forall|j: int| 0 <= j < s.len() ==> text_lt(#[trigger] s[j].0, name),
    ensures
        upsert(s, name, v) == s.push((name, v)),
    decreases s.len(),
{
    if s.len() == 0 {
        assert(upsert(s, name, v) =~= s.push((name, v)));
    } else {
        lemma_text_lt_irrefl(name);
        assert(text_lt(s[0].0, name));
        assert(s[0].0 != name);
        if text_lt(name, s[0].0) {
            lemma_text_lt_trans(name, s[0].0, name);
        }
        let rest = s.drop_first();
        assert forall|j: int| 0 <= j < rest.len() implies text_lt(#[trigger] rest[j].0, name) by {
            assert(rest[j] == s[j + 1]);
        }
        lemma_upsert_last(rest, name, v);
        assert(upsert(s, name, v) =~= s.push((name, v)));
    }
}

/// Where the entry for `name` goes: `pos` is the first index whose name is
/// not below `name`.
proof fn lemma_upsert_at(s: Seq<(Seq<char>, ScopeModel)>, name: Seq<char>, v: ScopeModel, pos: int)
    requires
        0 <= pos <= s.len(),
        forall|j: int| 0 <= j < pos ==> text_lt(#[trigger] s[j].0, name),
        pos < s.len() ==> !text_lt(s[pos].0, name),
    ensures
        upsert(s, name, v) == (if pos < s.len() && s[pos].0 == name {
            s.update(pos, (name, v))
        } else {
            s.insert(pos, (name, v))
        }),
    decreases pos,
{
    if pos == 0 {
        if s.len() == 0 {
            assert(upsert(s, name, v) =~= s.insert(0, (name, v)));
        } else if s[0].0 != name {
            if !text_lt(name, s[0].0) {
                lemma_text_lt_total(name, s[0].0);
            }
            assert(upsert(s, name, v) =~= s.insert(0, (name, v)));
        }
    } else {
        lemma_text_lt_irrefl(name);
        assert(text_lt(s[0].0, name));
        if text_lt(name, s[0].0) {
            lemma_text_lt_trans(name, s[0].0, name);
        }
        let rest = s.drop_first();
        assert forall|j: int| 0 <= j < pos - 1 implies text_lt(#[trigger] rest[j].0, name) by {
            assert(rest[j] == s[j + 1]);
        }
        lemma_upsert_at(rest, name, v, pos - 1);
        if pos < s.len() && s[pos].0 == name {
            assert(upsert(s, name, v) =~= s.update(pos, (name, v)));
        } else {
            assert(upsert(s, name, v) =~= s.insert(pos, (name, v)));
        }
    }
}

/// Accepted scope parameters per capability name.
#[derive(Debug)]
pub struct ParamsMap {
    entries: Vec<(String, ScopeParams)>,
}

impl ParamsMap {
    /// The entries, in their order: (capability name, scope parameters).
    pub closed spec fn model(&self) -> Seq<(Seq<char>, ScopeModel)> {
        self.entries@.map_values(|e: (String, ScopeParams)| (e.0@, e.1.model()))
    }

    /// Names are sorted and unique; every map that this library builds is.
    pub open spec fn wf(&self) -> bool {
        names_increasing(self.model())
    }

    /// The empty map.
    pub fn new() -> (r: Self)
        ensures
            r.model() == Seq::<(Seq<char>, ScopeModel)>::empty(),
            r.wf(),
    {
        let r = ParamsMap { entries: Vec::new() };
        assert(r.model() =~= Seq::<(Seq<char>, ScopeModel)>::empty());
        r
    }

    /// The number of capabilities with parameters.
    pub fn len(&self) -> (r: usize)
        ensures
            r == self.model().len(),
    {
        self.entries.len()
    }

    /// The entries in name order.
    pub fn entries(&self) -> (r: &Vec<(String, ScopeParams)>)
        ensures
            r@.map_values(|e: (String, ScopeParams)| (e.0@, e.1.model())) == self.model(),
    {
        &self.entries
    }

    /// The first index whose name is not below `name`.
    fn position(&self, name: &str) -> (pos: usize)
        ensures
            pos <= self.model().len(),
            forall|j: int| 0 <= j < pos ==> text_lt(#[trigger] self.model()[j].0, name@),
            pos < self.model().len() ==> !text_lt(self.model()[pos as int].0, name@),
    {
        let mut i: usize = 0;
        while i < self.entries.len()
            invariant
                i <= self.entries.len(),
                forall|j: int| 0 <= j < i ==> text_lt(#[trigger] self.model()[j].0, name@),
            decreases self.entries.len() - i,
        {
            if !text_less(self.entries[i].0.as_str(), name) {
                return i;
            }
            i = i + 1;
        }
        i
    }

    /// Bind `name` to `params`, replacing its parameters if it has some.
    pub fn insert(&mut self, name: String, params: ScopeParams)
        ensures
            final(self).model() == upsert(old(self).model(), name@, params.model()),
            old(self).wf() ==> final(self).wf(),
    {
        let ghost before = self.model();
        let ghost entry = (name@, params.model());
        let pos = self.position(name.as_str());
        proof {
            lemma_upsert_at(before, name@, params.model(), pos as int);
            if names_increasing(before) {
                lemma_upsert_increasing(before, name@, params.model());
            }
        }
        if pos < self.entries.len() && text_eq(self.entries[pos].0.as_str(), name.as_str()) {
            self.entries.remove(pos);
            self.entries.insert(pos, (name, params));
            assert(self.model() =~= before.update(pos as int, entry));
        } else {
            self.entries.insert(pos, (name, params));
            assert(self.model() =~= before.insert(pos as int, entry));
        }
    }

    /// The parameters bound to `name`, if any.
    pub fn get(&self, name: &str) -> (r: Option<&ScopeParams>)
        ensures
            match r {
                Some(p) => params_get(self.model(), name@) == Some(p.model()),
                None => params_get(self.model(), name@) is None,
            },
    {
        let ghost all = self.model();
        assert(all.subrange(0, all.len() as int) =~= all);
        let mut i: usize = 0;
        while i < self.entries.len()
            invariant
                i <= self.entries.len(),
                all == self.model(),
                params_get(all, name@) == params_get(all.subrange(i as int, all.len() as int), name@),
            decreases self.entries.len() - i,
        {
            let ghost rest = all.subrange(i as int, all.len() as int);
            assert(rest.drop_first() =~= all.subrange(i + 1, all.len() as int));
            if text_eq(self.entries[i].0.as_str(), name) {
                return Some(&self.entries[i].1);
            }
            i = i + 1;
        }
        None
    }
}

impl Clone for ParamsMap {
    fn clone(&self) -> (r: Self)
        ensures
            r.model() == self.model(),
    {
        let mut entries: Vec<(String, ScopeParams)> = Vec::new();
        let mut i: usize = 0;
        while i < self.entries.len()
            invariant
                i <= self.entries.len(),
                entries@.len() == i,
                forall|j: int| 0 <= j < i ==> (#[trigger] entries@[j]).0@ == self.entries@[j].0@
                    && entries@[j].1.model() == self.entries@[j].1.model(),
            decreases self.entries.len() - i,
        {
            let name = self.entries[i].0.clone();
            let params = self.entries[i].1.clone();
            entries.push((name, params));
            i = i + 1;
        }
        let r = ParamsMap { entries };
        assert(r.model() =~= self.model());
        r
    }
}

} // verus!
