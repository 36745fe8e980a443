use vstd::prelude::*;

use crate::strings::{lemma_text_le_total, lemma_text_le_trans, text_le, text_lt};

verus! {

/// Inserts `x` into `s` after every element whose key does not sort after `x`'s
/// (one step of a stable insertion sort).
pub open spec fn insert_by_key<T>(s: Seq<T>, x: T, key: spec_fn(T) -> Seq<char>) -> Seq<T>
    decreases s.len(),
{
    if s.len() == 0 {
        seq![x]
    } else if !text_lt(key(x), key(s.last())) {
        s.push(x)
    } else {
        insert_by_key(s.drop_last(), x, key).push(s.last())
    }
}

/// Stable sort of `s` by key (the order of `slice::sort_by` on the key's bytes).
pub open spec fn sort_by_key<T>(s: Seq<T>, key: spec_fn(T) -> Seq<char>) -> Seq<T>
    decreases s.len(),
{
    if s.len() == 0 {
        Seq::empty()
    } else {
        insert_by_key(sort_by_key(s.drop_last(), key), s.last(), key)
    }
}

/// Every element's key sorts no later than the next ones'.
pub open spec fn sorted_by_key<T>(s: Seq<T>, key: spec_fn(T) -> Seq<char>) -> bool {
    forall|i: int, j: int| 0 <= i < j < s.len() ==> text_le(key(s[i]), key(s[j]))
}

/// Inserting at position `j` is the insertion step when `x` sorts before
/// everything from `j` on and not before the element just in front of `j`.
pub proof fn lemma_insert_position<T>(s: Seq<T>, x: T, key: spec_fn(T) -> Seq<char>, j: int)
    requires
        0 <= j <= s.len(),
        forall|k: int| j <= k < s.len() ==> text_lt(key(x), #[trigger] key(s[k])),
        j > 0 ==> !text_lt(key(x), key(s[j - 1])),
    ensures
        insert_by_key(s, x, key) == s.insert(j, x),
    decreases s.len(),
{
    if s.len() == 0 {
        assert(s.insert(j, x) =~= seq![x]);
    } else if j == s.len() {
        assert(s.insert(j, x) =~= s.push(x));
    } else {
        assert(text_lt(key(x), key(s[s.len() - 1])));
        let t = s.drop_last();
        assert forall|k: int| j <= k < t.len() implies text_lt(key(x), #[trigger] key(t[k])) by {
            assert(t[k] == s[k]);
        }
        if j > 0 {
            assert(t[j - 1] == s[j - 1]);
        }
        lemma_insert_position(t, x, key, j);
        assert(t.insert(j, x).push(s.last()) =~= s.insert(j, x));
    }
}

/// The insertion step keeps a sorted sequence sorted and adds exactly `x`.
pub proof fn lemma_insert_sorted<T>(s: Seq<T>, x: T, key: spec_fn(T) -> Seq<char>)
    requires
        sorted_by_key(s, key),
    ensures
        sorted_by_key(insert_by_key(s, x, key), key),
        insert_by_key(s, x, key).to_multiset() == s.to_multiset().insert(x),
        insert_by_key(s, x, key).len() == s.len() + 1,
    decreases s.len(),
{
    broadcast use vstd::seq_lib::group_to_multiset_ensures;
    if s.len() == 0 {
        assert(seq![x] =~= Seq::<T>::empty().push(x));
    } else if !text_lt(key(x), key(s.last())) {
        let r = s.push(x);
        assert forall|i: int, j: int| 0 <= i < j < r.len() implies text_le(key(r[i]), key(r[j])) by {
            if j == s.len() {
                if i < s.len() - 1 {
                    lemma_text_le_trans(key(s[i]), key(s.last()), key(x));
                }
            }
        }
    } else {
        let t = s.drop_last();
        assert(sorted_by_key(t, key));
        lemma_insert_sorted(t, x, key);
        let u = insert_by_key(t, x, key);
        let r = u.push(s.last());
        assert(t.push(s.last()) =~= s);
        assert forall|i: int, j: int| 0 <= i < j < r.len() implies text_le(key(r[i]), key(r[j])) by {
            if j == u.len() {
                // every element of u is either x or an element of t
                assert(u.to_multiset().count(u[i]) > 0);
                if u[i] == x {
                    lemma_text_le_total(key(x), key(s.last()));
                } else {
                    assert(t.to_multiset().count(u[i]) > 0);
                    assert(t.contains(u[i]));
                    let k = choose|k: int| 0 <= k < t.len() && t[k] == u[i];
                    assert(s[k] == t[k]);
                }
            }
        }
    }
}

/// The stable sort by key yields a sorted permutation of its input.
pub proof fn lemma_sort_by_key<T>(s: Seq<T>, key: spec_fn(T) -> Seq<char>)
    ensures
        sorted_by_key(sort_by_key(s, key), key),
        sort_by_key(s, key).to_multiset() == s.to_multiset(),
        sort_by_key(s, key).len() == s.len(),
    decreases s.len(),
{
    broadcast use vstd::seq_lib::group_to_multiset_ensures;
    if s.len() > 0 {
        lemma_sort_by_key(s.drop_last(), key);
        lemma_insert_sorted(sort_by_key(s.drop_last(), key), s.last(), key);
        assert(s.drop_last().push(s.last()) =~= s);
    }
}

} // verus!
