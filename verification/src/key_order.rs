use vstd::prelude::*;
use vstd::std_specs::cmp::OrdSpec;

verus! {

/// An increasing sequence of `u64` keys (in the sense of the ordered-map
/// specification) is strictly increasing in the integer order.
pub proof fn lemma_increasing_u64(ks: Seq<u64>)
    requires
        vstd::std_specs::btree::increasing_seq(ks),
    ensures
        forall|i: int, j: int| 0 <= i < j < ks.len() ==> ks[i] < ks[j],
{
    broadcast use vstd::laws_cmp::group_laws_cmp;
    assert(vstd::laws_cmp::obeys_cmp::<u64>());
    vstd::std_specs::btree::axiom_increasing_seq_meaning(ks);
    assert forall|i: int, j: int| 0 <= i < j < ks.len() implies ks[i] < ks[j] by {
        assert(ks[i].cmp_spec(&ks[j]) is Less);
    }
}

} // verus!
