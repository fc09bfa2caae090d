//! How `BTreeSet` orders the `(priority, data)` pairs of a priority set.

use vstd::prelude::*;
use vstd::std_specs::cmp::OrdSpec;

verus! {

/// Pair `a` comes strictly before pair `b` in lexicographic order.
pub open spec fn pair_lt(a: (u64, u64), b: (u64, u64)) -> bool {
    a.0 < b.0 || (a.0 == b.0 && a.1 < b.1)
}

/// Pairs of `u64` obey the total order that `BTreeSet` relies on, and that order is
/// the lexicographic one.
pub proof fn lemma_pair_order()
    ensures
        vstd::laws_cmp::obeys_cmp::<(u64, u64)>(),
        vstd::laws_cmp::obeys_cmp::<&(u64, u64)>(),
        vstd::std_specs::btree::key_obeys_cmp_spec::<(u64, u64)>(),
        forall|a: (u64, u64), b: (u64, u64)| (#[trigger] a.cmp_spec(&b) is Less) <==> pair_lt(a, b),
{
    broadcast use vstd::laws_cmp::group_laws_cmp;
    broadcast use vstd::std_specs::btree::group_btree_axioms;
}

/// A sequence of pairs that a `BTreeSet` iterator yields in increasing order is
/// strictly increasing in lexicographic order.
pub proof fn lemma_increasing_pairs(q: Seq<&(u64, u64)>)
    requires
        vstd::std_specs::btree::increasing_seq(q),
    ensures
        forall|i: int, j: int| 0 <= i < j < q.len() ==> pair_lt(*q[i], *q[j]),
{
    lemma_pair_order();
    vstd::std_specs::btree::axiom_increasing_seq_meaning::<&(u64, u64)>(q);
    assert forall|i: int, j: int| 0 <= i < j < q.len() implies pair_lt(*q[i], *q[j]) by {
        assert(OrdSpec::cmp_spec(&q[i], &q[j]) is Less);
        assert((*q[i]).cmp_spec(&*q[j]) is Less);
    }
}

} // verus!
