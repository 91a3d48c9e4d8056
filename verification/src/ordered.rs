//! Ordered sets of vertex indices, as std keeps them.

use crate::index_set::increasing;
use crate::index_set::lemma_sorted_indices;
use crate::index_set::sorted_indices;
use std::collections::BTreeSet;
use vstd::prelude::*;
use vstd::std_specs::btree::increasing_seq;
use vstd::std_specs::btree::spec_btree_keys_iter;
use vstd::std_specs::cmp::OrdSpec;
use vstd::std_specs::iter::IteratorSpec;

verus! {

/// The indices of a set, in the order in which the set hands them out:
/// increasing.
pub fn indices_of(s: &BTreeSet<usize>) -> (r: Vec<usize>)
    ensures
        r@ == sorted_indices(s@),
        increasing(r@),
        r@.to_set() == s@,
{
    let mut r: Vec<usize> = Vec::new();
    let ghost all = spec_btree_keys_iter(s).remaining();
    for x in it: s.iter()
        invariant
            it.seq() == all,
            all == spec_btree_keys_iter(s).remaining(),
            r@.len() == it.index(),
            forall|k: int| 0 <= k < r@.len() ==> r@[k] == *all[k],
    {
        r.push(*x);
    }
    proof {
        assert(vstd::laws_cmp::obeys_cmp::<usize>());
        assert(vstd::laws_cmp::obeys_cmp::<&usize>());
        assert(increasing_seq(all));
        assert(all.unref().to_set() == s@);
        assert(r@ =~= all.unref());
        assert forall|i: int, j: int| 0 <= i < j < r@.len() implies r@[i] < r@[j] by {
            assert((&all[i]).cmp_spec(&all[j]) is Less);
            assert(r@[i] == *all[i] && r@[j] == *all[j]);
        }
        lemma_sorted_indices(r@);
    }
    r
}

} // verus!
