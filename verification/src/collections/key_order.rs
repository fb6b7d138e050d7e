//! The keys of a group in increasing order.

use vstd::prelude::*;
use std::collections::BTreeSet;
use vstd::std_specs::iter::IteratorSpec;
use vstd::std_specs::cmp::OrdSpec;

verus! {

/// The keys of `keys`, each once, in increasing order.
pub fn key_order(keys: &BTreeSet<usize>) -> (order: Vec<usize>)
    ensures
        order@.to_set() == keys@,
        order@.no_duplicates(),
        forall|i: int, j: int| 0 <= i < j < order@.len() ==> order@[i] < order@[j],
{
    let ghost r = vstd::std_specs::btree::spec_btree_keys_iter(keys).remaining();
    proof {
        vstd::std_specs::btree::axiom_spec_btree_keys_iter(keys);
    }
    let mut order: Vec<usize> = Vec::new();
    for k in it: keys.iter()
        invariant
            it.seq() == r,
            order@ == r.unref().take(it.index()),
            order@.len() == it.index(),
        ensures
            order@.len() == r.len(),
    {
        order.push(*k);
        proof {
            assert(order@ =~= r.unref().take(it.index() + 1));
        }
    }
    proof {
        assert(order@ =~= r.unref());
        assert(vstd::laws_cmp::obeys_cmp::<usize>());
        assert(vstd::laws_cmp::obeys_cmp::<&usize>());
        assert(vstd::std_specs::btree::increasing_seq(r));
        vstd::std_specs::btree::axiom_increasing_seq_meaning::<&usize>(r);
        assert(forall|i: int, j: int| 0 <= i < j < r.len() ==> OrdSpec::cmp_spec(&r[i], &r[j]) is Less);
        assert forall|i: int, j: int| 0 <= i < j < order@.len() implies order@[i] < order@[j] by {
            assert(OrdSpec::cmp_spec(&r[i], &r[j]) is Less);
            assert(OrdSpec::cmp_spec(r[i], r[j]) is Less);
        }
    }
    order
}

} // verus!
