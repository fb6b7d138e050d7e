//! The small queue of keys whose children finished during one poll of a group,
//! removed from the group once the poll is over.

use vstd::prelude::*;
use smallvec::SmallVec;

use crate::collections::slab_store::slab_slot_limit;

verus! {

/// A `smallvec::SmallVec` of keys. Verus cannot be told of `SmallVec` itself
/// (its parameter is bound by the crate's `Array` trait), so it is held here,
/// opaque, behind the functions below.
#[verifier::external_body]
pub struct RemovalQueue {
    keys: SmallVec<[usize; 10]>,
}

/// The keys held by a removal queue, in the order in which they were pushed.
pub uninterp spec fn queue_items(q: RemovalQueue) -> Seq<usize>;

/// `SmallVec::new`: an empty queue.
#[verifier::external_body]
pub(crate) fn queue_new() -> (q: RemovalQueue)
    ensures
        queue_items(q) == Seq::<usize>::empty(),
{
    RemovalQueue { keys: SmallVec::new() }
}

/// `SmallVec::push`: append one key.
#[verifier::external_body]
pub(crate) fn queue_push(q: &mut RemovalQueue, key: usize)
    requires
        queue_items(*old(q)).len() < slab_slot_limit(),
    ensures
        queue_items(*final(q)) == queue_items(*old(q)).push(key),
{
    q.keys.push(key)
}

/// `SmallVec::len`: the number of keys queued.
#[verifier::external_body]
pub(crate) fn queue_len(q: &RemovalQueue) -> (n: usize)
    ensures
        n == queue_items(*q).len(),
{
    q.keys.len()
}

/// `SmallVec` indexing: the key at position `i`.
#[verifier::external_body]
pub(crate) fn queue_get(q: &RemovalQueue, i: usize) -> (key: usize)
    requires
        i < queue_items(*q).len(),
    ensures
        key == queue_items(*q)[i as int],
{
    q.keys[i]
}

} // verus!
