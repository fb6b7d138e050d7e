//! A dynamic set of futures.

use vstd::prelude::*;

use crate::collections::slab_store::{slab_slot_limit, SlabStore};
use crate::utils::PollNext;

verus! {

/// A dynamic set of futures.
///
/// Polling the set polls its futures in the order of their keys; the first one
/// to complete leaves the set and its output is yielded.
pub struct FutureSet<Fut> {
    futures: SlabStore<Fut>,
}

impl<Fut> View for FutureSet<Fut> {
    type V = Map<usize, Fut>;

    /// The futures, by key.
    closed spec fn view(&self) -> Map<usize, Fut> {
        self.futures@
    }
}

impl<Fut> FutureSet<Fut> {
    pub closed spec fn wf(&self) -> bool {
        self.futures.wf()
    }

    /// How many slots the keys were drawn from: an insertion is possible while
    /// this is below `slab_slot_limit()`, or while a slot is vacant.
    pub closed spec fn slots(&self) -> nat {
        self.futures.slots()
    }

    /// Create a new instance of `FutureSet`.
    pub fn new() -> (s: Self)
        ensures
            s.wf(),
            s@ == Map::<usize, Fut>::empty(),
            s.slots() == 0,
    {
        Self::with_capacity(0)
    }

    /// Create a new instance of `FutureSet` with a given capacity. The capacity
    /// only decides how much memory is allocated up front, which the allocator
    /// decides and which is left unsaid: the set is empty either way.
    pub fn with_capacity(capacity: usize) -> (s: Self)
        requires
            capacity <= slab_slot_limit(),
        ensures
            s.wf(),
            s@ == Map::<usize, Fut>::empty(),
            s.slots() == 0,
    {
        FutureSet { futures: SlabStore::with_capacity(capacity) }
    }

    /// Return the number of futures currently active in the set.
    pub fn len(&self) -> (n: usize)
        requires
            self.wf(),
        ensures
            n == self@.len(),
    {
        self.futures.len()
    }

    /// Returns true if there are no futures currently active in the set.
    pub fn is_empty(&self) -> (b: bool)
        requires
            self.wf(),
        ensures
            b == (self@.len() == 0),
    {
        self.futures.is_empty()
    }

    /// Insert a new future into the set.
    pub fn insert(&mut self, fut: Fut)
        requires
            old(self).wf(),
            old(self)@.len() < old(self).slots() || old(self).slots() < slab_slot_limit(),
        ensures
            final(self).wf(),
            exists|k: usize| !old(self)@.contains_key(k) && final(self)@ == old(self)@.insert(k, fut),
    {
        let k = self.futures.insert(fut);
        proof {
            assert(!old(self)@.contains_key(k) && self@ == old(self)@.insert(k, fut));
        }
    }

    /// The keys of the futures in the order in which a poll visits them.
    pub fn poll_order(&self) -> (order: Vec<usize>)
        requires
            self.wf(),
        ensures
            order@.to_set() == self@.dom(),
            order@.no_duplicates(),
            forall|i: int, j: int| 0 <= i < j < order@.len() ==> order@[i] < order@[j],
    {
        self.futures.keys_in_order()
    }

    /// The future under `key`, to be polled.
    pub fn future_mut(&mut self, key: usize) -> (r: Option<&mut Fut>)
        requires
            old(self).wf(),
        ensures
            final(self).wf(),
            final(self).slots() == old(self).slots(),
            final(self)@.dom() == old(self)@.dom(),
            old(self)@.contains_key(key) ==> r is Some && *r->0 == old(self)@[key]
                && final(self)@ == old(self)@.insert(key, *final(r->0)),
            !old(self)@.contains_key(key) ==> r is None && final(self)@ == old(self)@,
    {
        self.futures.get_mut(key)
    }

    /// How a poll of the set begins: an empty set yields `Ready(None)` at
    /// once (`Some`); otherwise its futures are polled, in the order of
    /// `poll_order`, and `on_polled` is told what each gave (`None`).
    pub fn poll_start<O>(&self) -> (r: Option<PollNext<O>>)
        requires
            self.wf(),
        ensures
            self@.len() == 0 ==> r == Some(PollNext::<O>::Ready(None)),
            self@.len() != 0 ==> r is None,
    {
        if self.futures.is_empty() {
            Some(PollNext::Ready(None))
        } else {
            None
        }
    }

    /// The future under `key` was polled and gave `polled` (`Some` when it
    /// completed): a completed future leaves the set and the poll yields its
    /// output; otherwise the poll goes on to the next key (`None`).
    pub fn on_polled<O>(&mut self, key: usize, polled: Option<O>) -> (r: Option<PollNext<O>>)
        requires
            old(self).wf(),
            old(self)@.contains_key(key),
        ensures
            final(self).wf(),
            final(self).slots() == old(self).slots(),
            polled matches Some(o) ==> r == Some(PollNext::Ready(Some(o))) && final(self)@ == old(self)@.remove(key),
            polled is None ==> r is None && final(self)@ == old(self)@,
    {
        match polled {
            Some(o) => {
                let _done = self.futures.remove(key);
                Some(PollNext::Ready(Some(o)))
            },
            None => None,
        }
    }

    /// What a poll yields once every future has been polled without one
    /// completing: `Pending`.
    pub fn poll_end<O>(&self) -> (r: PollNext<O>)
        ensures
            r == PollNext::<O>::Pending,
    {
        PollNext::Pending
    }

    /// Remove the future under `key`, once it has completed.
    pub fn remove(&mut self, key: usize) -> (r: Option<Fut>)
        requires
            old(self).wf(),
        ensures
            final(self).wf(),
            r == if old(self)@.contains_key(key) {
                Some(old(self)@[key])
            } else {
                None
            },
            final(self)@ == old(self)@.remove(key),
            final(self).slots() == old(self).slots(),
    {
        self.futures.remove(key)
    }
}

} // verus!
