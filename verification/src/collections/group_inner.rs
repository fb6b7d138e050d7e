//! A group of children that grows by resizing to a given capacity.

use vstd::prelude::*;

use crate::collections::inner_group::InnerGroup;
use crate::collections::slab_store::slab_slot_limit;
use crate::utils::PollState;

verus! {

/// The factor by which a full group grows.
pub const GROUP_GROWTH_FACTOR: usize = 2;

/// A key used to index into the `FutureGroup` type.
#[derive(Debug, Clone, Copy, PartialEq, Eq, PartialOrd, Ord, Hash, Structural)]
pub struct Key(pub usize);

/// A group of children of type `A`, each under a key, that grows by resizing.
pub struct GroupInner<A> {
    group: InnerGroup<A>,
}

impl<A> View for GroupInner<A> {
    type V = Map<usize, A>;

    /// The children, by key.
    closed spec fn view(&self) -> Map<usize, A> {
        self.group@
    }
}

impl<A> GroupInner<A> {
    pub closed spec fn wf(&self) -> bool {
        self.group.wf()
    }

    /// The number of keys the group has room for.
    pub closed spec fn cap(&self) -> nat {
        self.group.cap()
    }

    /// The poll state of every key below the capacity.
    pub closed spec fn states(&self) -> Seq<PollState> {
        self.group.states()
    }

    /// Whether the child at every key below the capacity has been woken.
    pub closed spec fn ready(&self) -> Seq<bool> {
        self.group.ready()
    }

    pub proof fn lemma_keys_below_capacity(&self)
        requires
            self.wf(),
        ensures
            self@.dom().finite(),
            forall|k: usize| #[trigger] self@.contains_key(k) ==> k < self.cap() && self.states()[k as int] == PollState::Pending,
            self@.len() <= self.cap(),
            self.states().len() == self.cap(),
            self.ready().len() == self.cap(),
    {
        self.group.lemma_keys_below_capacity();
    }

    pub fn with_capacity(cap: usize) -> (g: Self)
        requires
            cap <= slab_slot_limit(),
        ensures
            g.wf(),
            g@ == Map::<usize, A>::empty(),
            g.cap() == cap,
    {
        GroupInner { group: InnerGroup::with_capacity(cap) }
    }

    pub fn len(&self) -> (n: usize)
        requires
            self.wf(),
        ensures
            n == self@.len(),
    {
        self.group.len()
    }

    pub fn capacity(&self) -> (n: usize)
        ensures
            n == self.cap(),
    {
        self.group.capacity()
    }

    pub fn has_capacity(&self) -> (b: bool)
        requires
            self.wf(),
        ensures
            b == (self@.len() < self.cap()),
    {
        self.group.has_capacity()
    }

    pub fn is_empty(&self) -> (b: bool)
        requires
            self.wf(),
        ensures
            b == (self@.len() == 0),
    {
        self.group.is_empty()
    }

    /// Insert a child under a fresh key; a full group is first resized to
    /// `(capacity + 1) * GROUP_GROWTH_FACTOR`.
    pub fn insert(&mut self, item: A) -> (key: Key)
        requires
            old(self).wf(),
            old(self)@.len() < old(self).cap() || old(self).cap() * 3 + 2 <= slab_slot_limit(),
        ensures
            final(self).wf(),
            !old(self)@.contains_key(key.0),
            final(self)@ == old(self)@.insert(key.0, item),
            final(self).cap() == if old(self)@.len() < old(self).cap() {
                old(self).cap()
            } else {
                (old(self).cap() + 1) * 2
            },
            key.0 < final(self).cap(),
            final(self).states()[key.0 as int] == PollState::Pending,
            final(self).ready()[key.0 as int],
    {
        proof {
            self.group.lemma_keys_below_capacity();
        }
        if !self.has_capacity() {
            self.resize((self.group.capacity() + 1) * GROUP_GROWTH_FACTOR);
        }
        proof {
            self.group.lemma_keys_below_capacity();
        }
        let k = self.group.insert(item);
        proof {
            self.group.lemma_keys_below_capacity();
            assert(self@.contains_key(k.0));
        }
        Key(k.0)
    }

    /// Remove the child under `key`, if any.
    pub fn remove(&mut self, key: Key) -> (r: Option<A>)
        requires
            old(self).wf(),
        ensures
            final(self).wf(),
            r == if old(self)@.contains_key(key.0) {
                Some(old(self)@[key.0])
            } else {
                None
            },
            final(self)@ == old(self)@.remove(key.0),
            final(self).cap() == old(self).cap(),
            final(self).ready() == old(self).ready(),
    {
        self.group.remove(crate::collections::inner_group::Key(key.0))
    }

    /// Resize to capacity `cap`, like `reserve`: nothing changes when the
    /// length plus `cap` still fits in the current capacity, and the capacity
    /// never drops.
    pub fn resize(&mut self, cap: usize)
        requires
            old(self).wf(),
            old(self)@.len() + cap <= old(self).cap() || cap <= old(self).cap() || old(self).cap() + cap <= slab_slot_limit(),
        ensures
            final(self).wf(),
            final(self)@ == old(self)@,
            final(self).cap() == if old(self)@.len() + cap <= old(self).cap() || cap <= old(self).cap() {
                old(self).cap()
            } else {
                cap as nat
            },
            final(self).cap() >= old(self).cap(),
    {
        proof {
            self.group.lemma_keys_below_capacity();
        }
        if cap <= self.group.capacity() || self.group.len() + cap <= self.group.capacity() {
            return;
        }
        self.group.grow_to(cap);
    }

    /// Whether any child has been woken.
    pub fn any_ready(&self) -> (b: bool)
        requires
            self.wf(),
        ensures
            b == exists|i: int| 0 <= i < self.cap() && self.ready()[i],
    {
        let b = self.group.any_ready();
        proof {
            if b {
                let w = choose|i: int| 0 <= i < self.group.cap() && self.group.ready()[i];
                assert(0 <= w < self.cap() && self.ready()[w]);
            }
        }
        b
    }

    /// Whether the child under `index` is pending and has been woken; if so its
    /// readiness is cleared.
    pub fn can_progress_index(&mut self, index: usize) -> (b: bool)
        requires
            old(self).wf(),
            index < old(self).cap(),
        ensures
            final(self).wf(),
            final(self)@ == old(self)@,
            final(self).cap() == old(self).cap(),
            final(self).states() == old(self).states(),
            b == (old(self).states()[index as int] == PollState::Pending && old(self).ready()[index as int]),
            final(self).ready() == if b {
                old(self).ready().update(index as int, false)
            } else {
                old(self).ready()
            },
    {
        self.group.can_progress_index(index)
    }

    // move to other impl block
    pub fn contains_key(&self, key: Key) -> (b: bool)
        ensures
            b == self@.contains_key(key.0),
    {
        self.group.contains_key(crate::collections::inner_group::Key(key.0))
    }
}

} // verus!
