//! Storage of children under keys handed out by a `slab::Slab`.
//!
//! The slab decides which key a new child gets (it reuses the most recently
//! vacated key, else appends a new slot); the children themselves are kept in
//! a vector indexed by those keys, so that the bookkeeping around them can be
//! stated and proved.

use vstd::prelude::*;
use slab::Slab;

verus! {

/// `slab::Slab`, known to Verus as an opaque type.
#[verifier::external_type_specification]
#[verifier::external_body]
#[verifier::reject_recursive_types(T)]
pub struct ExSlab<T>(Slab<T>);

/// The keys that a slab currently holds a value for.
pub uninterp spec fn slab_keys(s: Slab<()>) -> Set<usize>;

/// The number of slots of a slab, occupied or vacant: the length of its entry
/// vector, which only grows, by one, when an insertion finds no vacant slot.
pub uninterp spec fn slab_slots(s: Slab<()>) -> nat;

/// What holds of every slab: its keys are finitely many slots below
/// `slab_slots`.
pub open spec fn slab_shape(s: Slab<()>) -> bool {
    &&& slab_keys(s).finite()
    &&& forall|k: usize| #[trigger] slab_keys(s).contains(k) ==> k < slab_slots(s)
}

/// Below this many slots no growth of a slab can panic for want of address
/// space: an entry of a `Slab<()>` takes at most 16 bytes.
pub open spec fn slab_slot_limit() -> int {
    isize::MAX / 16
}

/// `Slab::with_capacity`: a slab with no key and no slot.
#[verifier::external_body]
fn slab_with_capacity(capacity: usize) -> (s: Slab<()>)
    requires
        capacity <= slab_slot_limit(),
    ensures
        slab_shape(s),
        slab_keys(s) == Set::<usize>::empty(),
        slab_slots(s) == 0,
{
    Slab::with_capacity(capacity)
}

/// `Slab::insert`: the key returned is the slot reused, which was vacant, or
/// the new slot appended when none was vacant.
#[verifier::external_body]
fn slab_insert(s: &mut Slab<()>) -> (key: usize)
    requires
        slab_shape(*old(s)),
        slab_keys(*old(s)).len() < slab_slots(*old(s)) || slab_slots(*old(s)) < slab_slot_limit(),
    ensures
        slab_shape(*final(s)),
        !slab_keys(*old(s)).contains(key),
        slab_keys(*final(s)) == slab_keys(*old(s)).insert(key),
        key <= slab_slots(*old(s)),
        (key == slab_slots(*old(s))) == (slab_keys(*old(s)).len() == slab_slots(*old(s))),
        slab_slots(*final(s)) == if key == slab_slots(*old(s)) {
            slab_slots(*old(s)) + 1
        } else {
            slab_slots(*old(s))
        },
{
    s.insert(())
}

/// `Slab::remove`: the key is released; the slot stays, vacant.
#[verifier::external_body]
fn slab_remove(s: &mut Slab<()>, key: usize)
    requires
        slab_shape(*old(s)),
        slab_keys(*old(s)).contains(key),
    ensures
        slab_shape(*final(s)),
        slab_keys(*final(s)) == slab_keys(*old(s)).remove(key),
        slab_slots(*final(s)) == slab_slots(*old(s)),
{
    s.remove(key)
}

/// `Slab::contains`: whether the key holds a value.
#[verifier::external_body]
fn slab_contains(s: &Slab<()>, key: usize) -> (b: bool)
    ensures
        b == slab_keys(*s).contains(key),
{
    s.contains(key)
}

/// `Slab::len`: the number of keys held.
#[verifier::external_body]
fn slab_len(s: &Slab<()>) -> (n: usize)
    requires
        slab_shape(*s),
    ensures
        n == slab_keys(*s).len(),
{
    s.len()
}

/// `Slab::is_empty`: whether no key is held.
#[verifier::external_body]
fn slab_is_empty(s: &Slab<()>) -> (b: bool)
    requires
        slab_shape(*s),
    ensures
        b == (slab_keys(*s).len() == 0),
{
    s.is_empty()
}

/// `Slab::reserve_exact`: only memory changes, no key and no slot.
#[verifier::external_body]
fn slab_reserve_exact(s: &mut Slab<()>, additional: usize)
    requires
        slab_slots(*old(s)) + additional <= slab_slot_limit(),
    ensures
        slab_keys(*final(s)) == slab_keys(*old(s)),
        slab_slots(*final(s)) == slab_slots(*old(s)),
{
    s.reserve_exact(additional)
}

/// A finite set of keys all below `n` has at most `n` of them.
pub proof fn lemma_bounded_keys(s: Set<usize>, n: nat)
    requires
        s.finite(),
        forall|k: usize| #[trigger] s.contains(k) ==> k < n,
    ensures
        s.len() <= n,
    decreases n,
{
    if n == 0 {
        assert(s =~= Set::<usize>::empty());
    } else if n - 1 > usize::MAX {
        lemma_bounded_keys(s, (n - 1) as nat);
    } else {
        let top = (n - 1) as usize;
        let t = s.remove(top);
        lemma_bounded_keys(t, (n - 1) as nat);
    }
}

/// Children of type `A` stored under the keys of a slab.
pub struct SlabStore<A> {
    slab: Slab<()>,
    values: Vec<Option<A>>,
}

impl<A> View for SlabStore<A> {
    type V = Map<usize, A>;

    closed spec fn view(&self) -> Map<usize, A> {
        Map::new(|k: usize| slab_keys(self.slab).contains(k), |k: usize| self.values@[k as int]->Some_0)
    }
}

impl<A> SlabStore<A> {
    pub closed spec fn wf(&self) -> bool {
        &&& slab_shape(self.slab)
        &&& self.values@.len() == slab_slots(self.slab)
        &&& forall|k: usize| k < self.values@.len() ==> (#[trigger] self.values@[k as int] is Some <==> slab_keys(self.slab).contains(k))
    }

    /// The number of slots: every key is below it.
    pub closed spec fn slots(&self) -> nat {
        slab_slots(self.slab)
    }

    pub proof fn lemma_wf(&self)
        requires
            self.wf(),
        ensures
            self@.dom().finite(),
            forall|k: usize| #[trigger] self@.contains_key(k) ==> k < self.slots(),
            self@.len() <= self.slots(),
    {
        assert(self@.dom() =~= slab_keys(self.slab));
        lemma_bounded_keys(self@.dom(), self.slots());
    }

    pub fn with_capacity(capacity: usize) -> (s: Self)
        requires
            capacity <= slab_slot_limit(),
        ensures
            s.wf(),
            s@ == Map::<usize, A>::empty(),
            s.slots() == 0,
    {
        let s = SlabStore { slab: slab_with_capacity(capacity), values: Vec::new() };
        proof {
            assert(s@ =~= Map::<usize, A>::empty());
        }
        s
    }

    /// The number of values stored.
    pub fn len(&self) -> (n: usize)
        requires
            self.wf(),
        ensures
            n == self@.len(),
    {
        proof {
            assert(self@.dom() =~= slab_keys(self.slab));
        }
        slab_len(&self.slab)
    }

    /// Whether no value is stored.
    pub fn is_empty(&self) -> (b: bool)
        requires
            self.wf(),
        ensures
            b == (self@.len() == 0),
    {
        proof {
            assert(self@.dom() =~= slab_keys(self.slab));
        }
        slab_is_empty(&self.slab)
    }

    /// Store `value` under a fresh key.
    pub fn insert(&mut self, value: A) -> (key: usize)
        requires
            old(self).wf(),
            old(self)@.len() < old(self).slots() || old(self).slots() < slab_slot_limit(),
        ensures
            final(self).wf(),
            !old(self)@.contains_key(key),
            final(self)@ == old(self)@.insert(key, value),
            key <= old(self).slots(),
            (key == old(self).slots()) == (old(self)@.len() == old(self).slots()),
            final(self).slots() == if key == old(self).slots() {
                old(self).slots() + 1
            } else {
                old(self).slots()
            },
    {
        let ghost old_view = self@;
        proof {
            assert(old_view.dom() =~= slab_keys(self.slab));
        }
        let key = slab_insert(&mut self.slab);
        if key == self.values.len() {
            self.values.push(Some(value));
        } else {
            self.values.set(key, Some(value));
        }
        proof {
            assert(self@.dom() =~= old_view.insert(key, value).dom());
            assert(self@ =~= old_view.insert(key, value));
        }
        key
    }

    /// Remove the value stored under `key`, if any.
    pub fn remove(&mut self, key: usize) -> (r: Option<A>)
        requires
            old(self).wf(),
        ensures
            final(self).wf(),
            r == if old(self)@.contains_key(key) {
                Some(old(self)@[key])
            } else {
                None
            },
            final(self)@ == old(self)@.remove(key),
            final(self).slots() == old(self).slots(),
    {
        if !slab_contains(&self.slab, key) {
            proof {
                assert(self@ =~= self@.remove(key));
            }
            return None;
        }
        let ghost old_view = self@;
        slab_remove(&mut self.slab, key);
        let mut taken: Option<A> = None;
        std::mem::swap(&mut taken, &mut self.values[key]);
        proof {
            assert(self@ =~= old_view.remove(key));
        }
        taken
    }

    /// Whether a value is stored under `key`.
    pub fn contains_key(&self, key: usize) -> (b: bool)
        ensures
            b == self@.contains_key(key),
    {
        slab_contains(&self.slab, key)
    }

    /// Mutable access to the value stored under `key`, if any.
    pub fn get_mut(&mut self, key: usize) -> (r: Option<&mut A>)
        requires
            old(self).wf(),
        ensures
            final(self).wf(),
            final(self).slots() == old(self).slots(),
            final(self)@.dom() == old(self)@.dom(),
            old(self)@.contains_key(key) ==> r is Some && *r->0 == old(self)@[key]
                && final(self)@ == old(self)@.insert(key, *final(r->0)),
            !old(self)@.contains_key(key) ==> r is None && final(self)@ == old(self)@,
    {
        if key < self.values.len() {
            self.values[key].as_mut()
        } else {
            proof {
                self.lemma_wf();
            }
            None
        }
    }

    /// The keys that hold a value, in increasing order: the order of the slots.
    pub fn keys_in_order(&self) -> (order: Vec<usize>)
        requires
            self.wf(),
        ensures
            order@.to_set() == self@.dom(),
            order@.no_duplicates(),
            forall|i: int, j: int| 0 <= i < j < order@.len() ==> order@[i] < order@[j],
    {
        let mut order: Vec<usize> = Vec::new();
        let mut k: usize = 0;
        while k < self.values.len()
            invariant
                self.wf(),
                k <= self.values@.len(),
                forall|i: int| 0 <= i < order@.len() ==> #[trigger] order@[i] < k,
                forall|i: int, j: int| 0 <= i < j < order@.len() ==> order@[i] < order@[j],
                forall|x: usize| #[trigger] order@.contains(x) <==> (x < k && self@.contains_key(x)),
            decreases self.values@.len() - k,
        {
            if self.values[k].is_some() {
                let ghost before = order@;
                order.push(k);
                proof {
                    assert forall|x: usize| #[trigger] order@.contains(x) <==> (x < k + 1 && self@.contains_key(x)) by {
                        if x == k {
                            assert(order@[before.len() as int] == k);
                        } else if before.contains(x) {
                            let i = choose|i: int| 0 <= i < before.len() && before[i] == x;
                            assert(order@[i] == x);
                        } else if order@.contains(x) {
                            let i = choose|i: int| 0 <= i < order@.len() && order@[i] == x;
                            assert(i < before.len());
                            assert(before[i] == x);
                        }
                    }
                }
            } else {
                proof {
                    assert forall|x: usize| #[trigger] order@.contains(x) <==> (x < k + 1 && self@.contains_key(x)) by {
                        if x == k {
                            assert(!self@.contains_key(x));
                        }
                    }
                }
            }
            k = k + 1;
        }
        proof {
            self.lemma_wf();
            assert(order@.to_set() =~= self@.dom());
        }
        order
    }

    /// Reserve memory for `additional` more slots; nothing observable changes.
    /// How much memory the slab then holds is the allocator's to decide and is
    /// left unsaid.
    pub fn reserve_exact(&mut self, additional: usize)
        requires
            old(self).wf(),
            old(self).slots() + additional <= slab_slot_limit(),
        ensures
            final(self).wf(),
            final(self)@ == old(self)@,
            final(self).slots() == old(self).slots(),
    {
        slab_reserve_exact(&mut self.slab, additional);
    }
}

} // verus!
