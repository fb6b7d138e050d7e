//! A growable group of children, each under a key, polled in key order.
//!
//! The group keeps, for every key below its capacity, whether a child lives
//! there (its poll state) and whether the child has been woken (its readiness).
//! Polling the group is a round over its keys in increasing order: the group
//! names the next child that can make progress, the caller polls it and hands
//! back what came of it, and the group decides whether the round goes on.

use vstd::prelude::*;
use std::collections::BTreeSet;
use core::ops::ControlFlow;

use crate::collections::key_order::key_order;
use crate::collections::removal_queue::{queue_get, queue_items, queue_len, queue_new, queue_push, RemovalQueue};
use crate::collections::slab_store::{slab_slot_limit, SlabStore};
use crate::utils::{poll_states, PollNext, PollState, Readiness};

verus! {

/// The capacity a full group grows by.
pub fn grow_group_capacity(cap: usize) -> (r: usize)
    requires
        cap * 2 + 1 <= usize::MAX,
    ensures
        r == cap * 2 + 1,
{
    cap * 2 + 1
}

/// What a prefix of a sequence holds, a longer prefix holds too.
pub proof fn lemma_take_contains_mono(s: Seq<usize>, a: int, b: int, x: usize)
    requires
        0 <= a <= b <= s.len(),
        s.take(a).contains(x),
    ensures
        s.take(b).contains(x),
{
    let t = s.take(a);
    let k = choose|k: int| 0 <= k < t.len() && #[trigger] t[k] == x;
    assert(s.take(b)[k] == x);
}

/// A key used to index into the `FutureGroup` type.
#[derive(Debug, Clone, Copy, PartialEq, Eq, PartialOrd, Ord, Hash, Structural)]
pub struct Key(pub usize);

/// Whether a polled child should be polled again.
#[derive(Debug, Clone, Copy, PartialEq, Eq, Structural)]
pub enum PollAgain {
    /// Keep polling
    Poll,
    /// Stop polling
    Stop,
}

/// How a poll of the group begins.
pub enum PollStart {
    /// The group is empty: the poll yields `Ready(None)`.
    Finished,
    /// No child has been woken: the poll yields `Pending`.
    NothingReady,
    /// A round over the keys begins.
    Begin(PollRound),
}

/// The state of one round of polling over the keys of a group.
pub struct PollRound {
    order: Vec<usize>,
    pos: usize,
    current: Option<usize>,
    done_count: usize,
    group_len: usize,
    removal_queue: RemovalQueue,
}

impl PollRound {
    /// The keys of the round, in increasing order.
    pub closed spec fn order(&self) -> Seq<usize> {
        self.order@
    }

    /// How many keys of `order` the round has passed.
    pub closed spec fn pos(&self) -> nat {
        self.pos as nat
    }

    /// The key handed out by the last `next_index`, not yet reported.
    pub closed spec fn current(&self) -> Option<usize> {
        self.current
    }

    /// The number of children found finished during the round.
    pub closed spec fn done_count(&self) -> nat {
        self.done_count as nat
    }

    /// The length of the group when the round began.
    pub closed spec fn group_len(&self) -> nat {
        self.group_len as nat
    }

    /// The keys of finished children, removed when the round ends.
    pub closed spec fn queued(&self) -> Seq<usize> {
        queue_items(self.removal_queue)
    }
}

/// A group of children of type `A`, each under a key.
pub struct InnerGroup<A> {
    items: SlabStore<A>,
    readiness: Readiness,
    states: Vec<PollState>,
    keys: BTreeSet<usize>,
    cap: usize,
    len: usize,
}

impl<A> View for InnerGroup<A> {
    type V = Map<usize, A>;

    /// The children, by key.
    closed spec fn view(&self) -> Map<usize, A> {
        self.items@
    }
}

impl<A> InnerGroup<A> {
    /// The number of keys the group has room for.
    pub closed spec fn cap(&self) -> nat {
        self.cap as nat
    }

    /// The poll state of every key below the capacity.
    pub closed spec fn states(&self) -> Seq<PollState> {
        self.states@
    }

    /// Whether the child at every key below the capacity has been woken.
    pub closed spec fn ready(&self) -> Seq<bool> {
        self.readiness@
    }

    /// The number of slots the keys have been drawn from: a new key is the
    /// next slot when no slot below this is vacant.
    pub closed spec fn slots(&self) -> nat {
        self.items.slots()
    }

    pub closed spec fn wf(&self) -> bool {
        &&& self.items.wf()
        &&& self.items.slots() <= self.cap
        &&& self.cap <= slab_slot_limit()
        &&& self.states@.len() == self.cap
        &&& self.readiness.wf()
        &&& self.readiness@.len() == self.cap
        &&& self.keys@ == self.items@.dom()
        &&& self.len == self.items@.len()
        &&& forall|k: usize| k < self.cap ==> #[trigger] self.states@[k as int] == if self.items@.contains_key(k) {
            PollState::Pending
        } else {
            PollState::Empty
        }
    }

    /// Every key of a well-formed group lies below its capacity, every child
    /// is pending, and the group never holds more children than its capacity.
    pub proof fn lemma_keys_below_capacity(&self)
        requires
            self.wf(),
        ensures
            self@.dom().finite(),
            forall|k: usize| #[trigger] self@.contains_key(k) ==> k < self.cap() && self.states()[k as int] == PollState::Pending,
            forall|k: usize| k < self.cap() && !self@.contains_key(k) ==> #[trigger] self.states()[k as int] == PollState::Empty,
            self@.len() <= self.cap(),
            self.states().len() == self.cap(),
            self.ready().len() == self.cap(),
            forall|k: usize| #[trigger] self@.contains_key(k) ==> k < self.slots(),
            self@.len() <= self.slots(),
            self.slots() <= self.cap(),
    {
        self.items.lemma_wf();
    }

    /// The capacity of a well-formed group is within what a slab can hold.
    pub proof fn lemma_capacity_limit(&self)
        requires
            self.wf(),
        ensures
            self.cap() <= slab_slot_limit(),
    {
    }

    pub fn with_capacity(cap: usize) -> (g: Self)
        requires
            cap <= slab_slot_limit(),
        ensures
            g.wf(),
            g@ == Map::<usize, A>::empty(),
            g.cap() == cap,
            g.slots() == 0,
            g.states() == Seq::new(cap as nat, |i: int| PollState::Empty),
            g.ready() == Seq::new(cap as nat, |i: int| true),
    {
        let g = InnerGroup {
            items: SlabStore::with_capacity(cap),
            readiness: Readiness::new(cap),
            states: poll_states(PollState::Empty, cap),
            keys: BTreeSet::new(),
            cap,
            len: 0,
        };
        proof {
            assert(g.keys@ =~= g.items@.dom());
        }
        g
    }

    pub fn len(&self) -> (n: usize)
        requires
            self.wf(),
        ensures
            n == self@.len(),
    {
        self.len
    }

    pub fn capacity(&self) -> (n: usize)
        ensures
            n == self.cap(),
    {
        self.cap
    }

    pub fn has_capacity(&self) -> (b: bool)
        requires
            self.wf(),
        ensures
            b == (self@.len() < self.cap()),
    {
        self.len < self.cap
    }

    pub fn is_empty(&self) -> (b: bool)
        requires
            self.wf(),
        ensures
            b == (self@.len() == 0),
    {
        self.len == 0
    }

    /// Insert a child under a fresh key; a full group first grows by
    /// `grow_group_capacity`.
    pub fn insert(&mut self, item: A) -> (key: Key)
        requires
            old(self).wf(),
            old(self)@.len() < old(self).cap() || old(self).cap() * 4 + 1 <= slab_slot_limit(),
        ensures
            final(self).wf(),
            !old(self)@.contains_key(key.0),
            final(self)@ == old(self)@.insert(key.0, item),
            final(self).cap() == if old(self)@.len() < old(self).cap() {
                old(self).cap()
            } else {
                old(self).cap() * 3 + 1
            },
            key.0 < final(self).cap(),
            key.0 <= old(self).slots(),
            (key.0 == old(self).slots()) == (old(self)@.len() == old(self).slots()),
            final(self).slots() == if key.0 == old(self).slots() {
                old(self).slots() + 1
            } else {
                old(self).slots()
            },
            final(self).ready()[key.0 as int],
            forall|k: int| 0 <= k < old(self).cap() && k != key.0 ==> #[trigger] final(self).ready()[k] == old(self).ready()[k],
    {
        proof {
            self.items.lemma_wf();
        }
        if !self.has_capacity() {
            let additional = grow_group_capacity(self.cap);
            self.reserve(additional);
        }
        proof {
            self.items.lemma_wf();
        }
        let ghost before = self@;
        let index = self.items.insert(item);
        self.keys.insert(index);
        self.states.set(index, PollState::Pending);
        self.readiness.set_ready(index);
        self.len = self.len + 1;
        proof {
            assert(self.keys@ =~= self.items@.dom());
            assert(self@.len() == before.len() + 1);
        }
        Key(index)
    }

    /// Remove the child under `key`, if any.
    pub fn remove(&mut self, key: Key) -> (r: Option<A>)
        requires
            old(self).wf(),
        ensures
            final(self).wf(),
            r == if old(self)@.contains_key(key.0) {
                Some(old(self)@[key.0])
            } else {
                None
            },
            final(self)@ == old(self)@.remove(key.0),
            final(self).cap() == old(self).cap(),
            final(self).slots() == old(self).slots(),
            final(self).ready() == old(self).ready(),
    {
        proof {
            self.items.lemma_wf();
        }
        let is_present = self.keys.remove(&key.0);
        if !is_present {
            proof {
                assert(self.keys@ =~= self.items@.dom());
            }
            return None;
        }
        self.states.set(key.0, PollState::Empty);
        let item = self.items.remove(key.0);
        self.len = self.len - 1;
        proof {
            assert(self.keys@ =~= self.items@.dom());
        }
        item
    }

    /// Reserve `additional` capacity for new items
    /// Does nothing if the capacity is already sufficient
    pub fn reserve(&mut self, additional: usize)
        requires
            old(self).wf(),
            old(self)@.len() + additional <= old(self).cap() || old(self).cap() * 2 + additional <= slab_slot_limit(),
        ensures
            final(self).wf(),
            final(self)@ == old(self)@,
            final(self).slots() == old(self).slots(),
            final(self).cap() == if old(self)@.len() + additional <= old(self).cap() {
                old(self).cap() as int
            } else {
                old(self).cap() + additional
            },
            final(self).cap() >= old(self)@.len() + additional,
            final(self).states() == old(self).states() + Seq::new((final(self).cap() - old(self).cap()) as nat, |i: int| PollState::Empty),
            final(self).ready() == old(self).ready() + Seq::new((final(self).cap() - old(self).cap()) as nat, |i: int| false),
    {
        proof {
            self.items.lemma_wf();
        }
        if self.len + additional <= self.cap {
            proof {
                assert(self.states@ =~= self.states@ + Seq::new(0, |i: int| PollState::Empty));
                assert(self.readiness@ =~= self.readiness@ + Seq::new(0, |i: int| false));
            }
            return;
        }
        let new_cap = self.cap + additional;
        self.grow_to(new_cap);
    }

    /// Grow the capacity to `new_cap`: the new keys hold no child and are not
    /// ready.
    pub(crate) fn grow_to(&mut self, new_cap: usize)
        requires
            old(self).wf(),
            old(self).cap() <= new_cap,
            old(self).cap() + new_cap <= slab_slot_limit(),
        ensures
            final(self).wf(),
            final(self)@ == old(self)@,
            final(self).cap() == new_cap,
            final(self).slots() == old(self).slots(),
            final(self).states() == old(self).states() + Seq::new((new_cap - old(self).cap()) as nat, |i: int| PollState::Empty),
            final(self).ready() == old(self).ready() + Seq::new((new_cap - old(self).cap()) as nat, |i: int| false),
    {
        proof {
            self.items.lemma_wf();
        }
        self.readiness.grow(new_cap);
        let ghost grown_ready = self.readiness@;
        let ghost old_states = self.states@;
        while self.states.len() < new_cap
            invariant
                self.items.wf(),
                self.items@ == old(self)@,
                self.items.slots() <= old(self).cap(),
                self.items.slots() == old(self).slots(),
                self.cap == old(self).cap(),
                old_states == old(self).states(),
                old(self).wf(),
                self.readiness.wf(),
                self.readiness@ == grown_ready,
                grown_ready == old(self).ready() + Seq::new((new_cap - old(self).cap()) as nat, |i: int| false),
                self.keys@ == self.items@.dom(),
                self.len == old(self)@.len(),
                old_states.len() <= self.states@.len() <= new_cap,
                self.states@ == old_states + Seq::new((self.states@.len() - old_states.len()) as nat, |i: int| PollState::Empty),
            decreases new_cap - self.states.len(),
        {
            self.states.push(PollState::Empty);
            proof {
                assert(self.states@ =~= old_states + Seq::new((self.states@.len() - old_states.len()) as nat, |i: int| PollState::Empty));
            }
        }
        self.items.reserve_exact(new_cap);
        self.cap = new_cap;
        proof {
            assert forall|k: usize| k < self.cap implies #[trigger] self.states@[k as int] == if self.items@.contains_key(k) {
                PollState::Pending
            } else {
                PollState::Empty
            } by {
                if k >= old_states.len() {
                    assert(!self.items@.contains_key(k));
                }
            }
        }
    }

    // move to other impl block
    pub fn contains_key(&self, key: Key) -> (b: bool)
        ensures
            b == self@.contains_key(key.0),
    {
        self.items.contains_key(key.0)
    }

    /// Mutable access to the child under `key`, to poll it.
    pub fn item_mut(&mut self, key: Key) -> (r: Option<&mut A>)
        requires
            old(self).wf(),
        ensures
            final(self).wf(),
            final(self).cap() == old(self).cap(),
            final(self).states() == old(self).states(),
            final(self).ready() == old(self).ready(),
            final(self)@.dom() == old(self)@.dom(),
            old(self)@.contains_key(key.0) ==> r is Some && *r->0 == old(self)@[key.0]
                && final(self)@ == old(self)@.insert(key.0, *final(r->0)),
            !old(self)@.contains_key(key.0) ==> r is None && final(self)@ == old(self)@,
    {
        self.items.get_mut(key.0)
    }

    /// Whether any child has been woken.
    pub(crate) fn any_ready(&self) -> (b: bool)
        requires
            self.wf(),
        ensures
            b == exists|i: int| 0 <= i < self.cap() && self.ready()[i],
    {
        let b = self.readiness.any_ready();
        proof {
            if b {
                let w = choose|i: int| 0 <= i < self.readiness@.len() && self.readiness@[i];
                assert(0 <= w < self.cap() && self.ready()[w]);
            }
        }
        b
    }

    /// Whether the child under `index` is pending and has been woken; if so its
    /// readiness is cleared.
    pub(crate) fn can_progress_index(&mut self, index: usize) -> (b: bool)
        requires
            old(self).wf(),
            index < old(self).cap(),
        ensures
            final(self).wf(),
            final(self)@ == old(self)@,
            final(self).cap() == old(self).cap(),
            final(self).states() == old(self).states(),
            b == (old(self).states()[index as int] == PollState::Pending && old(self).ready()[index as int]),
            final(self).ready() == if b {
                old(self).ready().update(index as int, false)
            } else {
                old(self).ready()
            },
    {
        if self.states[index].is_pending() {
            self.readiness.clear_ready(index)
        } else {
            false
        }
    }

    /// The child under `index` has been woken.
    pub fn wake(&mut self, index: usize)
        requires
            old(self).wf(),
        ensures
            final(self).wf(),
            final(self)@ == old(self)@,
            final(self).cap() == old(self).cap(),
            final(self).states() == old(self).states(),
            final(self).ready() == if index < old(self).cap() {
                old(self).ready().update(index as int, true)
            } else {
                old(self).ready()
            },
    {
        if index < self.cap {
            self.readiness.set_ready(index);
        }
    }

    /// Whether the child under `index` is pending and has been woken.
    pub open spec fn can_progress(&self, index: usize) -> bool {
        index < self.cap() && self.states()[index as int] == PollState::Pending && self.ready()[index as int]
    }

    /// What must hold of a round while it runs over this group.
    pub open spec fn round_ok(&self, round: PollRound) -> bool {
        &&& round.order().to_set() == self@.dom()
        &&& round.order().no_duplicates()
        &&& forall|i: int, j: int| 0 <= i < j < round.order().len() ==> round.order()[i] < round.order()[j]
        &&& round.pos() <= round.order().len()
        &&& round.group_len() == self@.len()
        &&& round.done_count() == round.queued().len()
        &&& round.queued().no_duplicates()
        &&& forall|j: int| 0 <= j < round.queued().len() ==> round.order().take(round.pos() as int).contains(#[trigger] round.queued()[j])
        &&& round.current() matches Some(c) ==> round.pos() > 0 && c == round.order()[round.pos() - 1] && !round.queued().contains(c)
    }

    /// Begin a poll: an empty group is finished, a group with no woken child
    /// has nothing to do, and otherwise a round over the keys begins.
    pub fn poll_start(&self) -> (r: PollStart)
        requires
            self.wf(),
        ensures
            self@.len() == 0 <==> r is Finished,
            r is NothingReady <==> (self@.len() > 0 && forall|i: int| 0 <= i < self.cap() ==> !self.ready()[i]),
            r matches PollStart::Begin(round) ==> {
                &&& self.round_ok(round)
                &&& round.pos() == 0
                &&& round.current() is None
                &&& round.queued().len() == 0
            },
    {
        if self.is_empty() {
            return PollStart::Finished;
        }
        if !self.readiness.any_ready() {
            return PollStart::NothingReady;
        }
        proof {
            let w = choose|i: int| 0 <= i < self.readiness@.len() && self.readiness@[i];
            assert(0 <= w < self.cap() && self.ready()[w]);
        }
        let order = key_order(&self.keys);
        let round = PollRound {
            order,
            pos: 0,
            current: None,
            done_count: 0,
            group_len: self.len,
            removal_queue: queue_new(),
        };
        proof {
            assert(round.queued().len() == 0);
        }
        round
            .into_begin()
    }

    /// The next key of the round whose child can make progress: it is pending
    /// and has been woken. Its readiness is cleared. Keys passed over could not
    /// make progress and keep their readiness.
    pub fn next_index(&mut self, round: &mut PollRound) -> (r: Option<usize>)
        requires
            old(self).wf(),
            old(self).round_ok(*old(round)),
            old(round).current() is None,
        ensures
            final(self).wf(),
            final(self).round_ok(*final(round)),
            final(self)@ == old(self)@,
            final(self).cap() == old(self).cap(),
            final(self).states() == old(self).states(),
            final(round).order() == old(round).order(),
            final(round).queued() == old(round).queued(),
            final(round).done_count() == old(round).done_count(),
            final(round).current() == r,
            old(round).pos() <= final(round).pos(),
            forall|q: int| old(round).pos() <= q < final(round).pos() - (if r is Some { 1int } else { 0int })
                ==> !old(self).can_progress(#[trigger] old(round).order()[q]),
            match r {
                Some(i) => {
                    &&& final(round).pos() > 0
                    &&& i == old(round).order()[final(round).pos() - 1]
                    &&& old(self).can_progress(i)
                    &&& final(self).ready() == old(self).ready().update(i as int, false)
                },
                None => {
                    &&& final(round).pos() == old(round).order().len()
                    &&& final(self).ready() == old(self).ready()
                },
            },
    {
        proof {
            self.lemma_keys_below_capacity();
        }
        let ghost start = round.pos;
        while round.pos < round.order.len()
            invariant
                self.wf(),
                self@ == old(self)@,
                self.cap == old(self).cap(),
                self.states@ == old(self).states(),
                self.readiness@ == old(self).ready(),
                round.order@ == old(round).order(),
                round.current is None,
                round.done_count == old(round).done_count(),
                round.group_len == old(round).group_len(),
                queue_items(round.removal_queue) == old(round).queued(),
                old(self).round_ok(*old(round)),
                start == old(round).pos(),
                start <= round.pos <= round.order@.len(),
                forall|q: int| start <= q < round.pos ==> !old(self).can_progress(#[trigger] old(round).order()[q]),
            decreases round.order@.len() - round.pos,
        {
            let index = round.order[round.pos];
            round.pos = round.pos + 1;
            proof {
                self.lemma_keys_below_capacity();
                assert(round.order@.to_set().contains(index));
                assert(self@.contains_key(index));
            }
            if self.states[index].is_pending() && self.readiness.clear_ready(index) {
                round.current = Some(index);
                proof {
                    assert forall|j: int| 0 <= j < round.queued().len()
                        implies round.order().take(round.pos() as int).contains(#[trigger] round.queued()[j]) by {
                        lemma_take_contains_mono(round.order(), old(round).pos() as int, round.pos() as int, round.queued()[j]);
                    }
                    if round.queued().contains(index) {
                        let j = choose|j: int| 0 <= j < round.queued().len() && round.queued()[j] == index;
                        assert(old(round).order().take(old(round).pos() as int).contains(index));
                        let t = old(round).order().take(old(round).pos() as int);
                        let k = choose|k: int| 0 <= k < t.len() && #[trigger] t[k] == index;
                        assert(round.order()[k] == index);
                        assert(round.order()[round.pos() - 1] == index);
                    }
                }
                return Some(index);
            }
        }
        proof {
            assert forall|j: int| 0 <= j < round.queued().len()
                implies round.order().take(round.pos() as int).contains(#[trigger] round.queued()[j]) by {
                lemma_take_contains_mono(round.order(), old(round).pos() as int, round.pos() as int, round.queued()[j]);
            }
        }
        None
    }

    /// Remove every child queued for removal during the round.
    fn remove_queued(&mut self, round: &PollRound)
        requires
            old(self).wf(),
            round.queued().no_duplicates(),
            forall|j: int| 0 <= j < round.queued().len() ==> old(self)@.contains_key(#[trigger] round.queued()[j]),
        ensures
            final(self).wf(),
            final(self)@ == old(self)@.remove_keys(round.queued().to_set()),
            final(self).cap() == old(self).cap(),
            final(self).ready() == old(self).ready(),
    {
        let n = queue_len(&round.removal_queue);
        let mut j: usize = 0;
        while j < n
            invariant
                n == round.queued().len(),
                j <= n,
                self.wf(),
                round.queued().no_duplicates(),
                forall|i: int| 0 <= i < round.queued().len() ==> old(self)@.contains_key(#[trigger] round.queued()[i]),
                self@ == old(self)@.remove_keys(round.queued().take(j as int).to_set()),
                self.cap() == old(self).cap(),
                self.ready() == old(self).ready(),
            decreases n - j,
        {
            let k = queue_get(&round.removal_queue, j);
            self.remove(Key(k));
            proof {
                let q = round.queued();
                assert(q.take(j + 1) =~= q.take(j as int).push(k));
                q.take(j as int).lemma_push_to_set_commute(k);
                assert(q.take(j + 1).to_set() =~= q.take(j as int).to_set().insert(k));
                assert(self@ =~= old(self)@.remove_keys(q.take(j + 1).to_set()));
            }
            j = j + 1;
        }
        proof {
            assert(round.queued().take(n as int) =~= round.queued());
        }
    }

    /// End the round: children found finished are removed; if every child of
    /// the group finished, the group is done, else the poll yields `ret`.
    fn finish<O>(&mut self, round: &PollRound, ret: PollNext<(Key, O)>) -> (r: PollNext<(Key, O)>)
        requires
            old(self).wf(),
            old(self).round_ok(*round),
        ensures
            final(self).wf(),
            final(self)@ == old(self)@.remove_keys(round.queued().to_set()),
            final(self).cap() == old(self).cap(),
            final(self).ready() == old(self).ready(),
            r == if round.done_count() == round.group_len() {
                PollNext::Ready(None)
            } else {
                ret
            },
    {
        proof {
            assert forall|j: int| 0 <= j < round.queued().len() implies old(self)@.contains_key(#[trigger] round.queued()[j]) by {
                let x = round.queued()[j];
                let t = round.order().take(round.pos() as int);
                assert(t.contains(x));
                let k = choose|k: int| 0 <= k < t.len() && #[trigger] t[k] == x;
                assert(round.order()[k] == x);
                assert(round.order().to_set().contains(x));
            }
        }
        self.remove_queued(round);
        if round.done_count == round.group_len {
            return PollNext::Ready(None);
        }
        ret
    }

    /// Hand back what came of polling the child under `index`, the key the
    /// round last named. A child that finished and asks not to be polled again
    /// ends the poll with its output and leaves the group, with the children
    /// found finished before it; one that yielded an item and may yield more
    /// ends the poll with the item and is woken again; one that finished
    /// without an item is queued for removal; one that is not ready is left
    /// alone. In the last two cases the round goes on.
    pub fn on_polled<O>(
        &mut self,
        round: &mut PollRound,
        index: usize,
        flow: ControlFlow<(O, PollAgain), PollAgain>,
    ) -> (r: Option<PollNext<(Key, O)>>)
        requires
            old(self).wf(),
            old(self).round_ok(*old(round)),
            old(round).current() == Some(index),
        ensures
            final(self).wf(),
            final(self).cap() == old(self).cap(),
            match flow {
                ControlFlow::Break((out, PollAgain::Stop)) => {
                    &&& r == Some(PollNext::Ready(Some((Key(index), out))))
                    &&& final(self)@ == old(self)@.remove_keys(old(round).queued().to_set().insert(index))
                    &&& final(self).ready() == old(self).ready()
                },
                ControlFlow::Break((out, PollAgain::Poll)) => {
                    &&& r == Some(PollNext::Ready(Some((Key(index), out))))
                    &&& final(self)@ == old(self)@.remove_keys(old(round).queued().to_set())
                    &&& final(self).ready() == old(self).ready().update(index as int, true)
                },
                ControlFlow::Continue(again) => {
                    &&& r is None
                    &&& final(self)@ == old(self)@
                    &&& final(self).states() == old(self).states()
                    &&& final(self).ready() == old(self).ready()
                    &&& final(self).round_ok(*final(round))
                    &&& final(round).current() is None
                    &&& final(round).order() == old(round).order()
                    &&& final(round).pos() == old(round).pos()
                    &&& final(round).queued() == if again == PollAgain::Stop {
                        old(round).queued().push(index)
                    } else {
                        old(round).queued()
                    }
                },
            },
    {
        proof {
            self.lemma_keys_below_capacity();
            assert(round.order().to_set().contains(index));
        }
        match flow {
            ControlFlow::Break((result, PollAgain::Stop)) => {
                proof {
                    assert forall|j: int| 0 <= j < round.queued().len() implies self@.contains_key(#[trigger] round.queued()[j]) by {
                        let x = round.queued()[j];
                        let t = round.order().take(round.pos() as int);
                        let k = choose|k: int| 0 <= k < t.len() && #[trigger] t[k] == x;
                        assert(round.order()[k] == x);
                        assert(round.order().to_set().contains(x));
                    }
                }
                self.remove_queued(round);
                let ghost mid = self@;
                self.remove(Key(index));
                proof {
                    assert(self@ =~= old(self)@.remove_keys(old(round).queued().to_set().insert(index)));
                }
                Some(PollNext::Ready(Some((Key(index), result))))
            },
            ControlFlow::Break((result, PollAgain::Poll)) => {
                self.states.set(index, PollState::Pending);
                self.readiness.set_ready(index);
                proof {
                    assert(self.states@ =~= old(self).states());
                    let q = round.queued();
                    let rest = self@.dom().remove(index);
                    assert forall|x: usize| #[trigger] q.to_set().contains(x) implies rest.contains(x) by {
                        let j = choose|j: int| 0 <= j < q.len() && q[j] == x;
                        let t = round.order().take(round.pos() as int);
                        let k = choose|k: int| 0 <= k < t.len() && #[trigger] t[k] == x;
                        assert(round.order()[k] == x);
                        assert(round.order().to_set().contains(x));
                    }
                    q.unique_seq_to_set();
                    vstd::set_lib::lemma_len_subset(q.to_set(), rest);
                }
                let ret = PollNext::Ready(Some((Key(index), result)));
                let r = self.finish(round, ret);
                Some(r)
            },
            ControlFlow::Continue(PollAgain::Stop) => {
                proof {
                    let q = round.queued();
                    let rest = self@.dom().remove(index);
                    assert forall|x: usize| #[trigger] q.to_set().contains(x) implies rest.contains(x) by {
                        let j = choose|j: int| 0 <= j < q.len() && q[j] == x;
                        let t = round.order().take(round.pos() as int);
                        let k = choose|k: int| 0 <= k < t.len() && #[trigger] t[k] == x;
                        assert(round.order()[k] == x);
                        assert(round.order().to_set().contains(x));
                    }
                    q.unique_seq_to_set();
                    vstd::set_lib::lemma_len_subset(q.to_set(), rest);
                }
                round.done_count = round.done_count + 1;
                queue_push(&mut round.removal_queue, index);
                round.current = None;
                proof {
                    let q = old(round).queued();
                    let q2 = round.queued();
                    assert(q2 == q.push(index));
                    assert forall|a: int, b: int| 0 <= a < q2.len() && 0 <= b < q2.len() && a != b implies q2[a] != q2[b] by {
                        if a == q.len() as int {
                            assert(q.contains(q2[b]));
                        } else if b == q.len() as int {
                            assert(q.contains(q2[a]));
                        }
                    }
                    assert forall|j: int| 0 <= j < q2.len() implies round.order().take(round.pos() as int).contains(#[trigger] q2[j]) by {
                        if j == q.len() as int {
                            assert(round.order().take(round.pos() as int)[round.pos() - 1] == index);
                        } else {
                            assert(q2[j] == q[j]);
                        }
                    }
                }
                None
            },
            ControlFlow::Continue(PollAgain::Poll) => {
                round.current = None;
                None
            },
        }
    }

    /// End a round that ran through all its keys: children found finished are
    /// removed, and the poll yields `Ready(None)` if every child of the group
    /// finished, else `Pending`.
    pub fn poll_end<O>(&mut self, round: PollRound) -> (r: PollNext<(Key, O)>)
        requires
            old(self).wf(),
            old(self).round_ok(round),
        ensures
            final(self).wf(),
            final(self)@ == old(self)@.remove_keys(round.queued().to_set()),
            final(self).cap() == old(self).cap(),
            final(self).ready() == old(self).ready(),
            r == if round.queued().len() == old(self)@.len() {
                PollNext::<(Key, O)>::Ready(None)
            } else {
                PollNext::Pending
            },
    {
        self.finish(&round, PollNext::Pending)
    }
}

impl PollRound {
    fn into_begin(self) -> (r: PollStart)
        ensures
            r == PollStart::Begin(self),
    {
        PollStart::Begin(self)
    }
}

} // verus!
