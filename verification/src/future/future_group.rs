//! A growable group of futures which act as a single unit.

use vstd::prelude::*;

use crate::collections::inner_group::{InnerGroup, Key};
use crate::collections::slab_store::slab_slot_limit;

verus! {

/// A growable group of futures which act as a single unit.
///
/// The group hands out a key for every future inserted; polling it yields
/// the outputs of its futures as they complete, each future leaving the group
/// once it has.
pub struct FutureGroup<F> {
    inner: InnerGroup<F>,
}

impl<F> View for FutureGroup<F> {
    type V = Map<usize, F>;

    /// The futures, by key.
    closed spec fn view(&self) -> Map<usize, F> {
        self.inner@
    }
}

impl<F> FutureGroup<F> {
    pub closed spec fn wf(&self) -> bool {
        self.inner.wf()
    }

    /// The group the futures are kept in.
    pub closed spec fn group(&self) -> InnerGroup<F> {
        self.inner
    }

    /// The number of futures the group has room for.
    pub closed spec fn cap(&self) -> nat {
        self.inner.cap()
    }

    /// The number of slots the keys have been drawn from: a new key is the
    /// next slot when no slot below this is vacant.
    pub closed spec fn slots(&self) -> nat {
        self.inner.slots()
    }

    /// A well-formed group holds finitely many futures, each under a key
    /// below its slot count, and no more futures than its capacity.
    pub proof fn lemma_wf(&self)
        requires
            self.wf(),
        ensures
            self@.dom().finite(),
            forall|k: usize| #[trigger] self@.contains_key(k) ==> k < self.slots(),
            self@.len() <= self.slots(),
            self.slots() <= self.cap(),
    {
        self.inner.lemma_keys_below_capacity();
    }

    /// Create a new instance of `FutureGroup`.
    pub fn new() -> (g: Self)
        ensures
            g.wf(),
            g@ == Map::<usize, F>::empty(),
            g.cap() == 0,
            g.slots() == 0,
    {
        Self::with_capacity(0)
    }

    /// Create a new instance of `FutureGroup` with a given capacity.
    pub fn with_capacity(capacity: usize) -> (g: Self)
        requires
            capacity <= slab_slot_limit(),
        ensures
            g.wf(),
            g@ == Map::<usize, F>::empty(),
            g.cap() == capacity,
            g.slots() == 0,
    {
        FutureGroup { inner: InnerGroup::with_capacity(capacity) }
    }

    /// Return the number of futures currently active in the group.
    pub fn len(&self) -> (n: usize)
        requires
            self.wf(),
        ensures
            n == self@.len(),
    {
        self.inner.len()
    }

    /// Return the capacity of the `FutureGroup`.
    pub fn capacity(&self) -> (n: usize)
        ensures
            n == self.cap(),
    {
        self.inner.capacity()
    }

    /// Returns true if there are no futures currently active in the group.
    pub fn is_empty(&self) -> (b: bool)
        requires
            self.wf(),
        ensures
            b == (self@.len() == 0),
    {
        self.inner.is_empty()
    }

    /// Removes a future from the group. Returns whether the value was present in
    /// the group.
    pub fn remove(&mut self, key: Key) -> (b: bool)
        requires
            old(self).wf(),
        ensures
            final(self).wf(),
            b == old(self)@.contains_key(key.0),
            final(self)@ == old(self)@.remove(key.0),
            final(self).cap() == old(self).cap(),
            final(self).slots() == old(self).slots(),
            final(self).group().ready() == old(self).group().ready(),
    {
        self.inner.remove(key).is_some()
    }

    /// Returns `true` if the `FutureGroup` contains a value for the specified key.
    pub fn contains_key(&mut self, key: Key) -> (b: bool)
        ensures
            b == old(self)@.contains_key(key.0),
            *final(self) == *old(self),
    {
        self.inner.contains_key(key)
    }

    /// Reserves capacity for `additional` more futures to be inserted.
    /// Does nothing if the capacity is already sufficient.
    pub fn reserve(&mut self, additional: usize)
        requires
            old(self).wf(),
            old(self)@.len() + additional <= old(self).cap() || old(self).cap() * 2 + additional <= slab_slot_limit(),
        ensures
            final(self).wf(),
            final(self)@ == old(self)@,
            final(self).slots() == old(self).slots(),
            final(self).cap() == if old(self)@.len() + additional <= old(self).cap() {
                old(self).cap() as int
            } else {
                old(self).cap() + additional
            },
            final(self).cap() >= old(self)@.len() + additional,
            final(self).group().ready() == old(self).group().ready() + Seq::new((final(self).cap() - old(self).cap()) as nat, |i: int| false),
    {
        self.inner.reserve(additional);
    }

    /// Insert a new future into the group.
    pub fn insert(&mut self, future: F) -> (key: Key)
        requires
            old(self).wf(),
            old(self)@.len() < old(self).cap() || old(self).cap() * 4 + 1 <= slab_slot_limit(),
        ensures
            final(self).wf(),
            !old(self)@.contains_key(key.0),
            final(self)@ == old(self)@.insert(key.0, future),
            final(self).cap() == if old(self)@.len() < old(self).cap() {
                old(self).cap()
            } else {
                old(self).cap() * 3 + 1
            },
            key.0 <= old(self).slots(),
            (key.0 == old(self).slots()) == (old(self)@.len() == old(self).slots()),
            final(self).slots() == if key.0 == old(self).slots() {
                old(self).slots() + 1
            } else {
                old(self).slots()
            },
            key.0 < final(self).cap(),
            final(self).group().ready()[key.0 as int],
            forall|k: int| 0 <= k < old(self).cap() && k != key.0 ==> #[trigger] final(self).group().ready()[k] == old(self).group().ready()[k],
    {
        self.inner.insert(future)
    }

    /// Create a stream which also yields the key of each item.
    pub fn keyed(self) -> (k: Keyed<F>)
        ensures
            k.group() == self,
    {
        Keyed { group: self }
    }

    /// The group the futures are kept in, to be polled.
    pub fn inner_mut(&mut self) -> (g: &mut InnerGroup<F>)
        ensures
            *g == old(self).group(),
            final(self).group() == *final(g),
            old(self).group()@ == old(self)@,
            old(self).group().wf() == old(self).wf(),
            old(self).group().cap() == old(self).cap(),
            old(self).group().slots() == old(self).slots(),
            final(self).group()@ == final(self)@,
            final(self).group().wf() == final(self).wf(),
            final(self).group().cap() == final(self).cap(),
            final(self).group().slots() == final(self).slots(),
    {
        &mut self.inner
    }
}

/// Removing the key that `insert` handed out gives back the group the future
/// was inserted into; until then the key is in the group, which holds one
/// future more.
pub proof fn law_remove_undoes_insert<F>(before: Map<usize, F>, key: usize, future: F)
    requires
        before.dom().finite(),
        !before.contains_key(key),
    ensures
        before.insert(key, future).contains_key(key),
        before.insert(key, future)[key] == future,
        before.insert(key, future).len() == before.len() + 1,
        before.insert(key, future).remove(key) == before,
{
    assert(before.insert(key, future).remove(key) =~= before);
}

/// What happens to a group between two looks at it: a future inserted under
/// a fresh key, a key removed, or the future under a key completing, which a
/// poll yields and which leaves the group.
pub enum GroupEvent<F> {
    Insert(usize, F),
    Remove(usize),
    Yield(usize),
}

/// Whether `e` is the future under `k` completing.
pub open spec fn yields_key<F>(e: GroupEvent<F>, k: usize) -> bool {
    match e {
        GroupEvent::Yield(kk) => kk == k,
        _ => false,
    }
}

/// Whether `e` inserts a future under `k`.
pub open spec fn inserts_key<F>(e: GroupEvent<F>, k: usize) -> bool {
    match e {
        GroupEvent::Insert(kk, _) => kk == k,
        _ => false,
    }
}

/// The futures by key after `e`, as `insert`, `remove` and a poll that yields
/// state it.
pub open spec fn apply_event<F>(m: Map<usize, F>, e: GroupEvent<F>) -> Map<usize, F> {
    match e {
        GroupEvent::Insert(k, f) => m.insert(k, f),
        GroupEvent::Remove(k) => m.remove(k),
        GroupEvent::Yield(k) => m.remove(k),
    }
}

/// Whether `e` can happen to a group holding `m`: an inserted key is fresh,
/// a yielded future is in the group.
pub open spec fn event_ok<F>(m: Map<usize, F>, e: GroupEvent<F>) -> bool {
    match e {
        GroupEvent::Insert(k, f) => !m.contains_key(k),
        GroupEvent::Remove(k) => true,
        GroupEvent::Yield(k) => m.contains_key(k),
    }
}

/// The change `e` makes to the number of futures.
pub open spec fn event_delta<F>(m: Map<usize, F>, e: GroupEvent<F>) -> int {
    match e {
        GroupEvent::Insert(k, f) => 1,
        GroupEvent::Remove(k) => if m.contains_key(k) { -1 } else { 0 },
        GroupEvent::Yield(k) => -1,
    }
}

/// The futures by key after a sequence of events.
pub open spec fn run_events<F>(m: Map<usize, F>, events: Seq<GroupEvent<F>>) -> Map<usize, F>
    decreases events.len(),
{
    if events.len() == 0 {
        m
    } else {
        run_events(apply_event(m, events[0]), events.drop_first())
    }
}

/// Whether every event of a sequence can happen in turn.
pub open spec fn events_ok<F>(m: Map<usize, F>, events: Seq<GroupEvent<F>>) -> bool
    decreases events.len(),
{
    events.len() == 0 || (event_ok(m, events[0]) && events_ok(apply_event(m, events[0]), events.drop_first()))
}

/// Futures inserted, less those removed while present and those yielded.
pub open spec fn events_delta<F>(m: Map<usize, F>, events: Seq<GroupEvent<F>>) -> int
    decreases events.len(),
{
    if events.len() == 0 {
        0
    } else {
        event_delta(m, events[0]) + events_delta(apply_event(m, events[0]), events.drop_first())
    }
}

/// Over any sequence of inserts, removes and polls, the group holds as many
/// futures as were inserted, less those removed and those yielded, and a
/// future that a poll yields has left the group: its key is yielded again
/// only after a new future has been inserted under it.
pub proof fn law_group_events<F>(m: Map<usize, F>, events: Seq<GroupEvent<F>>)
    requires
        m.dom().finite(),
        events_ok(m, events),
    ensures
        run_events(m, events).dom().finite(),
        run_events(m, events).len() == m.len() + events_delta(m, events),
        forall|i: int, j: int, k: usize|
            0 <= i < j < events.len() && #[trigger] yields_key(events[i], k) && #[trigger] yields_key(events[j], k) ==> exists|l: int| i < l < j && #[trigger] inserts_key(events[l], k),
    decreases events.len(),
{
    if events.len() > 0 {
        let e = events[0];
        let m1 = apply_event(m, e);
        let rest = events.drop_first();
        law_group_events(m1, rest);
        assert forall|i: int, j: int, k: usize|
            0 <= i < j < events.len() && #[trigger] yields_key(events[i], k) && #[trigger] yields_key(events[j], k) implies exists|l: int| i < l < j && #[trigger] inserts_key(events[l], k) by {
            if i > 0 {
                assert(rest[i - 1] == events[i]);
                assert(rest[j - 1] == events[j]);
                let l = choose|l: int| i - 1 < l < j - 1 && #[trigger] inserts_key(rest[l], k);
                assert(events[l + 1] == rest[l]);
            } else {
                lemma_yielded_absent_until_insert(m1, rest, k, j - 1);
                let l = choose|l: int| 0 <= l < j - 1 && #[trigger] inserts_key(rest[l], k);
                assert(events[l + 1] == rest[l]);
            }
        }
    }
}

/// A key absent from the group is yielded only after an insert under it.
proof fn lemma_yielded_absent_until_insert<F>(m: Map<usize, F>, events: Seq<GroupEvent<F>>, k: usize, j: int)
    requires
        events_ok(m, events),
        !m.contains_key(k),
        0 <= j < events.len(),
        yields_key(events[j], k),
    ensures
        exists|l: int| 0 <= l < j && #[trigger] inserts_key(events[l], k),
    decreases j,
{
    let e = events[0];
    let m1 = apply_event(m, e);
    let rest = events.drop_first();
    if j == 0 {
        assert(false);
    } else if inserts_key(e, k) {
        assert(inserts_key(events[0], k));
    } else {
        assert(!m1.contains_key(k));
        assert(rest[j - 1] == events[j]);
        lemma_yielded_absent_until_insert(m1, rest, k, j - 1);
        let l = choose|l: int| 0 <= l < j - 1 && #[trigger] inserts_key(rest[l], k);
        assert(events[l + 1] == rest[l]);
    }
}

/// Iterate over items in the futures group with their associated keys.
pub struct Keyed<F> {
    group: FutureGroup<F>,
}

impl<F> Keyed<F> {
    /// The group iterated over.
    pub closed spec fn group(&self) -> FutureGroup<F> {
        self.group
    }

    /// The group iterated over.
    pub fn group_ref(&self) -> (g: &FutureGroup<F>)
        ensures
            *g == self.group(),
    {
        &self.group
    }

    /// The group iterated over, mutably.
    pub fn group_mut(&mut self) -> (g: &mut FutureGroup<F>)
        ensures
            *g == old(self).group(),
            final(self).group() == *final(g),
    {
        &mut self.group
    }
}

} // verus!
