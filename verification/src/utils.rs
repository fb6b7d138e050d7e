//! Poll states and readiness bookkeeping shared by the combinators.

use vstd::prelude::*;

verus! {

/// What polling a stream yields: an item, the end of the stream, or nothing yet.
#[derive(Debug, PartialEq, Eq)]
pub enum PollNext<T> {
    /// `Some(item)`, or `None` once the stream has nothing left.
    Ready(Option<T>),
    /// Nothing can be yielded yet.
    Pending,
}

/// The state of one child of a combinator.
#[derive(Debug, Clone, Copy, PartialEq, Eq, Structural)]
pub enum PollState {
    /// There is no child at this slot.
    Empty,
    /// The child has not completed yet and may be polled.
    Pending,
    /// The child has completed and its output is stored.
    Ready,
    /// The child's output has been handed out.
    Consumed,
}

impl PollState {
    pub fn is_pending(&self) -> (b: bool)
        ensures
            b == (*self == PollState::Pending),
    {
        matches!(self, PollState::Pending)
    }

    pub fn is_ready(&self) -> (b: bool)
        ensures
            b == (*self == PollState::Ready),
    {
        matches!(self, PollState::Ready)
    }

    pub fn is_consumed(&self) -> (b: bool)
        ensures
            b == (*self == PollState::Consumed),
    {
        matches!(self, PollState::Consumed)
    }

    pub fn is_empty(&self) -> (b: bool)
        ensures
            b == (*self == PollState::Empty),
    {
        matches!(self, PollState::Empty)
    }
}

/// A vector of `len` copies of `state`.
pub fn poll_states(state: PollState, len: usize) -> (v: Vec<PollState>)
    ensures
        v@ == Seq::new(len as nat, |i: int| state),
{
    let mut v: Vec<PollState> = Vec::with_capacity(len);
    let mut i: usize = 0;
    while i < len
        invariant
            i <= len,
            v@ == Seq::new(i as nat, |j: int| state),
        decreases len - i,
    {
        v.push(state);
        i = i + 1;
    }
    v
}

/// Number of `true` entries of a sequence of flags.
pub open spec fn count_true(s: Seq<bool>) -> nat
    decreases s.len(),
{
    if s.len() == 0 {
        0
    } else {
        count_true(s.drop_last()) + if s.last() {
            1nat
        } else {
            0nat
        }
    }
}

pub proof fn lemma_count_true_bound(s: Seq<bool>)
    ensures
        count_true(s) <= s.len(),
    decreases s.len(),
{
    if s.len() > 0 {
        lemma_count_true_bound(s.drop_last());
    }
}

pub proof fn lemma_count_true_update(s: Seq<bool>, i: int, v: bool)
    requires
        0 <= i < s.len(),
    ensures
        count_true(s.update(i, v)) + (if s[i] {
            1int
        } else {
            0int
        }) == count_true(s) + (if v {
            1int
        } else {
            0int
        }),
    decreases s.len(),
{
    let t = s.update(i, v);
    if i == s.len() - 1 {
        assert(t.drop_last() =~= s.drop_last());
    } else {
        lemma_count_true_update(s.drop_last(), i, v);
        assert(t.drop_last() =~= s.drop_last().update(i, v));
    }
}

pub proof fn lemma_count_true_zero(s: Seq<bool>)
    ensures
        (count_true(s) == 0) <==> (forall|i: int| 0 <= i < s.len() ==> !s[i]),
    decreases s.len(),
{
    if s.len() > 0 {
        lemma_count_true_zero(s.drop_last());
        if count_true(s) == 0 {
            assert forall|i: int| 0 <= i < s.len() implies !s[i] by {
                if i < s.len() - 1 {
                    assert(s.drop_last()[i] == s[i]);
                }
            }
        }
        if forall|i: int| 0 <= i < s.len() ==> !s[i] {
            assert forall|i: int| 0 <= i < s.drop_last().len() implies !s.drop_last()[i] by {
                assert(s.drop_last()[i] == s[i]);
            }
        }
    }
}

pub proof fn lemma_count_true_all(len: nat)
    ensures
        count_true(Seq::new(len, |i: int| true)) == len,
    decreases len,
{
    if len > 0 {
        lemma_count_true_all((len - 1) as nat);
        assert(Seq::new(len, |i: int| true).drop_last() =~= Seq::new((len - 1) as nat, |i: int| true));
    }
}

pub proof fn lemma_count_true_push_false(s: Seq<bool>)
    ensures
        count_true(s.push(false)) == count_true(s),
{
    assert(s.push(false).drop_last() =~= s);
}

/// Which children have been woken since they were last polled, with a count of
/// them so that "is anything ready" is answered at once.
pub struct Readiness {
    ready: Vec<bool>,
    count: usize,
}

impl View for Readiness {
    type V = Seq<bool>;

    closed spec fn view(&self) -> Seq<bool> {
        self.ready@
    }
}

impl Readiness {
    pub closed spec fn wf(&self) -> bool {
        self.count == count_true(self.ready@)
    }

    /// Readiness for `len` children, all of them ready to be polled.
    pub fn new(len: usize) -> (r: Self)
        ensures
            r.wf(),
            r@ == Seq::new(len as nat, |i: int| true),
    {
        let mut ready: Vec<bool> = Vec::with_capacity(len);
        let mut i: usize = 0;
        while i < len
            invariant
                i <= len,
                ready@ == Seq::new(i as nat, |j: int| true),
            decreases len - i,
        {
            ready.push(true);
            i = i + 1;
        }
        proof {
            lemma_count_true_all(len as nat);
        }
        Readiness { ready, count: len }
    }

    pub fn len(&self) -> (n: usize)
        ensures
            n == self@.len(),
    {
        self.ready.len()
    }

    /// Whether any child is ready.
    pub fn any_ready(&self) -> (b: bool)
        requires
            self.wf(),
        ensures
            b == exists|i: int| 0 <= i < self@.len() && self@[i],
    {
        proof {
            lemma_count_true_zero(self.ready@);
            if self.count > 0 {
                let i = choose|i: int| !(0 <= i < self.ready@.len() ==> !self.ready@[i]);
                assert(0 <= i < self@.len() && self@[i]);
            }
        }
        self.count > 0
    }

    /// Whether child `i` is ready.
    pub fn is_ready(&self, i: usize) -> (b: bool)
        requires
            i < self@.len(),
        ensures
            b == self@[i as int],
    {
        self.ready[i]
    }

    /// Mark child `i` ready; returns whether it was not ready before.
    pub fn set_ready(&mut self, i: usize) -> (newly: bool)
        requires
            old(self).wf(),
            i < old(self)@.len(),
        ensures
            final(self).wf(),
            final(self)@ == old(self)@.update(i as int, true),
            newly == !old(self)@[i as int],
    {
        let n = self.ready.len();
        if self.ready[i] {
            proof {
                assert(self.ready@.update(i as int, true) =~= self.ready@);
            }
            false
        } else {
            proof {
                lemma_count_true_update(self.ready@, i as int, true);
                lemma_count_true_bound(self.ready@.update(i as int, true));
            }
            self.ready.set(i, true);
            self.count = self.count + 1;
            true
        }
    }

    /// Mark child `i` not ready; returns whether it was ready before.
    pub fn clear_ready(&mut self, i: usize) -> (was: bool)
        requires
            old(self).wf(),
            i < old(self)@.len(),
        ensures
            final(self).wf(),
            final(self)@ == old(self)@.update(i as int, false),
            was == old(self)@[i as int],
    {
        if self.ready[i] {
            proof {
                lemma_count_true_update(self.ready@, i as int, false);
            }
            self.ready.set(i, false);
            self.count = self.count - 1;
            true
        } else {
            proof {
                assert(self.ready@.update(i as int, false) =~= self.ready@);
            }
            false
        }
    }

    /// Grow to `len` children; the new ones are not ready.
    pub fn grow(&mut self, len: usize)
        requires
            old(self).wf(),
            old(self)@.len() <= len,
        ensures
            final(self).wf(),
            final(self)@ == old(self)@ + Seq::new((len - old(self)@.len()) as nat, |i: int| false),
    {
        let ghost start = self.ready@;
        while self.ready.len() < len
            invariant
                self.wf(),
                start.len() <= self.ready@.len() <= len,
                self.ready@ == start + Seq::new((self.ready@.len() - start.len()) as nat, |i: int| false),
            decreases len - self.ready.len(),
        {
            proof {
                lemma_count_true_push_false(self.ready@);
            }
            self.ready.push(false);
            proof {
                assert(self.ready@ =~= start + Seq::new((self.ready@.len() - start.len()) as nat, |i: int| false));
            }
        }
    }
}

/// The children woken since the last poll, kept both as flags and as a list in
/// the order in which they woke.
pub struct Awakeness {
    awake_set: Vec<bool>,
    awake_list: Vec<usize>,
}

impl View for Awakeness {
    type V = Seq<bool>;

    closed spec fn view(&self) -> Seq<bool> {
        self.awake_set@
    }
}

impl Awakeness {
    pub closed spec fn wf(&self) -> bool {
        &&& self.awake_list@.no_duplicates()
        &&& forall|j: int| 0 <= j < self.awake_list@.len() ==> #[trigger] self.awake_list@[j] < self.awake_set@.len()
        &&& forall|i: usize| i < self.awake_set@.len() ==> (#[trigger] self.awake_set@[i as int] <==> self.awake_list@.contains(i))
    }

    /// The woken children, in the order in which they woke.
    pub closed spec fn list(&self) -> Seq<usize> {
        self.awake_list@
    }

    pub proof fn lemma_list(&self)
        requires
            self.wf(),
        ensures
            self.list().no_duplicates(),
            forall|j: int| 0 <= j < self.list().len() ==> #[trigger] self.list()[j] < self@.len(),
            forall|i: usize| i < self@.len() ==> (#[trigger] self@[i as int] <==> self.list().contains(i)),
    {
    }

    /// Awakeness for `len` children, all of them woken, in index order.
    pub fn new(len: usize) -> (r: Self)
        ensures
            r.wf(),
            r@ == Seq::new(len as nat, |i: int| true),
            r.list() == Seq::new(len as nat, |i: int| i as usize),
    {
        let mut awake_set: Vec<bool> = Vec::with_capacity(len);
        let mut awake_list: Vec<usize> = Vec::with_capacity(len);
        let mut i: usize = 0;
        while i < len
            invariant
                i <= len,
                awake_set@ == Seq::new(i as nat, |j: int| true),
                awake_list@ == Seq::new(i as nat, |j: int| j as usize),
            decreases len - i,
        {
            awake_set.push(true);
            awake_list.push(i);
            i = i + 1;
        }
        let r = Awakeness { awake_set, awake_list };
        proof {
            assert forall|k: usize| k < len implies (#[trigger] r.awake_set@[k as int] <==> r.awake_list@.contains(k)) by {
                assert(r.awake_list@[k as int] == k);
            }
        }
        r
    }

    pub fn len(&self) -> (n: usize)
        ensures
            n == self@.len(),
    {
        self.awake_set.len()
    }

    /// Record that child `i` woke; returns whether it was not awake before.
    pub fn set_woken(&mut self, i: usize) -> (newly: bool)
        requires
            old(self).wf(),
            i < old(self)@.len(),
        ensures
            final(self).wf(),
            final(self)@ == old(self)@.update(i as int, true),
            newly == !old(self)@[i as int],
            final(self).list() == if newly {
                old(self).list().push(i)
            } else {
                old(self).list()
            },
    {
        if self.awake_set[i] {
            proof {
                assert(self.awake_set@.update(i as int, true) =~= self.awake_set@);
            }
            false
        } else {
            let ghost old_list = self.awake_list@;
            self.awake_set.set(i, true);
            self.awake_list.push(i);
            proof {
                assert(self.awake_list@ == old_list.push(i));
                assert(!old_list.contains(i));
                assert forall|a: int, b: int|
                    0 <= a < self.awake_list@.len() && 0 <= b < self.awake_list@.len() && a != b
                    implies self.awake_list@[a] != self.awake_list@[b] by {
                    if a == old_list.len() as int {
                        assert(old_list.contains(self.awake_list@[b]));
                    } else if b == old_list.len() as int {
                        assert(old_list.contains(self.awake_list@[a]));
                    }
                }
                assert forall|k: usize| k < self.awake_set@.len()
                    implies (#[trigger] self.awake_set@[k as int] <==> self.awake_list@.contains(k)) by {
                    if k != i {
                        if old_list.contains(k) {
                            let j = choose|j: int| 0 <= j < old_list.len() && old_list[j] == k;
                            assert(self.awake_list@[j] == k);
                        }
                        if self.awake_list@.contains(k) {
                            let j = choose|j: int| 0 <= j < self.awake_list@.len() && self.awake_list@[j] == k;
                            assert(old_list[j] == k);
                        }
                    } else {
                        assert(self.awake_list@[old_list.len() as int] == i);
                    }
                }
            }
            true
        }
    }

    /// Hand out the list of woken children and forget them.
    pub fn take_awake_list(&mut self) -> (list: Vec<usize>)
        requires
            old(self).wf(),
        ensures
            final(self).wf(),
            list@ == old(self).list(),
            final(self)@ == Seq::new(old(self)@.len(), |i: int| false),
            final(self).list() == Seq::<usize>::empty(),
    {
        let ghost old_set = self.awake_set@;
        let ghost list0 = self.awake_list@;
        let mut j: usize = 0;
        while j < self.awake_list.len()
            invariant
                self.awake_list@ == list0,
                list0.no_duplicates(),
                forall|k: int| 0 <= k < list0.len() ==> #[trigger] list0[k] < old_set.len(),
                forall|i: usize| i < old_set.len() ==> (#[trigger] old_set[i as int] <==> list0.contains(i)),
                j <= list0.len(),
                self.awake_set@.len() == old_set.len(),
                forall|i: usize| i < old_set.len() ==> #[trigger] self.awake_set@[i as int] == (old_set[i as int] && !list0.take(j as int).contains(i)),
            decreases list0.len() - j,
        {
            let idx = self.awake_list[j];
            self.awake_set.set(idx, false);
            proof {
                let t0 = list0.take(j as int);
                let t1 = list0.take(j + 1);
                assert forall|i: usize| i < old_set.len() implies #[trigger] self.awake_set@[i as int] == (old_set[i as int] && !t1.contains(i)) by {
                    if t0.contains(i) {
                        let k = choose|k: int| 0 <= k < t0.len() && #[trigger] t0[k] == i;
                        assert(t1[k] == i);
                    }
                    assert(t1[j as int] == idx);
                    if t1.contains(i) && i != idx {
                        let k = choose|k: int| 0 <= k < t1.len() && #[trigger] t1[k] == i;
                        assert(k != j);
                        assert(t0[k] == i);
                    }
                    if i == idx {
                        assert(t1[j as int] == idx);
                    }
                }
            }
            j = j + 1;
        }
        let n = self.awake_set.len();
        let mut list: Vec<usize> = Vec::new();
        std::mem::swap(&mut list, &mut self.awake_list);
        proof {
            assert(list0.take(list0.len() as int) =~= list0);
            assert forall|i: int| 0 <= i < old_set.len() implies !self.awake_set@[i] by {
                let u = i as usize;
                assert(u as int == i);
                assert(self.awake_set@[u as int] == (old_set[u as int] && !list0.take(j as int).contains(u)));
                assert(list0.take(j as int) == list0);
            }
            assert(self.awake_set@ =~= Seq::new(old_set.len(), |i: int| false));
        }
        list
    }
}

} // verus!
