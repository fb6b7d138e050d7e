//! What the join, race and race-ok combinators share: a number of children,
//! which of them have been woken, which have completed with an output kept,
//! and how many are still pending.

use vstd::prelude::*;

use crate::utils::{count_true, lemma_count_true_bound, lemma_count_true_update, Awakeness};

pub mod array;
pub mod done;
pub mod progress;
pub mod tuple;
pub mod vec;

verus! {

/// Either the value to return at once, or the value to keep.
#[derive(Debug)]
pub enum ReturnOrStore<T, U> {
    Return(T),
    Store(U),
}

/// The bookkeeping of a combinator over a fixed number of children.
///
/// A poll takes the list of children woken since the last poll, and goes
/// through it, skipping children that have already completed. A child that
/// completes with an output to keep is marked filled; once every child is
/// filled the combinator is complete and its marks are cleared.
pub struct CombinatorSlots {
    pending: usize,
    filled: Vec<bool>,
    awakeness: Awakeness,
    awake_list_buffer: Vec<usize>,
    next: usize,
}

impl CombinatorSlots {
    /// The number of children.
    pub open spec fn len(&self) -> nat {
        self.filled().len()
    }

    /// Which children have completed with an output kept.
    pub closed spec fn filled(&self) -> Seq<bool> {
        self.filled@
    }

    /// How many children are still pending.
    pub closed spec fn pending(&self) -> nat {
        self.pending as nat
    }

    /// Which children have been woken since the last poll began.
    pub closed spec fn woken(&self) -> Seq<bool> {
        self.awakeness@
    }

    /// The children woken since the last poll began, in the order in which
    /// they woke.
    pub closed spec fn woken_list(&self) -> Seq<usize> {
        self.awakeness.list()
    }

    /// The children this poll still has to go through, in order.
    pub closed spec fn to_visit(&self) -> Seq<usize> {
        self.awake_list_buffer@.skip(self.next as int)
    }

    pub closed spec fn wf(&self) -> bool {
        &&& self.awakeness.wf()
        &&& self.awakeness@.len() == self.filled@.len()
        &&& self.pending <= self.filled@.len()
        &&& (self.pending > 0 ==> self.pending + count_true(self.filled@) == self.filled@.len())
        &&& (self.pending == 0 ==> (forall|i: int| 0 <= i < self.filled@.len() ==> #[trigger] self.filled@[i])
            || (forall|i: int| 0 <= i < self.filled@.len() ==> !#[trigger] self.filled@[i]))
        &&& self.next <= self.awake_list_buffer@.len()
        &&& forall|j: int| 0 <= j < self.awake_list_buffer@.len() ==> #[trigger] self.awake_list_buffer@[j] < self.filled@.len()
    }

    /// Slots for `len` children, all pending and all woken.
    pub fn new(len: usize) -> (s: Self)
        ensures
            s.wf(),
            s.len() == len,
            s.pending() == len,
            s.filled() == Seq::new(len as nat, |i: int| false),
            s.woken() == Seq::new(len as nat, |i: int| true),
            s.woken_list() == Seq::new(len as nat, |i: int| i as usize),
            s.to_visit() == Seq::<usize>::empty(),
    {
        let mut filled: Vec<bool> = Vec::with_capacity(len);
        let mut i: usize = 0;
        while i < len
            invariant
                i <= len,
                filled@ == Seq::new(i as nat, |j: int| false),
            decreases len - i,
        {
            filled.push(false);
            i = i + 1;
        }
        proof {
            lemma_count_true_zero_all(len as nat);
        }
        CombinatorSlots {
            pending: len,
            filled,
            awakeness: Awakeness::new(len),
            awake_list_buffer: Vec::new(),
            next: 0,
        }
    }

    pub fn len_exec(&self) -> (n: usize)
        requires
            self.wf(),
        ensures
            n == self.len(),
    {
        self.filled.len()
    }

    pub fn pending_exec(&self) -> (n: usize)
        ensures
            n == self.pending(),
    {
        self.pending
    }

    /// Whether child `idx` has completed with an output kept.
    pub fn is_filled(&self, idx: usize) -> (b: bool)
        requires
            self.wf(),
            idx < self.len(),
        ensures
            b == self.filled()[idx as int],
    {
        self.filled[idx]
    }

    /// Child `idx` has been woken; returns whether it was not woken before,
    /// in which case the parent is to be woken.
    pub fn wake(&mut self, idx: usize) -> (newly: bool)
        requires
            old(self).wf(),
            idx < old(self).len(),
        ensures
            final(self).wf(),
            final(self).len() == old(self).len(),
            final(self).pending() == old(self).pending(),
            final(self).filled() == old(self).filled(),
            final(self).to_visit() == old(self).to_visit(),
            final(self).woken() == old(self).woken().update(idx as int, true),
            newly == !old(self).woken()[idx as int],
            final(self).woken_list() == if newly {
                old(self).woken_list().push(idx)
            } else {
                old(self).woken_list()
            },
    {
        self.awakeness.set_woken(idx)
    }

    /// Begin a poll: the children woken since the last poll, in the order in
    /// which they woke, are to be visited; none is woken any more.
    pub fn begin(&mut self)
        requires
            old(self).wf(),
        ensures
            final(self).wf(),
            final(self).len() == old(self).len(),
            final(self).pending() == old(self).pending(),
            final(self).filled() == old(self).filled(),
            final(self).woken() == Seq::new(old(self).len(), |i: int| false),
            final(self).woken_list() == Seq::<usize>::empty(),
            final(self).to_visit() == old(self).woken_list(),
            final(self).to_visit().to_set() == Set::new(|i: usize| i < old(self).len() && old(self).woken()[i as int]),
            final(self).to_visit().no_duplicates(),
    {
        proof {
            self.awakeness.lemma_list();
        }
        let list = self.awakeness.take_awake_list();
        self.awake_list_buffer = list;
        self.next = 0;
        proof {
            assert(self.awake_list_buffer@.skip(0) =~= self.awake_list_buffer@);
            assert(self.to_visit().to_set() =~= Set::new(|i: usize| i < old(self).len() && old(self).woken()[i as int]));
        }
    }

    /// The next woken child of this poll that has not completed yet.
    pub fn next_awake(&mut self) -> (r: Option<usize>)
        requires
            old(self).wf(),
        ensures
            final(self).wf(),
            final(self).len() == old(self).len(),
            final(self).pending() == old(self).pending(),
            final(self).filled() == old(self).filled(),
            final(self).woken() == old(self).woken(),
            final(self).woken_list() == old(self).woken_list(),
            match r {
                Some(idx) => exists|p: int| 0 <= p < old(self).to_visit().len() && old(self).to_visit()[p] == idx
                    && !old(self).filled()[idx as int]
                    && (forall|q: int| 0 <= q < p ==> old(self).filled()[#[trigger] old(self).to_visit()[q] as int])
                    && final(self).to_visit() == old(self).to_visit().skip(p + 1),
                None => final(self).to_visit() == Seq::<usize>::empty()
                    && forall|q: int| 0 <= q < old(self).to_visit().len() ==> old(self).filled()[#[trigger] old(self).to_visit()[q] as int],
            },
    {
        let ghost start = self.next as int;
        while self.next < self.awake_list_buffer.len()
            invariant
                self.wf(),
                self.filled@ == old(self).filled(),
                self.pending == old(self).pending(),
                self.awakeness@ == old(self).woken(),
                self.awakeness.list() == old(self).woken_list(),
                self.awake_list_buffer@ == old(self).awake_list_buffer@,
                start == old(self).next,
                start <= self.next,
                forall|q: int| start <= q < self.next ==> self.filled@[#[trigger] self.awake_list_buffer@[q] as int],
            decreases self.awake_list_buffer@.len() - self.next,
        {
            let idx = self.awake_list_buffer[self.next];
            self.next = self.next + 1;
            if !self.filled[idx] {
                proof {
                    let p = self.next - 1 - start;
                    assert(old(self).to_visit()[p] == idx);
                    assert forall|q: int| 0 <= q < p implies old(self).filled()[#[trigger] old(self).to_visit()[q] as int] by {
                        assert(old(self).to_visit()[q] == self.awake_list_buffer@[q + start]);
                    }
                    assert(self.to_visit() =~= old(self).to_visit().skip(p + 1));
                }
                return Some(idx);
            }
        }
        proof {
            assert(self.to_visit() =~= Seq::<usize>::empty());
            assert forall|q: int| 0 <= q < old(self).to_visit().len() implies old(self).filled()[#[trigger] old(self).to_visit()[q] as int] by {
                assert(old(self).to_visit()[q] == self.awake_list_buffer@[q + start]);
            }
        }
        None
    }

    /// Child `idx` completed with an output that is kept.
    pub fn fill(&mut self, idx: usize)
        requires
            old(self).wf(),
            idx < old(self).len(),
            !old(self).filled()[idx as int],
            old(self).pending() > 0,
        ensures
            final(self).wf(),
            final(self).len() == old(self).len(),
            final(self).pending() == old(self).pending() - 1,
            final(self).filled() == old(self).filled().update(idx as int, true),
            final(self).pending() == 0 ==> forall|i: int| 0 <= i < final(self).len() ==> #[trigger] final(self).filled()[i],
            final(self).woken() == old(self).woken(),
            final(self).woken_list() == old(self).woken_list(),
            final(self).to_visit() == old(self).to_visit(),
    {
        proof {
            lemma_count_true_update(self.filled@, idx as int, true);
            lemma_count_true_bound(self.filled@.update(idx as int, true));
        }
        self.filled.set(idx, true);
        self.pending = self.pending - 1;
        proof {
            if self.pending == 0 {
                lemma_count_true_all_iff(self.filled@);
            }
        }
    }

    /// Whether every child has completed with an output kept. If so the marks
    /// are cleared, so that the outputs are handed out once.
    pub fn complete(&mut self) -> (done: bool)
        requires
            old(self).wf(),
        ensures
            final(self).wf(),
            done == (old(self).pending() == 0),
            final(self).len() == old(self).len(),
            final(self).pending() == old(self).pending(),
            final(self).woken() == old(self).woken(),
            final(self).woken_list() == old(self).woken_list(),
            final(self).to_visit() == old(self).to_visit(),
            final(self).filled() == if done {
                Seq::new(old(self).len(), |i: int| false)
            } else {
                old(self).filled()
            },
    {
        if self.pending != 0 {
            return false;
        }
        let n = self.filled.len();
        let mut i: usize = 0;
        while i < n
            invariant
                n == self.filled@.len(),
                n == old(self).len(),
                old(self).wf(),
                self.pending == 0,
                old(self).pending() == 0,
                self.awakeness.wf(),
                self.awakeness@ == old(self).woken(),
                self.awakeness.list() == old(self).woken_list(),
                self.awake_list_buffer@ == old(self).awake_list_buffer@,
                self.next == old(self).next,
                i <= n,
                forall|j: int| 0 <= j < i ==> !#[trigger] self.filled@[j],
                forall|j: int| i <= j < n ==> #[trigger] self.filled@[j] == old(self).filled()[j],
            decreases n - i,
        {
            self.filled.set(i, false);
            i = i + 1;
        }
        proof {
            assert(self.filled@ =~= Seq::new(old(self).len(), |i: int| false));
        }
        true
    }
}

/// All flags false: none counted.
pub proof fn lemma_count_true_zero_all(len: nat)
    ensures
        count_true(Seq::new(len, |i: int| false)) == 0,
    decreases len,
{
    if len > 0 {
        lemma_count_true_zero_all((len - 1) as nat);
        assert(Seq::new(len, |i: int| false).drop_last() =~= Seq::new((len - 1) as nat, |i: int| false));
    }
}

/// All flags are counted exactly when all are true.
pub proof fn lemma_count_true_all_iff(s: Seq<bool>)
    ensures
        (count_true(s) == s.len()) <==> (forall|i: int| 0 <= i < s.len() ==> s[i]),
    decreases s.len(),
{
    lemma_count_true_bound(s);
    if s.len() > 0 {
        lemma_count_true_all_iff(s.drop_last());
        lemma_count_true_bound(s.drop_last());
        if forall|i: int| 0 <= i < s.len() ==> s[i] {
            assert forall|i: int| 0 <= i < s.drop_last().len() implies s.drop_last()[i] by {
                assert(s.drop_last()[i] == s[i]);
            }
        }
        if count_true(s) == s.len() {
            assert forall|i: int| 0 <= i < s.len() implies s[i] by {
                if i < s.len() - 1 {
                    assert(s.drop_last()[i] == s[i]);
                }
            }
        }
    }
}

} // verus!
