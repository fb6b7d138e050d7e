//! The bookkeeping of a join over children that are each polled until they
//! complete: a poll state per child, which children have been woken, the
//! outputs kept so far, and how many children are still pending.

use vstd::prelude::*;

use crate::future::common::lemma_count_true_all_iff;
use crate::utils::{count_true, lemma_count_true_bound, lemma_count_true_update, poll_states, PollState, Readiness};

verus! {

/// Which of the states are `Pending`.
pub open spec fn pending_flags(states: Seq<PollState>) -> Seq<bool> {
    Seq::new(states.len(), |i: int| states[i] == PollState::Pending)
}

/// The bookkeeping of a join over `len` children with outputs of type `T`.
pub struct PollProgress<T> {
    consumed: bool,
    pending: usize,
    items: Vec<Option<T>>,
    readiness: Readiness,
    state: Vec<PollState>,
}

impl<T> PollProgress<T> {
    /// The number of children.
    pub open spec fn len(&self) -> nat {
        self.states().len()
    }

    pub proof fn lemma_lens(&self)
        requires
            self.wf(),
        ensures
            self.items().len() == self.len(),
            self.ready().len() == self.len(),
    {
    }

    /// Whether the join has completed; it must not be polled again.
    pub closed spec fn consumed(&self) -> bool {
        self.consumed
    }

    /// How many children are still pending.
    pub closed spec fn pending(&self) -> nat {
        self.pending as nat
    }

    /// The outputs kept, by child.
    pub closed spec fn items(&self) -> Seq<Option<T>> {
        self.items@
    }

    /// The poll state of every child.
    pub closed spec fn states(&self) -> Seq<PollState> {
        self.state@
    }

    /// Whether every child has been woken since it was last polled.
    pub closed spec fn ready(&self) -> Seq<bool> {
        self.readiness@
    }

    pub closed spec fn wf(&self) -> bool {
        let n = self.state@.len();
        &&& self.items@.len() == n
        &&& self.readiness@.len() == n
        &&& self.readiness.wf()
        &&& self.pending == count_true(pending_flags(self.state@))
        &&& forall|i: int| 0 <= i < n ==> (#[trigger] self.items@[i] is Some ==> self.state@[i] == PollState::Ready)
        &&& !self.consumed ==> forall|i: int| 0 <= i < n ==> (#[trigger] self.state@[i] == PollState::Pending
            || (self.state@[i] == PollState::Ready && self.items@[i] is Some))
    }

    /// `len` pending children, all woken.
    pub fn new(len: usize) -> (p: Self)
        ensures
            p.wf(),
            p.len() == len,
            !p.consumed(),
            p.pending() == len,
            p.states() == Seq::new(len as nat, |i: int| PollState::Pending),
            p.items() == Seq::new(len as nat, |i: int| Option::<T>::None),
            p.ready() == Seq::new(len as nat, |i: int| true),
    {
        let mut items: Vec<Option<T>> = Vec::with_capacity(len);
        let mut i: usize = 0;
        while i < len
            invariant
                i <= len,
                items@ == Seq::new(i as nat, |j: int| Option::<T>::None),
            decreases len - i,
        {
            items.push(None);
            i = i + 1;
        }
        let p = PollProgress {
            consumed: false,
            pending: len,
            items,
            readiness: Readiness::new(len),
            state: poll_states(PollState::Pending, len),
        };
        proof {
            assert(pending_flags(p.state@) =~= Seq::new(len as nat, |i: int| true));
            crate::utils::lemma_count_true_all(len as nat);
        }
        p
    }

    pub fn len_exec(&self) -> (n: usize)
        requires
            self.wf(),
        ensures
            n == self.len(),
    {
        self.state.len()
    }

    pub fn is_consumed(&self) -> (b: bool)
        ensures
            b == self.consumed(),
    {
        self.consumed
    }

    /// The poll states, in child order.
    pub fn state_list(&self) -> (v: Vec<PollState>)
        ensures
            v@ == self.states(),
    {
        let mut v: Vec<PollState> = Vec::with_capacity(self.state.len());
        let mut i: usize = 0;
        while i < self.state.len()
            invariant
                i <= self.state@.len(),
                v@ == self.state@.take(i as int),
            decreases self.state@.len() - i,
        {
            v.push(self.state[i]);
            proof {
                assert(v@ =~= self.state@.take(i + 1));
            }
            i = i + 1;
        }
        proof {
            assert(v@ =~= self.state@);
        }
        v
    }

    /// The children still pending, in order: the futures still to be dropped.
    pub fn pending_indexes(&self) -> (v: Vec<usize>)
        ensures
            forall|j: int| 0 <= j < v@.len() ==> #[trigger] v@[j] < self.len() && self.states()[v@[j] as int] == PollState::Pending,
            forall|i: usize| i < self.len() && self.states()[i as int] == PollState::Pending ==> #[trigger] v@.contains(i),
            forall|a: int, b: int| 0 <= a < b < v@.len() ==> v@[a] < v@[b],
    {
        let mut v: Vec<usize> = Vec::new();
        let mut i: usize = 0;
        while i < self.state.len()
            invariant
                i <= self.state@.len(),
                forall|j: int| 0 <= j < v@.len() ==> #[trigger] v@[j] < i && self.state@[v@[j] as int] == PollState::Pending,
                forall|k: usize| k < i && self.state@[k as int] == PollState::Pending ==> #[trigger] v@.contains(k),
                forall|a: int, b: int| 0 <= a < b < v@.len() ==> v@[a] < v@[b],
            decreases self.state@.len() - i,
        {
            if self.state[i].is_pending() {
                let ghost before = v@;
                v.push(i);
                proof {
                    assert forall|k: usize| k < i + 1 && self.state@[k as int] == PollState::Pending implies #[trigger] v@.contains(k) by {
                        if k == i {
                            assert(v@[before.len() as int] == i);
                        } else {
                            assert(before.contains(k));
                            let j = choose|j: int| 0 <= j < before.len() && before[j] == k;
                            assert(v@[j] == k);
                        }
                    }
                }
            }
            i = i + 1;
        }
        v
    }

    /// Whether any child has been woken.
    pub fn any_ready(&self) -> (b: bool)
        requires
            self.wf(),
        ensures
            b == exists|i: int| 0 <= i < self.len() && self.ready()[i],
    {
        let b = self.readiness.any_ready();
        proof {
            if b {
                let w = choose|i: int| 0 <= i < self.readiness@.len() && self.readiness@[i];
                assert(0 <= w < self.len() && self.ready()[w]);
            }
        }
        b
    }

    /// Child `i` has been woken.
    pub fn wake(&mut self, i: usize)
        requires
            old(self).wf(),
            i < old(self).len(),
        ensures
            final(self).wf(),
            final(self).len() == old(self).len(),
            final(self).consumed() == old(self).consumed(),
            final(self).pending() == old(self).pending(),
            final(self).items() == old(self).items(),
            final(self).states() == old(self).states(),
            final(self).ready() == old(self).ready().update(i as int, true),
    {
        self.readiness.set_ready(i);
    }

    /// Whether child `i` is pending and has been woken; if so its readiness
    /// is cleared, as it is about to be polled.
    pub fn can_progress(&mut self, i: usize) -> (b: bool)
        requires
            old(self).wf(),
            i < old(self).len(),
        ensures
            final(self).wf(),
            final(self).len() == old(self).len(),
            final(self).consumed() == old(self).consumed(),
            final(self).pending() == old(self).pending(),
            final(self).items() == old(self).items(),
            final(self).states() == old(self).states(),
            b == (old(self).states()[i as int] == PollState::Pending && old(self).ready()[i as int]),
            final(self).ready() == if b {
                old(self).ready().update(i as int, false)
            } else {
                old(self).ready()
            },
    {
        if self.state[i].is_pending() {
            self.readiness.clear_ready(i)
        } else {
            false
        }
    }

    /// Child `i` completed; `item` is its output to keep, if any.
    pub fn complete_child(&mut self, i: usize, item: Option<T>)
        requires
            old(self).wf(),
            i < old(self).len(),
            old(self).states()[i as int] == PollState::Pending,
            !old(self).consumed() ==> item is Some,
        ensures
            final(self).wf(),
            final(self).len() == old(self).len(),
            final(self).consumed() == old(self).consumed(),
            final(self).pending() == old(self).pending() - 1,
            final(self).items() == old(self).items().update(i as int, item),
            old(self).items()[i as int] is None,
            final(self).states() == old(self).states().update(i as int, PollState::Ready),
            final(self).ready() == old(self).ready(),
    {
        let ghost before = self.state@;
        proof {
            assert(pending_flags(before)[i as int]);
            lemma_count_true_update(pending_flags(before), i as int, false);
        }
        self.items.set(i, item);
        self.state.set(i, PollState::Ready);
        self.pending = self.pending - 1;
        proof {
            assert(pending_flags(self.state@) =~= pending_flags(before).update(i as int, false));
        }
    }

    /// The join must not be polled again.
    pub fn set_consumed(&mut self)
        requires
            old(self).wf(),
        ensures
            final(self).wf(),
            final(self).consumed(),
            final(self).len() == old(self).len(),
            final(self).pending() == old(self).pending(),
            final(self).items() == old(self).items(),
            final(self).states() == old(self).states(),
            final(self).ready() == old(self).ready(),
    {
        self.consumed = true;
    }

    /// Once no child is pending: the join is consumed, every state becomes
    /// `end_state`, and the outputs, in child order, are handed out.
    pub fn finish(&mut self, end_state: PollState) -> (r: Option<Vec<T>>)
        requires
            old(self).wf(),
            !old(self).consumed(),
        ensures
            final(self).len() == old(self).len(),
            final(self).ready() == old(self).ready(),
            final(self).pending() == old(self).pending(),
            old(self).pending() == 0 ==> {
                &&& r is Some
                &&& r->0@ == Seq::new(old(self).len(), |i: int| old(self).items()[i]->Some_0)
                &&& final(self).consumed()
                &&& final(self).states() == Seq::new(old(self).len(), |i: int| end_state)
                &&& final(self).items() == Seq::new(old(self).len(), |i: int| Option::<T>::None)
                &&& (end_state != PollState::Pending ==> final(self).wf())
            },
            old(self).pending() > 0 ==> r is None && *final(self) == *old(self),
    {
        if self.pending != 0 {
            return None;
        }
        let ghost before = self.items@;
        let n = self.state.len();
        proof {
            lemma_count_true_all_iff(pending_flags(self.state@));
            lemma_count_true_zero_all_flags(pending_flags(self.state@));
            assert forall|j: int| 0 <= j < n implies #[trigger] before[j] is Some by {
                assert(!pending_flags(self.state@)[j]);
            }
        }
        self.consumed = true;
        let mut out: Vec<T> = Vec::with_capacity(n);
        let mut i: usize = 0;
        while i < n
            invariant
                i <= n,
                n == old(self).len(),
                self.items@.len() == n,
                self.state@.len() == n,
                before.len() == n,
                forall|j: int| 0 <= j < n ==> #[trigger] before[j] is Some,
                forall|j: int| 0 <= j < i ==> #[trigger] self.items@[j] is None,
                forall|j: int| i <= j < n ==> #[trigger] self.items@[j] == before[j],
                forall|j: int| 0 <= j < i ==> #[trigger] self.state@[j] == end_state,
                out@ == Seq::new(i as nat, |j: int| before[j]->Some_0),
                self.readiness@ == old(self).ready(),
                self.readiness.wf(),
                self.pending == 0,
                self.consumed,
            decreases n - i,
        {
            let mut taken: Option<T> = None;
            std::mem::swap(&mut taken, &mut self.items[i]);
            self.state.set(i, end_state);
            match taken {
                Some(item) => {
                    out.push(item);
                },
                None => {
                    proof {
                        assert(false);
                    }
                },
            }
            proof {
                assert(out@ =~= Seq::new((i + 1) as nat, |j: int| before[j]->Some_0));
            }
            i = i + 1;
        }
        proof {
            assert(self.items@ =~= Seq::new(n as nat, |i: int| Option::<T>::None));
            assert(self.state@ =~= Seq::new(n as nat, |i: int| end_state));
            if end_state != PollState::Pending {
                assert(pending_flags(self.state@) =~= Seq::new(n as nat, |i: int| false));
                crate::future::common::lemma_count_true_zero_all(n as nat);
            }
        }
        Some(out)
    }
}

/// No flag counted: none is set.
pub proof fn lemma_count_true_zero_all_flags(s: Seq<bool>)
    ensures
        count_true(s) == 0 ==> forall|i: int| 0 <= i < s.len() ==> !s[i],
{
    crate::utils::lemma_count_true_zero(s);
}

} // verus!
