//! Joining a vector of fallible children.

use vstd::prelude::*;
use core::marker::PhantomData;

use crate::future::common::progress::PollProgress;
use crate::utils::PollState;

verus! {

/// A future which waits for all futures to complete successfully, or abort
/// early on error: its bookkeeping. Each poll goes through the children in
/// order and polls those that are pending and have been woken; the first error
/// ends the join at once, and once no child is pending the outputs, in child
/// order, are handed out.
pub struct TryJoin<T, E> {
    progress: PollProgress<T>,
    error: PhantomData<E>,
}

impl<T, E> TryJoin<T, E> {
    /// The bookkeeping of the children.
    pub closed spec fn progress(&self) -> PollProgress<T> {
        self.progress
    }

    pub closed spec fn wf(&self) -> bool {
        self.progress.wf()
    }

    #[inline]
    pub fn new(len: usize) -> (j: Self)
        ensures
            j.wf(),
            j.progress().len() == len,
            !j.progress().consumed(),
            j.progress().pending() == len,
            j.progress().states() == Seq::new(len as nat, |i: int| PollState::Pending),
            j.progress().items() == Seq::new(len as nat, |i: int| Option::<T>::None),
            j.progress().ready() == Seq::new(len as nat, |i: int| true),
    {
        TryJoin { progress: PollProgress::new(len), error: PhantomData }
    }

    /// The poll state of every child, in order.
    pub fn state_list(&self) -> (v: Vec<PollState>)
        ensures
            v@ == self.progress().states(),
    {
        self.progress.state_list()
    }

    /// The children still pending, in order: the futures to drop when the
    /// join is dropped.
    pub fn pending_indexes(&self) -> (v: Vec<usize>)
        ensures
            forall|j: int| 0 <= j < v@.len() ==> #[trigger] v@[j] < self.progress().len()
                && self.progress().states()[v@[j] as int] == PollState::Pending,
            forall|i: usize| i < self.progress().len() && self.progress().states()[i as int] == PollState::Pending
                ==> #[trigger] v@.contains(i),
    {
        self.progress.pending_indexes()
    }

    /// Begin a poll, which must not come after completion: whether the poll
    /// goes on, because a child has been woken or because there is no child at
    /// all (the join then completes at once); if not, the poll yields `Pending`.
    pub fn poll_begin(&self) -> (any: bool)
        requires
            self.wf(),
            !self.progress().consumed(),
        ensures
            any == ((exists|i: int| 0 <= i < self.progress().len() && self.progress().ready()[i])
                || self.progress().len() == 0),
    {
        self.progress.any_ready() || self.progress.len_exec() == 0
    }

    /// Child `i` has been woken.
    pub fn wake(&mut self, i: usize)
        requires
            old(self).wf(),
            i < old(self).progress().len(),
        ensures
            final(self).wf(),
            final(self).progress().len() == old(self).progress().len(),
            final(self).progress().states() == old(self).progress().states(),
            final(self).progress().ready() == old(self).progress().ready().update(i as int, true),
            final(self).progress().consumed() == old(self).progress().consumed(),
            final(self).progress().pending() == old(self).progress().pending(),
            final(self).progress().items() == old(self).progress().items(),
    {
        self.progress.wake(i)
    }

    /// Whether child `i` is pending and has been woken, and so is to be
    /// polled now; its readiness is then cleared.
    pub fn can_progress(&mut self, i: usize) -> (b: bool)
        requires
            old(self).wf(),
            i < old(self).progress().len(),
        ensures
            final(self).wf(),
            final(self).progress().len() == old(self).progress().len(),
            b == (old(self).progress().states()[i as int] == PollState::Pending && old(self).progress().ready()[i as int]),
            final(self).progress().ready() == if b {
                old(self).progress().ready().update(i as int, false)
            } else {
                old(self).progress().ready()
            },
            final(self).progress().states() == old(self).progress().states(),
            final(self).progress().consumed() == old(self).progress().consumed(),
            final(self).progress().pending() == old(self).progress().pending(),
            final(self).progress().items() == old(self).progress().items(),
    {
        self.progress.can_progress(i)
    }

    /// Child `i`, which was pending, completed with `value`: a success is
    /// kept; an error ends the join, which must not be polled again, and is
    /// returned.
    pub fn on_ready(&mut self, i: usize, value: Result<T, E>) -> (r: Option<E>)
        requires
            old(self).wf(),
            i < old(self).progress().len(),
            old(self).progress().states()[i as int] == PollState::Pending,
            !old(self).progress().consumed(),
        ensures
            final(self).wf(),
            final(self).progress().len() == old(self).progress().len(),
            final(self).progress().states() == old(self).progress().states().update(i as int, PollState::Ready),
            final(self).progress().pending() == old(self).progress().pending() - 1,
            final(self).progress().ready() == old(self).progress().ready(),
            match value {
                Ok(v) => r is None && !final(self).progress().consumed()
                    && final(self).progress().items() == old(self).progress().items().update(i as int, Some(v)),
                Err(e) => r == Some(e) && final(self).progress().consumed()
                    && final(self).progress().items() == old(self).progress().items(),
            },
    {
        match value {
            Ok(v) => {
                self.progress.complete_child(i, Some(v));
                None
            },
            Err(err) => {
                // The future should no longer be polled after we're done here
                self.progress.set_consumed();
                self.progress.complete_child(i, None);
                proof {
                    old(self).progress().lemma_lens();
                    assert(self.progress.items() =~= old(self).progress().items());
                }
                Some(err)
            },
        }
    }

    /// End a poll: once no child is pending, the outputs in child order; the
    /// join is then consumed.
    pub fn poll_end(&mut self) -> (r: Option<Vec<T>>)
        requires
            old(self).wf(),
            !old(self).progress().consumed(),
        ensures
            final(self).progress().ready() == old(self).progress().ready(),
            old(self).progress().pending() == 0 ==> {
                &&& r is Some
                &&& r->0@ == Seq::new(old(self).progress().len(), |i: int| old(self).progress().items()[i]->Some_0)
                &&& final(self).wf()
                &&& final(self).progress().consumed()
                &&& final(self).progress().states() == Seq::new(old(self).progress().len(), |i: int| PollState::Empty)
            },
            old(self).progress().pending() > 0 ==> r is None && *final(self) == *old(self),
    {
        self.progress.finish(PollState::Empty)
    }
}

} // verus!
