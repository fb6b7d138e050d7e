//! Joining an array of children.

use vstd::prelude::*;

use crate::future::common::array::array_from_vec;
use crate::future::common::progress::PollProgress;
use crate::utils::PollState;

verus! {

/// A future which waits for similarly-typed futures to complete: its
/// bookkeeping. Each poll goes through the children in order and polls those
/// that are pending and have been woken; once none is pending the outputs, in
/// child order, are handed out and every child is marked consumed.
pub struct Join<R, const N: usize> {
    progress: PollProgress<R>,
}

impl<R, const N: usize> Join<R, N> {
    /// The bookkeeping of the children.
    pub closed spec fn progress(&self) -> PollProgress<R> {
        self.progress
    }

    pub closed spec fn wf(&self) -> bool {
        self.progress.wf() && self.progress.len() == N
    }

    #[inline]
    pub fn new() -> (j: Self)
        ensures
            j.wf(),
            !j.progress().consumed(),
            j.progress().pending() == N,
            j.progress().states() == Seq::new(N as nat, |i: int| PollState::Pending),
            j.progress().items() == Seq::new(N as nat, |i: int| Option::<R>::None),
            j.progress().ready() == Seq::new(N as nat, |i: int| true),
    {
        Join { progress: PollProgress::new(N) }
    }

    /// Whether the outputs have been handed out: the join must not be polled
    /// again.
    pub fn is_consumed(&self) -> (b: bool)
        requires
            self.wf(),
        ensures
            b == self.progress().consumed(),
    {
        self.progress.is_consumed()
    }

    /// The poll state of every child, in order: what the join shows when
    /// formatted.
    pub fn state_list(&self) -> (v: Vec<PollState>)
        ensures
            v@ == self.progress().states(),
    {
        self.progress.state_list()
    }

    /// The children still pending, in order: the futures to drop when the
    /// join is dropped.
    pub fn pending_indexes(&self) -> (v: Vec<usize>)
        ensures
            forall|j: int| 0 <= j < v@.len() ==> #[trigger] v@[j] < self.progress().len()
                && self.progress().states()[v@[j] as int] == PollState::Pending,
            forall|i: usize| i < self.progress().len() && self.progress().states()[i as int] == PollState::Pending
                ==> #[trigger] v@.contains(i),
    {
        self.progress.pending_indexes()
    }

    /// Begin a poll, which must not come after completion: whether the poll
    /// goes on, because a child has been woken or because there is no child at
    /// all (the join then completes at once); if not, the poll yields `Pending`.
    pub fn poll_begin(&self) -> (any: bool)
        requires
            self.wf(),
            !self.progress().consumed(),
        ensures
            any == ((exists|i: int| 0 <= i < N && self.progress().ready()[i]) || N == 0),
    {
        self.progress.any_ready() || N == 0
    }

    /// Child `i` has been woken.
    pub fn wake(&mut self, i: usize)
        requires
            old(self).wf(),
            i < N,
        ensures
            final(self).wf(),
            final(self).progress().states() == old(self).progress().states(),
            final(self).progress().ready() == old(self).progress().ready().update(i as int, true),
            final(self).progress().consumed() == old(self).progress().consumed(),
            final(self).progress().pending() == old(self).progress().pending(),
            final(self).progress().items() == old(self).progress().items(),
    {
        self.progress.wake(i)
    }

    /// Whether child `i` is pending and has been woken, and so is to be
    /// polled now; its readiness is then cleared.
    pub fn can_progress(&mut self, i: usize) -> (b: bool)
        requires
            old(self).wf(),
            i < N,
        ensures
            final(self).wf(),
            b == (old(self).progress().states()[i as int] == PollState::Pending && old(self).progress().ready()[i as int]),
            final(self).progress().ready() == if b {
                old(self).progress().ready().update(i as int, false)
            } else {
                old(self).progress().ready()
            },
            final(self).progress().states() == old(self).progress().states(),
            final(self).progress().consumed() == old(self).progress().consumed(),
            final(self).progress().pending() == old(self).progress().pending(),
            final(self).progress().items() == old(self).progress().items(),
    {
        self.progress.can_progress(i)
    }

    /// Child `i`, which was pending, completed with `value`: it is kept.
    pub fn on_ready(&mut self, i: usize, value: R)
        requires
            old(self).wf(),
            i < N,
            old(self).progress().states()[i as int] == PollState::Pending,
            !old(self).progress().consumed(),
        ensures
            final(self).wf(),
            final(self).progress().items() == old(self).progress().items().update(i as int, Some(value)),
            final(self).progress().states() == old(self).progress().states().update(i as int, PollState::Ready),
            final(self).progress().pending() == old(self).progress().pending() - 1,
            final(self).progress().ready() == old(self).progress().ready(),
            !final(self).progress().consumed(),
    {
        self.progress.complete_child(i, Some(value))
    }

    /// End a poll: once no child is pending, the outputs in child order; every
    /// child is then consumed.
    pub fn poll_end(&mut self) -> (r: Option<[R; N]>)
        requires
            old(self).wf(),
            !old(self).progress().consumed(),
        ensures
            final(self).progress().ready() == old(self).progress().ready(),
            old(self).progress().pending() == 0 ==> {
                &&& r is Some
                &&& r->0@ == Seq::new(N as nat, |i: int| old(self).progress().items()[i]->Some_0)
                &&& final(self).wf()
                &&& final(self).progress().consumed()
                &&& final(self).progress().states() == Seq::new(N as nat, |i: int| PollState::Consumed)
            },
            old(self).progress().pending() > 0 ==> r is None && *final(self) == *old(self),
    {
        match self.progress.finish(PollState::Consumed) {
            Some(items) => match array_from_vec(items) {
                Ok(arr) => Some(arr),
                Err(_) => None,
            },
            None => None,
        }
    }
}

} // verus!
