//! Merging the successes of a vector of fallible children.

use vstd::prelude::*;

use crate::future::common::done::{all_done, done_outputs, ok_values, DoneSlots, MaybeDone};

verus! {

/// Waits for similarly-typed fallible children: the bookkeeping. Each poll
/// goes through the children in order, polling those still running; the
/// first error is returned at once, and once every child is done their
/// successes, in child order, are the output.
pub struct TryJoin<T, E> {
    elems: DoneSlots<Result<T, E>>,
}

impl<T, E> TryJoin<T, E> {
    /// The state of every child.
    pub closed spec fn elems(&self) -> Seq<MaybeDone<Result<T, E>>> {
        self.elems@
    }

    pub closed spec fn wf(&self) -> bool {
        forall|i: int| 0 <= i < self.elems@.len() ==> !(#[trigger] self.elems@[i] matches MaybeDone::Done(Err(_)))
    }

    pub fn new(len: usize) -> (j: Self)
        ensures
            j.wf(),
            j.elems() == Seq::new(len as nat, |i: int| MaybeDone::<Result<T, E>>::Running),
    {
        TryJoin { elems: DoneSlots::new(len) }
    }

    pub fn len(&self) -> (n: usize)
        ensures
            n == self.elems().len(),
    {
        self.elems.len()
    }

    /// Whether child `i` is still running, and so is to be polled.
    pub fn is_running(&self, i: usize) -> (b: bool)
        requires
            i < self.elems().len(),
        ensures
            b == self.elems()[i as int] is Running,
    {
        self.elems.is_running(i)
    }

    /// Whether the output of child `i` has been taken: it must not be polled.
    pub fn is_gone(&self, i: usize) -> (b: bool)
        requires
            i < self.elems().len(),
        ensures
            b == self.elems()[i as int] is Gone,
    {
        self.elems.is_gone(i)
    }

    /// Child `i`, which was running, completed with `output`: a success is
    /// kept, an error is returned at once.
    pub fn on_ready(&mut self, i: usize, output: Result<T, E>) -> (r: Option<E>)
        requires
            old(self).wf(),
            i < old(self).elems().len(),
            old(self).elems()[i as int] is Running,
        ensures
            final(self).wf(),
            match output {
                Ok(t) => r is None && final(self).elems() == old(self).elems().update(i as int, MaybeDone::Done(Ok(t))),
                Err(e) => r == Some(e) && final(self).elems() == old(self).elems().update(i as int, MaybeDone::Gone),
            },
    {
        self.elems.complete(i, output);
        let r = self.elems.take_err(i);
        proof {
            assert(self.elems@ =~= match output {
                Ok(t) => old(self).elems().update(i as int, MaybeDone::Done(Ok(t))),
                Err(e) => old(self).elems().update(i as int, MaybeDone::Gone),
            });
        }
        r
    }

    /// End a poll: once every child is done, the successes in child order.
    pub fn poll_end(&mut self) -> (r: Option<Vec<T>>)
        requires
            old(self).wf(),
        ensures
            all_done(old(self).elems()) ==> r is Some && r->0@ == ok_values(done_outputs(old(self).elems()))
                && final(self).elems() == Seq::new(old(self).elems().len(), |i: int| MaybeDone::<Result<T, E>>::Gone),
            !all_done(old(self).elems()) ==> r is None && final(self).elems() == old(self).elems(),
    {
        if !self.elems.all_done() {
            return None;
        }
        proof {
            assert forall|i: int| 0 <= i < self.elems@.len() implies #[trigger] self.elems@[i] matches MaybeDone::Done(Ok(_)) by {
                assert(self.elems@[i] is Done);
            }
        }
        Some(self.elems.take_all_oks())
    }
}

} // verus!
