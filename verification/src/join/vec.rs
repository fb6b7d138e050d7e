//! Joining a vector of children, each polled until it is done.

use vstd::prelude::*;

use crate::future::common::done::{all_done, done_outputs, DoneSlots, MaybeDone};

verus! {

/// Waits for similarly-typed children to complete: the bookkeeping. Each
/// poll goes through the children in order, polling those still running; once
/// every child is done their outputs, in child order, are the output.
pub struct Join<O> {
    elems: DoneSlots<O>,
}

impl<O> Join<O> {
    /// The state of every child.
    pub closed spec fn elems(&self) -> Seq<MaybeDone<O>> {
        self.elems@
    }

    pub fn new(len: usize) -> (j: Self)
        ensures
            j.elems() == Seq::new(len as nat, |i: int| MaybeDone::<O>::Running),
    {
        Join { elems: DoneSlots::new(len) }
    }

    pub fn len(&self) -> (n: usize)
        ensures
            n == self.elems().len(),
    {
        self.elems.len()
    }

    /// Whether child `i` is still running, and so is to be polled.
    pub fn is_running(&self, i: usize) -> (b: bool)
        requires
            i < self.elems().len(),
        ensures
            b == self.elems()[i as int] is Running,
    {
        self.elems.is_running(i)
    }

    /// Child `i`, which was running, completed with `output`.
    pub fn on_ready(&mut self, i: usize, output: O)
        requires
            i < old(self).elems().len(),
            old(self).elems()[i as int] is Running,
        ensures
            final(self).elems() == old(self).elems().update(i as int, MaybeDone::Done(output)),
    {
        self.elems.complete(i, output)
    }

    /// End a poll: once every child is done, their outputs in child order.
    pub fn poll_end(&mut self) -> (r: Option<Vec<O>>)
        ensures
            all_done(old(self).elems()) ==> r is Some && r->0@ == done_outputs(old(self).elems())
                && final(self).elems() == Seq::new(old(self).elems().len(), |i: int| MaybeDone::<O>::Gone),
            !all_done(old(self).elems()) ==> r is None && final(self).elems() == old(self).elems(),
    {
        if !self.elems.all_done() {
            return None;
        }
        Some(self.elems.take_all())
    }
}

} // verus!
