//! The first success of an array of fallible children.

use vstd::prelude::*;

use crate::future::common::array::array_from_vec;
use crate::future::common::done::{all_done, done_outputs, err_values, DoneSlots, MaybeDone};

verus! {

/// A collection of errors.
pub struct AggregateError<T, const N: usize> {
    inner: [T; N],
}

impl<T, const N: usize> AggregateError<T, N> {
    /// The errors, in order.
    pub closed spec fn errors(&self) -> Seq<T> {
        self.inner@
    }

    pub fn new(inner: [T; N]) -> (r: Self)
        ensures
            r.errors() == inner@,
    {
        Self { inner }
    }

    pub fn deref(&self) -> (a: &[T; N])
        ensures
            a@ == self.errors(),
    {
        &self.inner
    }

    pub fn deref_mut(&mut self) -> (a: &mut [T; N])
        ensures
            a@ == old(self).errors(),
            final(self).errors() == final(a)@,
    {
        &mut self.inner
    }

    /// The errors, by value.
    pub fn into_inner(self) -> (a: [T; N])
        ensures
            a@ == self.errors(),
    {
        self.inner
    }
}

/// Waits for the first successful child: the bookkeeping. Each poll goes
/// through the children in order, polling those still running; the first
/// success is returned at once, and once every child has failed their errors,
/// in child order, are the output.
pub struct FirstOk<T, E, const N: usize> {
    elems: DoneSlots<Result<T, E>>,
}

impl<T, E, const N: usize> FirstOk<T, E, N> {
    /// The state of every child.
    pub closed spec fn elems(&self) -> Seq<MaybeDone<Result<T, E>>> {
        self.elems@
    }

    pub closed spec fn wf(&self) -> bool {
        &&& self.elems@.len() == N
        &&& forall|i: int| 0 <= i < N ==> !(#[trigger] self.elems@[i] matches MaybeDone::Done(Ok(_)))
    }

    pub fn new() -> (f: Self)
        ensures
            f.wf(),
            f.elems() == Seq::new(N as nat, |i: int| MaybeDone::<Result<T, E>>::Running),
    {
        FirstOk { elems: DoneSlots::new(N) }
    }

    /// Whether child `i` is still running, and so is to be polled.
    pub fn is_running(&self, i: usize) -> (b: bool)
        requires
            self.wf(),
            i < N,
        ensures
            b == self.elems()[i as int] is Running,
    {
        self.elems.is_running(i)
    }

    /// Whether the output of child `i` has been taken: it must not be polled.
    pub fn is_gone(&self, i: usize) -> (b: bool)
        requires
            self.wf(),
            i < N,
        ensures
            b == self.elems()[i as int] is Gone,
    {
        self.elems.is_gone(i)
    }

    /// Child `i`, which was running, completed with `output`: a success is
    /// returned at once, an error is kept.
    pub fn on_ready(&mut self, i: usize, output: Result<T, E>) -> (r: Option<T>)
        requires
            old(self).wf(),
            i < N,
            old(self).elems()[i as int] is Running,
        ensures
            final(self).wf(),
            match output {
                Ok(t) => r == Some(t) && final(self).elems() == old(self).elems().update(i as int, MaybeDone::Gone),
                Err(e) => r is None && final(self).elems() == old(self).elems().update(i as int, MaybeDone::Done(Err(e))),
            },
    {
        self.elems.complete(i, output);
        let r = self.elems.take_ok(i);
        proof {
            assert(self.elems@ =~= match output {
                Ok(t) => old(self).elems().update(i as int, MaybeDone::Gone),
                Err(e) => old(self).elems().update(i as int, MaybeDone::Done(Err(e))),
            });
        }
        r
    }

    /// End a poll: once every child is done, all have failed, and their
    /// errors, in child order, are the output.
    pub fn poll_end(&mut self) -> (r: Option<AggregateError<E, N>>)
        requires
            old(self).wf(),
        ensures
            all_done(old(self).elems()) ==> r is Some && r->0.errors() == err_values(done_outputs(old(self).elems()))
                && final(self).elems() == Seq::new(N as nat, |i: int| MaybeDone::<Result<T, E>>::Gone),
            !all_done(old(self).elems()) ==> r is None && final(self).elems() == old(self).elems(),
    {
        if !self.elems.all_done() {
            return None;
        }
        proof {
            assert forall|i: int| 0 <= i < self.elems@.len() implies #[trigger] self.elems@[i] matches MaybeDone::Done(Err(_)) by {
                assert(self.elems@[i] is Done);
            }
        }
        let errs = self.elems.take_all_errs();
        match array_from_vec(errs) {
            Ok(arr) => Some(AggregateError::new(arr)),
            Err(_) => None,
        }
    }
}

} // verus!
