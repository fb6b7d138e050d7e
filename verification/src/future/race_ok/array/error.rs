//! A collection of errors, in an array.

use vstd::prelude::*;

verus! {

/// A collection of errors.
pub struct AggregateError<E, const N: usize> {
    inner: [E; N],
}

impl<E, const N: usize> AggregateError<E, N> {
    /// The errors, in order.
    pub closed spec fn errors(&self) -> Seq<E> {
        self.inner@
    }

    pub fn new(inner: [E; N]) -> (r: Self)
        ensures
            r.errors() == inner@,
    {
        Self { inner }
    }

    pub fn deref(&self) -> (a: &[E; N])
        ensures
            a@ == self.errors(),
    {
        &self.inner
    }

    pub fn deref_mut(&mut self) -> (a: &mut [E; N])
        ensures
            a@ == old(self).errors(),
            final(self).errors() == final(a)@,
    {
        &mut self.inner
    }

    /// The errors, by value.
    pub fn into_inner(self) -> (a: [E; N])
        ensures
            a@ == self.errors(),
    {
        self.inner
    }
}

} // verus!
