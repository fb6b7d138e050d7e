//! A collection of errors, in a vector.

use vstd::prelude::*;

verus! {

/// A collection of errors.
pub struct AggregateError<E> {
    pub(crate) inner: Vec<E>,
}

impl<E> AggregateError<E> {
    /// The errors, in order.
    pub closed spec fn errors(&self) -> Seq<E> {
        self.inner@
    }

    pub fn new(inner: Vec<E>) -> (r: Self)
        ensures
            r.errors() == inner@,
    {
        Self { inner }
    }

    pub fn deref(&self) -> (v: &Vec<E>)
        ensures
            v@ == self.errors(),
    {
        &self.inner
    }

    pub fn deref_mut(&mut self) -> (v: &mut Vec<E>)
        ensures
            v@ == old(self).errors(),
            final(self).errors() == final(v)@,
    {
        &mut self.inner
    }

    /// The errors, by value.
    pub fn into_inner(self) -> (v: Vec<E>)
        ensures
            v@ == self.errors(),
    {
        self.inner
    }
}

} // verus!
