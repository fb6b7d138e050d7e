//! The errors of children that all failed.

use vstd::prelude::*;

verus! {

/// A collection of errors returned when [super::RaceOk] fails.
#[derive(Debug)]
pub struct AggregateError<E> {
    /// The errors. Can be a Vec, and Array, or a Tuple.
    pub errors: E,
}

} // verus!
