//! Wait for all fallible children to succeed, or the first to fail.

use vstd::prelude::*;

use crate::future::common::tuple::{TupleMaybeReturn, TupleWhenCompleted};

pub mod array;
pub mod vec;

verus! {

/// Keep every success; the first error is returned at once, and once every
/// child has succeeded their values are the output.
#[derive(Debug)]
pub struct TryJoinBehavior;

impl<T, E, O> TupleMaybeReturn<Result<T, E>, Result<O, E>> for TryJoinBehavior {
    type StoredItem = T;

    open spec fn maybe_return_spec(idx: usize, res: Result<T, E>) -> Result<T, Result<O, E>> {
        match res {
            Ok(v) => Ok(v),
            Err(e) => Err(Err(e)),
        }
    }

    fn maybe_return(_idx: usize, res: Result<T, E>) -> (r: Result<T, Result<O, E>>) {
        match res {
            Ok(v) => Ok(v),
            Err(e) => Err(Err(e)),
        }
    }
}

impl<S, E> TupleWhenCompleted<S, Result<S, E>> for TryJoinBehavior {
    open spec fn may_complete() -> bool {
        true
    }

    open spec fn when_completed_spec(stored_items: S) -> Result<S, E> {
        Ok(stored_items)
    }

    fn when_completed(stored_items: S) -> (r: Result<S, E>) {
        Ok(stored_items)
    }
}

} // verus!
