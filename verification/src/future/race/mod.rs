//! Wait for the first child to complete.

use vstd::prelude::*;
use core::convert::Infallible;

use crate::future::common::tuple::{TupleMaybeReturn, TupleWhenCompleted};
use crate::future::common::vec::CombinatorBehaviorVec;

pub mod vec;

verus! {

/// Return the first output at once; nothing is ever kept.
#[derive(Debug)]
pub struct RaceBehavior;

impl<R> CombinatorBehaviorVec<R> for RaceBehavior {
    type Output = R;

    type StoredItem = Infallible;

    open spec fn maybe_return_spec(idx: usize, res: R) -> Result<Infallible, R> {
        Err(res)
    }

    /// A race returns the first output, so it never completes by keeping
    /// outputs: a race over no children has nothing to return.
    open spec fn may_complete() -> bool {
        false
    }

    open spec fn is_completed_output(vec: Seq<Infallible>, out: R) -> bool {
        false
    }

    proof fn lemma_store_means_complete(idx: usize, res: R) {
    }

    fn maybe_return(_idx: usize, res: R) -> (r: Result<Infallible, R>) {
        Err(res)
    }

    fn when_completed(_vec: Vec<Infallible>) -> (r: R) {
        // `may_complete` is false: this is never reached.
        let never: Option<R> = None;
        never.unwrap()
    }
}

impl<T> TupleMaybeReturn<T, T> for RaceBehavior {
    // We early return as soon as any subfuture finishes.
    // Results from subfutures are never stored.
    type StoredItem = Infallible;

    open spec fn maybe_return_spec(idx: usize, res: T) -> Result<Infallible, T> {
        Err(res)
    }

    fn maybe_return(_idx: usize, res: T) -> (r: Result<Infallible, T>) {
        // Err = early return.
        Err(res)
    }
}

impl<S, O> TupleWhenCompleted<S, O> for RaceBehavior {
    open spec fn may_complete() -> bool {
        false
    }

    open spec fn when_completed_spec(stored_items: S) -> O {
        arbitrary()
    }

    // We always early return, so we should never get here.
    fn when_completed(_stored_items: S) -> (r: O) {
        let never: Option<O> = None;
        never.unwrap()
    }
}

} // verus!
