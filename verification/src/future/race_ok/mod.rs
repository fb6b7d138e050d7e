//! Wait for the first child to complete successfully.

use vstd::prelude::*;

use crate::future::common::array::CombinatorBehaviorArray;
use crate::future::common::tuple::{TupleMaybeReturn, TupleWhenCompleted};
use crate::future::common::vec::CombinatorBehaviorVec;
use crate::future::race_ok::error::AggregateError;

pub mod array;
pub mod error;
pub mod vec;

verus! {

/// Return the first success at once; keep every error, and once all children
/// have failed, return their errors, in child order.
#[derive(Debug)]
pub struct RaceOkBehavior;

/// What becomes of one child's result: a success is returned at once (`Err`
/// of the outer result), an error is kept (`Ok`).
pub open spec fn race_ok_step<T, E, O>(res: Result<T, E>, wrap: spec_fn(T) -> O) -> Result<E, O> {
    match res {
        Ok(v) => Err(wrap(v)),
        Err(e) => Ok(e),
    }
}

impl<T, E, const N: usize> CombinatorBehaviorArray<Result<T, E>, N> for RaceOkBehavior {
    type Output = Result<T, AggregateError<[E; N]>>;

    type StoredItem = E;

    open spec fn maybe_return_spec(idx: usize, res: Result<T, E>) -> Result<E, Result<T, AggregateError<[E; N]>>> {
        race_ok_step(res, |v: T| Ok(v))
    }

    open spec fn may_complete() -> bool {
        true
    }

    open spec fn is_completed_output(arr: Seq<E>, out: Result<T, AggregateError<[E; N]>>) -> bool {
        out matches Err(agg) && agg.errors@ == arr
    }

    proof fn lemma_store_means_complete(idx: usize, res: Result<T, E>) {
    }

    fn maybe_return(_idx: usize, res: Result<T, E>) -> (r: Result<E, Result<T, AggregateError<[E; N]>>>) {
        match res {
            Ok(v) => Err(Ok(v)),
            Err(e) => Ok(e),
        }
    }

    fn when_completed_arr(errors: [E; N]) -> (r: Result<T, AggregateError<[E; N]>>) {
        Err(AggregateError { errors })
    }
}

impl<T, E> CombinatorBehaviorVec<Result<T, E>> for RaceOkBehavior {
    type Output = Result<T, AggregateError<Vec<E>>>;

    type StoredItem = E;

    open spec fn maybe_return_spec(idx: usize, res: Result<T, E>) -> Result<E, Result<T, AggregateError<Vec<E>>>> {
        race_ok_step(res, |v: T| Ok(v))
    }

    open spec fn may_complete() -> bool {
        true
    }

    open spec fn is_completed_output(vec: Seq<E>, out: Result<T, AggregateError<Vec<E>>>) -> bool {
        out matches Err(agg) && agg.errors@ == vec
    }

    proof fn lemma_store_means_complete(idx: usize, res: Result<T, E>) {
    }

    fn maybe_return(_idx: usize, res: Result<T, E>) -> (r: Result<E, Result<T, AggregateError<Vec<E>>>>) {
        match res {
            Ok(v) => Err(Ok(v)),
            Err(e) => Ok(e),
        }
    }

    fn when_completed(errors: Vec<E>) -> (r: Result<T, AggregateError<Vec<E>>>) {
        Err(AggregateError { errors })
    }
}

impl<T, E, AggE> TupleMaybeReturn<Result<T, E>, Result<T, AggE>> for RaceOkBehavior {
    type StoredItem = E;

    open spec fn maybe_return_spec(idx: usize, res: Result<T, E>) -> Result<E, Result<T, AggE>> {
        race_ok_step(res, |v: T| Ok(v))
    }

    fn maybe_return(_idx: usize, res: Result<T, E>) -> (r: Result<E, Result<T, AggE>>) {
        match res {
            // If subfuture returns Ok we want to early return from the combinator.
            // We do this by returning Err to the combinator.
            Ok(t) => Err(Ok(t)),
            // If subfuture returns Err, we keep the error for potential use in AggregateError.
            Err(e) => Ok(e),
        }
    }
}

impl<T, AggE> TupleWhenCompleted<AggE, Result<T, AggregateError<AggE>>> for RaceOkBehavior {
    open spec fn may_complete() -> bool {
        true
    }

    open spec fn when_completed_spec(errors: AggE) -> Result<T, AggregateError<AggE>> {
        Err(AggregateError { errors })
    }

    // If we get here, it must have been that none of the subfutures early returned.
    // This means all of them failed. In this case we returned an AggregateError with the errors we kept.
    fn when_completed(errors: AggE) -> (r: Result<T, AggregateError<AggE>>) {
        Err(AggregateError { errors })
    }
}

/// A race-ok returns a success at once and keeps an error, whatever the
/// child: `Ok(v)` ends the race with `Ok(v)`, `Err(e)` keeps `e`.
pub proof fn law_race_ok_step<T, E, const N: usize>(idx: usize, v: T, e: E)
    ensures
        <RaceOkBehavior as CombinatorBehaviorArray<Result<T, E>, N>>::maybe_return_spec(idx, Ok(v))
            == Err::<E, Result<T, AggregateError<[E; N]>>>(Ok(v)),
        <RaceOkBehavior as CombinatorBehaviorArray<Result<T, E>, N>>::maybe_return_spec(idx, Err(e))
            == Ok::<E, Result<T, AggregateError<[E; N]>>>(e),
        <RaceOkBehavior as CombinatorBehaviorVec<Result<T, E>>>::maybe_return_spec(idx, Ok(v))
            == Err::<E, Result<T, AggregateError<Vec<E>>>>(Ok(v)),
        <RaceOkBehavior as CombinatorBehaviorVec<Result<T, E>>>::maybe_return_spec(idx, Err(e))
            == Ok::<E, Result<T, AggregateError<Vec<E>>>>(e),
{
}

/// When every child of a race-ok over an array has failed, its output is an
/// error holding one error per child, child `i`'s error at position `i`.
pub proof fn law_array_race_ok_errors<T, E, const N: usize>(kept: Seq<E>, out: Result<T, AggregateError<[E; N]>>)
    requires
        <RaceOkBehavior as CombinatorBehaviorArray<Result<T, E>, N>>::is_completed_output(kept, out),
    ensures
        out is Err,
        out->Err_0.errors@.len() == kept.len(),
        forall|i: int| 0 <= i < kept.len() ==> #[trigger] out->Err_0.errors@[i] == kept[i],
{
}

/// When every child of a race-ok over a vector has failed, its output is an
/// error holding one error per child, child `i`'s error at position `i`:
/// none is dropped, added or moved.
pub proof fn law_vec_race_ok_errors<T, E>(kept: Seq<E>, out: Result<T, AggregateError<Vec<E>>>)
    requires
        <RaceOkBehavior as CombinatorBehaviorVec<Result<T, E>>>::is_completed_output(kept, out),
    ensures
        out is Err,
        out->Err_0.errors@.len() == kept.len(),
        forall|i: int| 0 <= i < kept.len() ==> #[trigger] out->Err_0.errors@[i] == kept[i],
{
}

/// When every child of a race-ok over a tuple has failed, its output is an
/// error holding the kept errors as they are.
pub proof fn law_tuple_race_ok_errors<T, AggE>(kept: AggE)
    ensures
        <RaceOkBehavior as TupleWhenCompleted<AggE, Result<T, AggregateError<AggE>>>>::when_completed_spec(kept)
            == Err::<T, AggregateError<AggE>>(AggregateError { errors: kept }),
{
}

} // verus!
