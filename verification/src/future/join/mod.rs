//! Wait for all children to complete.

use vstd::prelude::*;

use crate::future::common::array::CombinatorBehaviorArray;
use crate::future::common::tuple::{TupleMaybeReturn, TupleWhenCompleted};
use crate::future::common::vec::CombinatorBehaviorVec;

pub mod array;
pub mod tuple;
pub mod vec;

verus! {

/// Keep every output; once all are kept, they are the output, in child order.
#[derive(Debug)]
pub struct JoinBehavior;

impl<R, const N: usize> CombinatorBehaviorArray<R, N> for JoinBehavior {
    type Output = [R; N];

    type StoredItem = R;

    open spec fn maybe_return_spec(idx: usize, res: R) -> Result<R, [R; N]> {
        Ok(res)
    }

    open spec fn may_complete() -> bool {
        true
    }

    open spec fn is_completed_output(arr: Seq<R>, out: [R; N]) -> bool {
        out@ == arr
    }

    proof fn lemma_store_means_complete(idx: usize, res: R) {
    }

    fn maybe_return(_idx: usize, res: R) -> (r: Result<R, [R; N]>) {
        Ok(res)
    }

    fn when_completed_arr(arr: [R; N]) -> (r: [R; N]) {
        arr
    }
}

impl<R> CombinatorBehaviorVec<R> for JoinBehavior {
    type Output = Vec<R>;

    type StoredItem = R;

    open spec fn maybe_return_spec(idx: usize, res: R) -> Result<R, Vec<R>> {
        Ok(res)
    }

    open spec fn may_complete() -> bool {
        true
    }

    open spec fn is_completed_output(vec: Seq<R>, out: Vec<R>) -> bool {
        out@ == vec
    }

    proof fn lemma_store_means_complete(idx: usize, res: R) {
    }

    fn maybe_return(_idx: usize, res: R) -> (r: Result<R, Vec<R>>) {
        Ok(res)
    }

    fn when_completed(vec: Vec<R>) -> (r: Vec<R>) {
        vec
    }
}

impl<R, O> TupleMaybeReturn<R, O> for JoinBehavior {
    type StoredItem = R;

    open spec fn maybe_return_spec(idx: usize, res: R) -> Result<R, O> {
        Ok(res)
    }

    fn maybe_return(_idx: usize, res: R) -> (r: Result<R, O>) {
        Ok(res)
    }
}

impl<S> TupleWhenCompleted<S, S> for JoinBehavior {
    open spec fn may_complete() -> bool {
        true
    }

    open spec fn when_completed_spec(stored_items: S) -> S {
        stored_items
    }

    fn when_completed(stored_items: S) -> (r: S) {
        stored_items
    }
}

/// A join keeps every output as it comes, under its child's index: nothing
/// is returned early, whatever the child or the output.
pub proof fn law_join_keeps_every_output<R, const N: usize>(idx: usize, res: R)
    ensures
        <JoinBehavior as CombinatorBehaviorArray<R, N>>::maybe_return_spec(idx, res) == Ok::<R, [R; N]>(res),
        <JoinBehavior as CombinatorBehaviorVec<R>>::maybe_return_spec(idx, res) == Ok::<R, Vec<R>>(res),
{
}

/// A completed join over an array hands out one output per child, child
/// `i`'s output at position `i`.
pub proof fn law_array_join_output<R, const N: usize>(kept: Seq<R>, out: [R; N])
    requires
        <JoinBehavior as CombinatorBehaviorArray<R, N>>::is_completed_output(kept, out),
    ensures
        out@.len() == kept.len(),
        forall|i: int| 0 <= i < kept.len() ==> #[trigger] out@[i] == kept[i],
{
}

/// A completed join over a vector hands out one output per child, child
/// `i`'s output at position `i`: none is dropped, added or moved.
pub proof fn law_vec_join_output<R>(kept: Seq<R>, out: Vec<R>)
    requires
        <JoinBehavior as CombinatorBehaviorVec<R>>::is_completed_output(kept, out),
    ensures
        out@.len() == kept.len(),
        forall|i: int| 0 <= i < kept.len() ==> #[trigger] out@[i] == kept[i],
{
}

/// A completed join over a tuple hands out the kept outputs as they are.
pub proof fn law_tuple_join_output<S>(kept: S)
    ensures
        <JoinBehavior as TupleWhenCompleted<S, S>>::when_completed_spec(kept) == kept,
        <JoinBehavior as TupleWhenCompleted<S, S>>::may_complete(),
{
}

/// The outputs of a join do not depend on the order in which the children
/// complete: keeping child `i`'s output and then child `j`'s gives the same
/// outputs, slot by slot, as the other way round.
pub proof fn law_join_order_independent<R>(items: Seq<Option<R>>, i: int, a: R, j: int, b: R)
    requires
        0 <= i < items.len(),
        0 <= j < items.len(),
        i != j,
    ensures
        items.update(i, Some(a)).update(j, Some(b)) == items.update(j, Some(b)).update(i, Some(a)),
{
    assert(items.update(i, Some(a)).update(j, Some(b)) =~= items.update(j, Some(b)).update(i, Some(a)));
}

} // verus!
