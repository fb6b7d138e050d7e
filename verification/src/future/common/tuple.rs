//! What a combinator over a tuple of children asks of its behavior. The
//! bookkeeping of such a combinator is a `CombinatorSlots`; its outputs, of
//! different types, are kept by the tuple itself.

use vstd::prelude::*;

verus! {

/// An internal trait.
/// Join/Race/RaceOk/TryJoin uses this to construct their CombinatorTupleN.
/// This trait is implemented on tuple of the format
/// ((fut1, fut2,...), Behavior ZST, PhantomData<OutputType>).
pub trait CombineTuple {
    /// The resulting combinator future.
    type Combined;
    fn combine(self) -> Self::Combined;
}

/// This and [TupleWhenCompleted] takes the role of [super::array::CombinatorBehaviorArray] but for tuples.
/// Type parameters:
/// R = the return type of a subfuture.
/// O = the return type of the combinator future.
pub trait TupleMaybeReturn<R, O> {
    /// The type of the item to store for this subfuture.
    type StoredItem;

    /// What `maybe_return` gives for the output `res` of child `idx`.
    spec fn maybe_return_spec(idx: usize, res: R) -> Result<Self::StoredItem, O>;

    /// Take the return value of a subfuture and decide whether to store it or early return.
    /// Ok(v) = store v.
    /// Err(o) = early return o.
    fn maybe_return(idx: usize, res: R) -> (r: Result<Self::StoredItem, O>)
        ensures
            r == Self::maybe_return_spec(idx, res),
    ;
}

/// This and [TupleMaybeReturn] takes the role of [super::array::CombinatorBehaviorArray] but for tuples.
/// Type parameters:
/// S = the type of the stored tuples = (F1::StoredItem, F2::StoredItem, ...).
/// O = the return type of the combinator future.
pub trait TupleWhenCompleted<S, O> {
    /// Whether the combinator can complete by keeping every output.
    spec fn may_complete() -> bool;

    /// What `when_completed` gives for the kept outputs.
    spec fn when_completed_spec(stored_items: S) -> O;

    /// Called when all subfutures are completed and none caused the combinator to return early.
    /// The argument is an array of the kept item from each subfuture.
    fn when_completed(stored_items: S) -> (r: O)
        requires
            Self::may_complete(),
        ensures
            r == Self::when_completed_spec(stored_items),
    ;
}

/// Turns the result of a child that cannot fail into its value.
pub trait MapResult<R> {
    type FinalResult;

    /// Whether `result` is one this mapping accepts.
    spec fn accepts(result: R) -> bool;

    /// What `to_final_result` gives for `result`.
    spec fn to_final_result_spec(result: R) -> Self::FinalResult;

    fn to_final_result(result: R) -> (r: Self::FinalResult)
        requires
            Self::accepts(result),
        ensures
            r == Self::to_final_result_spec(result),
    ;
}

} // verus!
