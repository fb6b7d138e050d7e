//! Joining a tuple of children.

use vstd::prelude::*;

use crate::future::common::tuple::MapResult;

verus! {

/// The outputs of the children of a join cannot be errors: each is unwrapped.
#[derive(Debug)]
pub struct MapResultJoin;

impl<R, S> MapResult<Result<R, S>> for MapResultJoin {
    type FinalResult = R;

    open spec fn accepts(result: Result<R, S>) -> bool {
        result is Ok
    }

    open spec fn to_final_result_spec(result: Result<R, S>) -> R {
        result->Ok_0
    }

    fn to_final_result(result: Result<R, S>) -> (r: R) {
        match result {
            Ok(r) => r,
            Err(_s) => {
                proof {
                    assert(false);
                }
                let never: Option<R> = None;
                never.unwrap()
            },
        }
    }
}

} // verus!
