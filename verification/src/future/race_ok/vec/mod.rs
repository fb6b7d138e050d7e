//! Racing a vector of fallible children for the first success.

use vstd::prelude::*;

use crate::future::common::vec::CombinatorVec;
use crate::future::race_ok::RaceOkBehavior;

pub mod error;

verus! {

/// Wait for the first successful child to complete: the bookkeeping of a
/// race-ok over a vector.
pub type RaceOk<T, E> = CombinatorVec<Result<T, E>, RaceOkBehavior>;

} // verus!
