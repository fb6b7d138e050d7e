//! Racing a vector of children.

use vstd::prelude::*;

use crate::future::common::vec::CombinatorVec;
use crate::future::race::RaceBehavior;

verus! {

/// Wait for the first child to complete: the bookkeeping of a race over a
/// vector, whose output is the first output to come.
pub type Race<R> = CombinatorVec<R, RaceBehavior>;

} // verus!
