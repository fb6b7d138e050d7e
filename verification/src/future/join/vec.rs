//! Joining a vector of children.

use vstd::prelude::*;

use crate::future::common::vec::CombinatorVec;
use crate::future::join::JoinBehavior;

verus! {

/// Waits for similarly-typed children to complete: the bookkeeping of a join
/// over a vector, whose output is every child's output, in order.
pub type Join<R> = CombinatorVec<R, JoinBehavior>;

} // verus!
