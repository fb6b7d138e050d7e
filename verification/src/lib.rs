//! Concurrency combinators for futures and streams: the bookkeeping that decides
//! which child to poll, what to keep and when to finish, with its contracts.

use vstd::prelude::*;

pub mod utils;
pub mod collections;
pub mod concurrent_stream;
pub mod first_ok;
pub mod future;
pub mod join;
pub mod merge;
pub mod race;

verus! {
}
