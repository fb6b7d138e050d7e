//! Combinators over futures.

pub mod common;
pub mod first_ok;
pub mod future_group;
pub mod future_set;
pub mod join;
pub mod race;
pub mod race_ok;
pub mod try_join;
pub mod try_merge;
