//! Wait for the first child to complete.

pub mod array;
