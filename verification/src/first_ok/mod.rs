//! Wait for the first child to complete successfully.

pub mod array;
