//! Wait for multiple children to complete, polling each until it is done.

pub mod array;
pub mod vec;
