//! Wait for all fallible children to succeed, or the first to fail.

pub mod vec;
