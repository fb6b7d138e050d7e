//! Keyed groups of children.

pub mod slab_store;
pub mod removal_queue;
pub mod key_order;
pub mod inner_group;
pub mod group_inner;
