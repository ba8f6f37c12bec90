//! Declarations of the outside crates' types and the trusted wrappers
//! through which the verified code calls them.

pub mod slot_map;
pub mod hash_tables;
pub mod small_vec;
pub mod slice_ops;
pub mod sorting;
