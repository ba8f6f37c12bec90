//! What game scripts name: keys by their names.

pub mod input;
