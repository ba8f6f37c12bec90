//! Engine-level definitions: frame stages.

pub mod config;
pub mod stage;
