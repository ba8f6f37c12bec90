//! The world grid: chunk coordinates, chunk streaming order and zone kinds.

pub mod chunk;
pub mod zone;
