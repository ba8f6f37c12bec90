//! The entity-component store.

pub mod archetype;
pub mod component;
pub mod entity;
pub mod storage;
pub mod world;
pub mod command;
pub mod query;
pub mod system;
