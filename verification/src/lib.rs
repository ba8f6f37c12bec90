//! Canopy engine core, verified: the entity-component store, the asset
//! container format, input bookkeeping and the grid path search.

pub mod outside;
pub mod assets;
pub mod app_core;
pub mod ecs;
pub mod pathfinding;
pub mod platform;
pub mod renderer;
pub mod script;
pub mod sim;
pub mod text;
pub mod world;
