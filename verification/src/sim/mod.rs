//! Simulation kinds: agents, simulation zones and economic resources.

pub mod agent;
pub mod budget;
pub mod economy;
