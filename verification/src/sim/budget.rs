//! Simulation detail levels.
use vstd::prelude::*;

verus! {

/// Simulation zone for an entity, by distance from the camera.
#[derive(Debug, Clone, Copy, PartialEq, Eq, Structural)]
pub enum SimZone {
    /// Full 60Hz simulation with individual agent tracking
    Active,
    /// 4Hz heartbeat simulation — reduced detail
    Heartbeat,
    /// Statistical pool only — no individual tracking
    Statistical,
}

} // verus!
