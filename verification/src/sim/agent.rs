//! Kinds of simulated agents.
use vstd::prelude::*;

verus! {

/// What an agent is.
#[derive(Debug, Clone, Copy, PartialEq, Eq, Structural)]
pub enum AgentKind {
    Citizen,
    Vehicle,
    Emergency,
    Tourist,
}

/// A citizen's employment.
#[derive(Debug, Clone, Copy, PartialEq, Eq, Structural)]
pub enum EmploymentStatus {
    Employed,
    Unemployed,
    Retired,
    Student,
}

} // verus!
