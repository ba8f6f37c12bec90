//! Resources and zone kinds of the economic ledger.
use vstd::prelude::*;

verus! {

/// A resource with a supply and a demand per zone.
#[derive(Debug, Clone, Copy, PartialEq, Eq, Structural, Hash)]
pub enum ResourceType {
    Housing,
    Jobs,
    Goods,
    Power,
    Water,
    Food,
    Healthcare,
    Education,
}

/// Zone kinds the economy keeps registers for.
#[derive(Debug, Clone, Copy, PartialEq, Eq, Structural, Hash)]
pub enum ZoneType {
    Residential,
    Commercial,
    Industrial,
    Office,
    Park,
    Civic,
}

} // verus!
