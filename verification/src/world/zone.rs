//! Zone kinds of the zoning grid.
use vstd::prelude::*;

verus! {

/// What a zone cell is zoned for.
#[derive(Debug, Clone, Copy, PartialEq, Eq, Structural, Hash)]
pub enum ZoneType {
    Empty,
    Residential,
    Commercial,
    Industrial,
    Office,
    Park,
    Civic,
    Road,
}

} // verus!
