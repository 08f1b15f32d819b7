use vstd::prelude::*;

verus! {

/// Failure kinds reported by the grid, rectangle and painting primitives.
#[derive(Debug, PartialEq, Eq, Structural, Clone, Copy)]
pub enum RegenError {
    /// A grid access lay outside the grid's bounds.
    OutOfBounds,
    /// A construction input was malformed.
    InvalidArgument,
    /// Two grids that must agree in size did not.
    InvalidMapSize,
    /// A scan was exhausted without finding what was asked for.
    NotFound,
    /// An invariant that should always hold was violated.
    Unexpected,
}

} // verus!
