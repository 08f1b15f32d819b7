use vstd::prelude::*;

verus! {

/// Failure kinds reported by the filter engine and the segmenter.
#[derive(Debug, PartialEq, Eq, Structural, Clone, Copy)]
pub enum TisuError {
    /// A grid access lay outside the grid's bounds.
    OutOfBounds,
    /// A construction input was malformed.
    InvalidArgument,
    /// A pattern, substitute or destination grid had an unusable size.
    InvalidMapSize,
    /// A scan was exhausted without finding what was asked for.
    NotFound,
    /// An invariant that should always hold was violated.
    Unexpected,
}

} // verus!
