//! What the geometry pipeline reports instead of a result.

use vstd::prelude::*;

verus! {

/// Why a computation gave no result.
#[derive(Debug, Clone, Copy, PartialEq, Eq, Structural)]
pub enum GeometryError {
    /// A coordinate or a sum left the range that the arithmetic is exact in.
    NumericOverflow,
    /// Every box is flat, so there is no volume to weigh positions by.
    ZeroVolume,
}

} // verus!
