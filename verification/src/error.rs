//! What can go wrong while typing or running a scan.

use vstd::prelude::*;

verus! {

/// The failures of a scan. None is recovered from: after a failed run the
/// driver is not to be used again.
#[derive(Debug, Clone, PartialEq, Eq)]
pub enum ScanError {
    /// The trip count input is missing, not a scalar dimension, or negative.
    BadTripCount,
    /// The exit condition refers to no hidden state, or to one that is not a
    /// scalar boolean.
    BadCondition,
    /// A scanned input or output does not have the axis it is scanned on, or
    /// cannot be cut or filled as the mapping asks.
    SliceMismatch,
    /// The mappings do not match each other, the outer inputs, or the body's
    /// inputs and outputs.
    MappingArity,
    /// The body failed at the given iteration.
    BodyFailure { iteration: usize, cause: String },
    /// A symbolic shape has no concrete value that the machine can hold.
    ShapeResolutionFailure,
    /// The position counter cannot be advanced any further.
    PositionOverflow,
}

} // verus!
