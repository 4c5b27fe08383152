//! Error taxonomy: shape mismatches and training-cache misuse are
//! configuration or programmer errors; they surface immediately as values of
//! this type and abort the call that raised them.

use vstd::prelude::*;

verus! {

/// A shape or precondition violation detected by the numeric core.
#[derive(Clone, Copy, PartialEq, Eq, Structural, Debug)]
pub enum ShapeError {
    /// A tensor has a different channel count than required.
    ChannelMismatch,
    /// A filter is larger than the matrix it is convolved against.
    FilterTooLarge,
    /// A matrix to be pooled has an odd number of rows or columns.
    OddDimensions,
    /// Rows of unequal length were offered as a matrix.
    RaggedRows,
    /// An input does not match the configured spatial or vector shape.
    WrongShape,
}

} // verus!
