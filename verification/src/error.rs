use vstd::prelude::*;

verus! {

/// The error kinds that backend operations report instead of panicking.
#[derive(Clone, Copy, Debug, PartialEq, Eq, Structural)]
pub enum RenderError {
    /// An invalid frame handle or an out-of-bounds position.
    IndexOutOfRange,
    /// Operand frames' shapes are incompatible.
    ShapeMismatch,
    /// A dimension that must be positive is zero.
    InvalidSize,
    /// Surfaced from an image codec collaborator; opaque to the core.
    DecodeFailure,
}

} // verus!
