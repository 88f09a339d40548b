//! The ways in which a signature computation or a comparison can fail.

use vstd::prelude::*;

verus! {

/// Why an operation refused its input.
#[derive(Clone, Copy, Debug, PartialEq, Eq, Structural)]
pub enum SignatureError {
    /// The buffer does not hold whole rows of four-byte pixels of the stated
    /// width, the image is empty, or the grid size is below two.
    InvalidDimensions,
    /// Two vectors of different lengths were handed to the comparator.
    LengthMismatch,
    /// The cuts from the two sides of the grid cross, so that nothing is
    /// left to sample, or a sampling window would reach outside the grid.
    OutOfRange,
}

} // verus!
