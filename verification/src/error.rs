//! Why a field could not be made.

use vstd::prelude::*;

verus! {

/// The ways in which a request for a field is turned down.
#[derive(Clone, Copy, Debug, PartialEq, Eq)]
pub enum NoiseError {
    /// The width or the height is not positive, or the field would hold
    /// more cells than can be addressed.
    InvalidDimensions,
    /// The padding of a padded field is not positive.
    InvalidPadding,
    /// Fewer random words were supplied than the field has cells to draw.
    NotEnoughWords,
}

} // verus!
