//! Twisty-puzzle state spaces: exact piece and sticker models of the 3x3x3 cube,
//! integer coordinates for its sub-structures, the move algebra, and a generic
//! builder of move tables.

use vstd::prelude::*;

pub mod cube333;
pub mod generic;
pub mod moves;
pub mod ranking;

verus! {

/// The error of converting an integer to a tag of a closed enumeration.
#[derive(Debug, Copy, Clone, PartialEq, Eq, Hash, Structural)]
pub enum TryFromIntToEnumError {
    /// The integer is not the index of any tag.
    OutOfBounds,
}

} // verus!
