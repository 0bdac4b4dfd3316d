//! Bijective integer encodings of orientation vectors and of permutations.

pub mod orientation;
pub mod parity;
pub mod permutation;
