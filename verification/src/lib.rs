use vstd::prelude::*;

pub mod batch_inversion;
pub mod commit_key;
pub mod domain;
pub mod kzg;
pub mod opening_key;
pub mod params;
pub mod proofs;
pub mod points;
pub mod polynomial;
pub mod scalar;
pub mod utils;

verus! {

/// The number of bytes needed to represent a scalar.
pub const SCALAR_SERIALIZED_SIZE: usize = 32;

/// The number of bytes needed to represent a compressed G1 point.
pub const G1_POINT_SERIALIZED_SIZE: usize = 48;

/// The number of bytes needed to represent a compressed G2 point.
pub const G2_POINT_SERIALIZED_SIZE: usize = 96;

} // verus!
