//! A compressed Pedersen commitment scheme over a small test curve.
//!
//! The commitment to a byte string is the affine x-coordinate of a
//! Pedersen-style group element: a sum of fixed public base points selected
//! by the message bits, plus a blinding term.  Dropping the y-coordinate
//! halves the representation at the cost of a one-bit sign ambiguity; every
//! reported commitment is checked to lie in the prime-order subgroup before
//! its x-coordinate is released.

pub mod commitment;
pub mod curve;
pub mod errors;
pub mod field;
pub mod params;

pub use commitment::{PedersenCompressedCommitment, MAX_INPUT_BYTES};
pub use curve::{Point, COFACTOR, CURVE_A, CURVE_B, SUBGROUP_ORDER};
pub use errors::CommitmentError;
pub use field::FIELD_MODULUS;
pub use params::{PedersenCommitmentParameters, NUM_BASES, NUM_WINDOWS, PARAMS_BYTE_LEN, WINDOW_SIZE};
