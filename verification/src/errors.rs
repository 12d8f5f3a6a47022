//! Error kinds of the commitment scheme.

use vstd::prelude::*;

verus! {

/// Everything that can go wrong while committing or while persisting
/// parameters.
///
/// `InputTooLarge` and `InvalidRandomness` are caller-correctable and come
/// from the commitment primitive; `DegenerateCommitment` and
/// `SubgroupViolation` signal an internal invariant failure and are not
/// retryable; `PersistenceError` covers malformed serialized parameters.
#[derive(Clone, Copy, Debug, PartialEq, Eq, Structural)]
pub enum CommitmentError {
    /// The message does not fit into the configured windows.
    InputTooLarge,
    /// The blinding scalar is not a reduced scalar-field element.
    InvalidRandomness,
    /// The commitment point degenerated to the point at infinity, which has
    /// no x-coordinate.
    DegenerateCommitment,
    /// A point failed the prime-order-subgroup (or curve-membership) check.
    SubgroupViolation,
    /// Serialized parameters could not be parsed.
    PersistenceError,
}

} // verus!
