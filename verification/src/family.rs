//! The families of chunk kernels, and which of them to prefer.
//!
//! A family is a way of computing a chunk. Every family computes the same
//! function of the chunk, so the family decides how fast an operation runs
//! and nothing else: neither what it writes nor whether it fails.

use vstd::prelude::*;

verus! {

/// A family of chunk kernels.
#[derive(Debug, Clone, Copy, PartialEq, Eq, Structural)]
pub enum Family {
    /// No chunks at all: every byte goes through the scalar kernel, every
    /// pair of characters through the lookup table.
    Scalar,
    /// Lane kernels by arithmetic: digits by biased add and compare, nibbles
    /// by per-range bias and bound, bytes by shift and or.
    Portable,
    /// Lane kernels by table: digits out of a table of 16 entries, nibbles
    /// out of two tables of 64 entries picked by a high bit of the character,
    /// bytes by multiply and add. The form for a target that has a byte
    /// permute.
    Table,
}

/// The family to prefer on a target: table kernels where it has a byte
/// permute, arithmetic lane kernels where it has vectors at all, and the
/// scalar kernels last.
pub open spec fn preferred_family(has_vectors: bool, has_byte_permute: bool) -> Family {
    if has_vectors && has_byte_permute {
        Family::Table
    } else if has_vectors {
        Family::Portable
    } else {
        Family::Scalar
    }
}

/// Picks the family for a target from what the target was found to have.
pub fn select_family(has_vectors: bool, has_byte_permute: bool) -> (family: Family)
    ensures
        family == preferred_family(has_vectors, has_byte_permute),
{
    if has_vectors && has_byte_permute {
        Family::Table
    } else if has_vectors {
        Family::Portable
    } else {
        Family::Scalar
    }
}

/// The family that is used where the caller names none.
pub fn default_family() -> (family: Family)
    ensures
        family == Family::Portable,
{
    Family::Portable
}

} // verus!
