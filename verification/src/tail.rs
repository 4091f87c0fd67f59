//! How the remainder is finished once the chunks have run.
//!
//! There are two ways, and each call takes exactly one of them. They are
//! told apart for speed alone: both leave the same output.

use vstd::prelude::*;
use crate::family::Family;

verus! {

/// The two ways of finishing what the chunks left over.
#[derive(Debug, Clone, Copy, PartialEq, Eq, Structural)]
pub enum Tail {
    /// Work on what is left itself, one element at a time.
    Scalar,
    /// Work once more on the last full narrow chunk, the one that ends where
    /// the input ends. Positions that a chunk before it has covered are
    /// written a second time, with the same values.
    Overlap,
}

/// The way to finish an input of `len` elements where the narrowest chunk
/// of the family has `narrow` elements: by overlap wherever the input holds
/// such a chunk, element by element only where the input is shorter than
/// every chunk, or the family has no chunks.
pub open spec fn tail_of(family: Family, len: nat, narrow: nat) -> Tail {
    if family != Family::Scalar && len >= narrow {
        Tail::Overlap
    } else {
        Tail::Scalar
    }
}

/// Picks the way to finish an input of `len` elements.
pub fn choose_tail(family: Family, len: usize, narrow: usize) -> (tail: Tail)
    ensures
        tail == tail_of(family, len as nat, narrow as nat),
{
    match family {
        Family::Scalar => Tail::Scalar,
        _ => if len >= narrow {
            Tail::Overlap
        } else {
            Tail::Scalar
        },
    }
}

} // verus!
