//! The seal of [`Buf`](super::Buf): a trait that only this crate can name.

use vstd::prelude::*;
use std::mem::MaybeUninit;

verus! {

/// Implemented for the two destination types, and closed to everything else.
pub trait Sealed {

}

impl Sealed for [u8] {

}

impl Sealed for [MaybeUninit<u8>] {

}

} // verus!
