//! The two kinds of failure: structural (a length is wrong) and content (a
//! character is not a hex digit).

use vstd::prelude::*;

verus! {

/// Why an operation was refused.
#[derive(Debug, Clone, Copy, PartialEq, Eq, Structural)]
pub enum Error {
    /// The destination does not have the one length the input calls for.
    LengthMismatch {
        /// The length the destination must have for this input.
        expected: usize,
        /// The length the destination has.
        actual: usize,
    },
    /// Hex text has an odd number of characters.
    OddLength,
    /// Hex text holds a character outside `0-9`, `A-F`, `a-f`.
    InvalidCharacter,
}

/// The broad class of an [`Error`].
#[derive(Debug, Clone, Copy, PartialEq, Eq, Structural)]
pub enum ErrorKind {
    /// A structural error: a length is wrong. Found before any character is read.
    InvalidInput,
    /// A content error: some character is not a hex digit.
    InvalidData,
}

impl Error {
    /// The class of this error, as a specification.
    pub open spec fn spec_kind(self) -> ErrorKind {
        match self {
            Error::LengthMismatch { .. } => ErrorKind::InvalidInput,
            Error::OddLength => ErrorKind::InvalidInput,
            Error::InvalidCharacter => ErrorKind::InvalidData,
        }
    }

    /// True for the errors that are found from lengths alone.
    pub open spec fn is_structural(self) -> bool {
        self.spec_kind() == ErrorKind::InvalidInput
    }

    /// True for the error that comes from reading a character.
    pub open spec fn is_content(self) -> bool {
        self.spec_kind() == ErrorKind::InvalidData
    }

    /// The class of this error.
    pub fn kind(&self) -> (k: ErrorKind)
        ensures
            k == self.spec_kind(),
    {
        match self {
            Error::LengthMismatch { .. } => ErrorKind::InvalidInput,
            Error::OddLength => ErrorKind::InvalidInput,
            Error::InvalidCharacter => ErrorKind::InvalidData,
        }
    }
}

} // verus!
