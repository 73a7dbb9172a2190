//! The ways in which reading a key fails.

use vstd::prelude::*;

verus! {

/// Why a key was refused.
#[derive(Debug, Clone, Copy, PartialEq, Eq)]
#[allow(inconsistent_fields)]
pub enum KeyError {
    /// The last symbol is not the check symbol of the 24 before it.
    /// `expected` is the checksum of those 24, `found` the code of the last
    /// symbol.
    InvalidChecksum { expected: u16, found: u16 },
    /// The input does not hold `expected` letters and digits but `found`.
    InvalidLength { expected: usize, found: usize },
    /// The key names no known edition.
    UnknownEdition,
}

impl KeyError {
    /// A short description of the error.
    pub fn message(&self) -> (text: &'static str)
        ensures
            self is InvalidChecksum ==> text@ == "key has an invalid checksum"@,
            self is InvalidLength ==> text@ == "key has an invalid length"@,
            self is UnknownEdition ==> text@ == "key belongs to an unknown edition"@,
    {
        match self {
            KeyError::InvalidChecksum { .. } => "key has an invalid checksum",
            KeyError::InvalidLength { .. } => "key has an invalid length",
            KeyError::UnknownEdition => "key belongs to an unknown edition",
        }
    }
}

} // verus!
