//! Error type definitions.
use getrandom::Error as RandomSourceError;
use vstd::prelude::*;

verus! {

/// Errors reported by the library.
#[derive(Debug, Clone, PartialEq, Eq)]
#[non_exhaustive]
pub enum Error {
    /// Invalid idiom (the offending word).
    InvalidIdiom(String),
    /// Invalid mnemonic length (the word count found).
    InvalidLength(usize),
    /// Checksum mismatch.
    ChecksumMismatch,
    /// Invalid entropy length (in bits).
    InvalidEntropyLength(usize),
    /// Invalid index.
    InvalidIndex(usize),
    /// Random number generation failed.
    RandError(RandomSourceError),
}

impl From<RandomSourceError> for Error {
    /// A failure of the random source.
    fn from(e: RandomSourceError) -> (err: Self) {
        Error::RandError(e)
    }
}

impl vstd::std_specs::convert::FromSpecImpl<RandomSourceError> for Error {
    open spec fn obeys_from_spec() -> bool {
        true
    }

    open spec fn from_spec(e: RandomSourceError) -> Self {
        Error::RandError(e)
    }
}

/// Result type alias.
pub type Result<T> = core::result::Result<T, Error>;

} // verus!
