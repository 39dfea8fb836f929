//! # fci4096
//!
//! A BIP39-inspired mnemonic implementation using 4096 Chinese four-character
//! idioms as the wordlist.
//!
//! Each idiom encodes 12 bits of information (2^12 = 4096), providing higher
//! information density than BIP39's 2048-word list (11 bits/word) for the
//! same number of words.  The checksum is 1/8 of the entropy length, taken
//! from the leading bits of SHA-256(entropy).
//!
//! The wordlist is a value of its own ([`ChineseIdiomList`]), built from the
//! 4096 idioms in index order; the functions that read or write idioms take
//! it as an argument.

/// Bit-level model shared by the encoder and the decoder
pub mod bitstream;
/// Entropy encoding/decoding (bit operations and checksum calculation)
pub mod entropy;
/// Round-trip laws between entropy and idiom indices
pub mod entropy_laws;
/// Error type definitions
pub mod error;
/// Idiom wordlist and lookup
pub mod idiom_list;
/// Core mnemonic types
pub mod mnemonic;
/// Splitting and joining phrases
pub mod phrase;
/// Outside primitives: SHA-256, PBKDF2, NFKD, random source
pub mod primitives;
/// Reading a wordlist from its text files
pub mod wordlist_text;
/// Seed generation (PBKDF2-SHA512)
pub mod seed;

pub use crate::error::{Error, Result};
pub use crate::idiom_list::{ChineseIdiomList, IDIOM_COUNT};
pub use crate::mnemonic::{IdiomMnemonic, IdiomMnemonicSize};
pub use crate::seed::PBKDF2_ITERATIONS;

use crate::idiom_list::index_of_idiom;
use crate::mnemonic::{
    from_entropy_spec, mnemonic_result, phrase_is_valid, phrase_outcome, size_entropy_bits,
    size_idiom_count,
};
use vstd::prelude::*;

verus! {

/// Generate a random mnemonic.
///
/// Uses the operating system's cryptographically secure random source.
pub fn generate(size: IdiomMnemonicSize) -> (res: Result<IdiomMnemonic>)
    ensures
        res matches Ok(m) ==> m@.len() == size_idiom_count(size) && exists|e: Seq<u8>|
            8 * e.len() == size_entropy_bits(size) && #[trigger] from_entropy_spec(e) == Ok::<
                Seq<u16>,
                Error,
            >(m@),
        res matches Err(e) ==> e is RandError,
{
    IdiomMnemonic::generate(size)
}

/// Create a mnemonic from entropy bytes.
///
/// Entropy must be 16/20/24/28/32 bytes (128/160/192/224/256 bits).
pub fn from_entropy(entropy: &[u8]) -> (res: Result<IdiomMnemonic>)
    requires
        entropy@.len() * 8 <= usize::MAX,
    ensures
        mnemonic_result(res) == from_entropy_spec(entropy@),
{
    IdiomMnemonic::from_entropy(entropy)
}

/// Parse a mnemonic from an idiom phrase (with checksum validation).
///
/// Idioms are separated by spaces (full-width/half-width spaces and tabs are
/// accepted).  Returns `Error::ChecksumMismatch` if the checksum does not
/// match.
pub fn from_phrase(list: &ChineseIdiomList, phrase: &str) -> (res: Result<IdiomMnemonic>)
    ensures
        phrase_outcome(list.words(), phrase@, mnemonic_result(res)),
        res is Ok <==> phrase_is_valid(list.words(), phrase@),
{
    IdiomMnemonic::from_phrase(list, phrase)
}

/// Validate a mnemonic phrase: all idioms exist in the wordlist and the
/// checksum matches.
pub fn validate(list: &ChineseIdiomList, phrase: &str) -> (valid: bool)
    ensures
        valid == phrase_is_valid(list.words(), phrase@),
{
    IdiomMnemonic::validate(list, phrase)
}

/// Look up an idiom's index via binary search.
pub fn idiom_to_index(list: &ChineseIdiomList, idiom: &str) -> (index: Option<usize>)
    ensures
        index == index_of_idiom(list.words(), idiom@),
{
    list.idiom_to_index(idiom)
}

/// Look up an idiom by its index.
pub fn index_to_idiom(list: &ChineseIdiomList, idx: usize) -> (idiom: Option<&str>)
    ensures
        idiom is Some <==> idx < 4096,
        idiom matches Some(s) ==> s@ == list.words()[idx as int],
{
    list.index_to_idiom(idx)
}

/// Get the pinyin of an idiom by index.
pub fn get_pinyin(list: &ChineseIdiomList, idx: usize) -> (pinyin: Option<&str>)
    ensures
        pinyin is Some <==> idx < list.pinyins().len(),
        pinyin matches Some(s) ==> s@ == list.pinyins()[idx as int],
{
    list.get_pinyin(idx)
}

} // verus!
