//! The outside cryptographic and text primitives the library builds on:
//! SHA-256 (sha2), PBKDF2-HMAC-SHA512 (pbkdf2 + sha2), Unicode NFKD
//! normalization (unicode-normalization) and the OS random source
//! (getrandom), plus `String::push` from std.  Each function here only
//! makes the call; what it returns is named by an uninterpreted spec
//! function where it is a function of the arguments alone.
use getrandom::Error as RandomSourceError;
use sha2::Digest;
use unicode_normalization::UnicodeNormalization;
use vstd::prelude::*;

verus! {

/// The error type of `getrandom`; carried opaquely in `Error::RandError`.
#[verifier::external_type_specification]
#[verifier::external_body]
pub struct ExRandomSourceError(RandomSourceError);

/// `getrandom::Error` derives `Clone` and `Copy`: a clone is the same value.
pub assume_specification[ <RandomSourceError as Clone>::clone ](e: &RandomSourceError) -> (res: RandomSourceError)
    ensures
        res == *e,
;

/// The SHA-256 digest of a byte string (FIPS 180-4).
pub uninterp spec fn sha256_of(data: Seq<u8>) -> Seq<u8>;

/// Unicode compatibility decomposition (NFKD) of a character sequence, as
/// computed by `unicode_normalization::UnicodeNormalization::nfkd`.
pub uninterp spec fn nfkd_of(text: Seq<char>) -> Seq<char>;

/// PBKDF2 with HMAC-SHA512 as pseudo-random function and a 64-byte output
/// (RFC 8018), as computed by `pbkdf2::pbkdf2_hmac_array::<Sha512, 64>`.
pub uninterp spec fn pbkdf2_hmac_sha512_of(password: Seq<u8>, salt: Seq<u8>, rounds: u32) -> Seq<u8>;

/// Calls `<sha2::Sha256 as Digest>::digest`.  Trusted: the 32 bytes returned
/// are the SHA-256 digest of `data`, named `sha256_of`.
#[verifier::external_body]
pub(crate) fn sha256(data: &[u8]) -> (digest: [u8; 32])
    ensures
        digest@ == sha256_of(data@),
{
    sha2::Sha256::digest(data).into()
}

/// Calls `UnicodeNormalization::nfkd` on `text` and collects the characters.
/// Trusted: the result is the NFKD form of `text`, named `nfkd_of`.
#[verifier::external_body]
pub(crate) fn nfkd(text: &str) -> (normalized: String)
    ensures
        normalized@ == nfkd_of(text@),
{
    text.nfkd().collect()
}

/// Calls `pbkdf2::pbkdf2_hmac_array::<sha2::Sha512, 64>`, which never panics
/// (HMAC accepts keys of any length, and any round count is accepted).
/// Trusted: the 64 bytes returned are named `pbkdf2_hmac_sha512_of` of the
/// password, the salt and the round count.
#[verifier::external_body]
pub(crate) fn pbkdf2_hmac_sha512(password: &[u8], salt: &[u8], rounds: u32) -> (key: [u8; 64])
    ensures
        key@ == pbkdf2_hmac_sha512_of(password@, salt@, rounds),
{
    pbkdf2::pbkdf2_hmac_array::<sha2::Sha512, 64>(password, salt, rounds)
}

/// Calls `getrandom::getrandom` on the whole buffer.  Trusted: the buffer
/// keeps its length.  Which bytes it holds afterwards is left unsaid: they
/// come from the operating system's random source.
#[verifier::external_body]
pub(crate) fn fill_random(buf: &mut Vec<u8>) -> (res: Result<(), RandomSourceError>)
    ensures
        final(buf)@.len() == old(buf)@.len(),
{
    getrandom::getrandom(buf.as_mut_slice())
}

/// Calls `String::push`.  Trusted: the character is appended to the string.
#[verifier::external_body]
pub(crate) fn push_char(s: &mut String, c: char)
    ensures
        final(s)@ == old(s)@.push(c),
{
    s.push(c);
}

} // verus!
