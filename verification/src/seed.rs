//! Seed generation (PBKDF2-SHA512).
use crate::primitives::{nfkd, nfkd_of, pbkdf2_hmac_sha512, pbkdf2_hmac_sha512_of};
use vstd::prelude::*;
use vstd::string::*;
use vstd::utf8::{decode_utf8, encode_utf8, encode_utf8_decode_utf8};

verus! {

/// Default PBKDF2 iteration count (this project uses 4096, which differs
/// from BIP39's 2048).
///
/// Seeds generated with 4096 iterations are not compatible with standard
/// BIP39 wallets (which use 2048 iterations); for those, use
/// `mnemonic_to_seed_with_iterations(mnemonic, passphrase, 2048)`.
pub const PBKDF2_ITERATIONS: u32 = 4096;

/// The salt prefix: "mnemonic".
pub open spec fn salt_prefix() -> Seq<char> {
    seq!['m', 'n', 'e', 'm', 'o', 'n', 'i', 'c']
}

/// The seed of a mnemonic and passphrase: PBKDF2-HMAC-SHA512 over the
/// UTF-8 bytes of the NFKD-normalized mnemonic, salted with "mnemonic"
/// followed by the NFKD-normalized passphrase.
pub open spec fn seed_spec(mnemonic: Seq<char>, passphrase: Seq<char>, iterations: u32) -> Seq<u8> {
    pbkdf2_hmac_sha512_of(
        encode_utf8(nfkd_of(mnemonic)),
        encode_utf8(salt_prefix() + nfkd_of(passphrase)),
        iterations,
    )
}

/// Derive a 64-byte seed from a mnemonic phrase and passphrase (using the
/// default 4096 iterations).
///
/// 1. NFKD-normalize the passphrase;
/// 2. NFKD-normalize the mnemonic itself (different Unicode representations
///    give the same seed);
/// 3. salt = "mnemonic" + normalized passphrase;
/// 4. PBKDF2-SHA512 with 4096 iterations gives a 64-byte seed.
pub fn mnemonic_to_seed(mnemonic: &str, passphrase: &str) -> (seed: [u8; 64])
    ensures
        seed@ == seed_spec(mnemonic@, passphrase@, 4096),
{
    mnemonic_to_seed_with_iterations(mnemonic, passphrase, PBKDF2_ITERATIONS)
}

/// Derive a 64-byte seed from a mnemonic phrase and passphrase with a
/// custom iteration count.
///
/// Both the mnemonic and the passphrase are NFKD-normalized, so the same
/// text gives the same seed whatever its Unicode representation.
pub fn mnemonic_to_seed_with_iterations(mnemonic: &str, passphrase: &str, iterations: u32) -> (seed: [u8; 64])
    ensures
        seed@ == seed_spec(mnemonic@, passphrase@, iterations),
{
    let normalized_mnemonic = nfkd(mnemonic);
    let normalized_passphrase = nfkd(passphrase);

    let mut salt = String::from_str("mnemonic");
    proof {
        reveal_strlit("mnemonic");
        assert(salt@ =~= salt_prefix());
    }
    salt.append(normalized_passphrase.as_str());
    let password_bytes = normalized_mnemonic.as_str().as_bytes();
    let salt_bytes = salt.as_str().as_bytes();
    pbkdf2_hmac_sha512(password_bytes, salt_bytes, iterations)
}

/// The seed depends on the mnemonic and the passphrase only through their
/// NFKD forms: texts that normalize alike give the same seed.
pub proof fn law_seed_normalized(
    mnemonic1: Seq<char>,
    mnemonic2: Seq<char>,
    passphrase1: Seq<char>,
    passphrase2: Seq<char>,
    iterations: u32,
)
    requires
        nfkd_of(mnemonic1) == nfkd_of(mnemonic2),
        nfkd_of(passphrase1) == nfkd_of(passphrase2),
    ensures
        seed_spec(mnemonic1, passphrase1, iterations) == seed_spec(mnemonic2, passphrase2, iterations),
{
}

/// What a seed is, for every mnemonic, passphrase and iteration count:
/// PBKDF2-HMAC-SHA512 run for exactly `iterations` rounds, with the UTF-8
/// bytes of the NFKD-normalized mnemonic as password and, as salt, the
/// UTF-8 bytes of "mnemonic" followed by the whole NFKD-normalized
/// passphrase.
pub proof fn law_seed_is_pbkdf2(mnemonic: Seq<char>, passphrase: Seq<char>, iterations: u32)
    ensures
        seed_spec(mnemonic, passphrase, iterations) == pbkdf2_hmac_sha512_of(
            encode_utf8(nfkd_of(mnemonic)),
            encode_utf8(seq!['m', 'n', 'e', 'm', 'o', 'n', 'i', 'c'] + nfkd_of(passphrase)),
            iterations,
        ),
{
}

/// The salt loses nothing of the passphrase: it decodes to "mnemonic"
/// followed by the whole normalized passphrase, so two passphrases give
/// the same salt exactly when their NFKD forms are the same.
pub proof fn law_salt_keeps_passphrase(passphrase1: Seq<char>, passphrase2: Seq<char>)
    ensures
        decode_utf8(encode_utf8(seq!['m', 'n', 'e', 'm', 'o', 'n', 'i', 'c'] + nfkd_of(passphrase1)))
            == seq!['m', 'n', 'e', 'm', 'o', 'n', 'i', 'c'] + nfkd_of(passphrase1),
        encode_utf8(seq!['m', 'n', 'e', 'm', 'o', 'n', 'i', 'c'] + nfkd_of(passphrase1)) == encode_utf8(
            seq!['m', 'n', 'e', 'm', 'o', 'n', 'i', 'c'] + nfkd_of(passphrase2),
        ) <==> nfkd_of(passphrase1) == nfkd_of(passphrase2),
{
    let pre = seq!['m', 'n', 'e', 'm', 'o', 'n', 'i', 'c'];
    let s1 = pre + nfkd_of(passphrase1);
    let s2 = pre + nfkd_of(passphrase2);
    encode_utf8_decode_utf8(s1);
    encode_utf8_decode_utf8(s2);
    if encode_utf8(s1) == encode_utf8(s2) {
        assert(s1 == s2);
        assert(nfkd_of(passphrase1) =~= s1.skip(8));
        assert(nfkd_of(passphrase2) =~= s2.skip(8));
    }
}

} // verus!
