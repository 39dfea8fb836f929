//! Entropy encoding/decoding (bit operations and checksum calculation).
//!
//! With a 4096-word list each word carries 12 bits.  The entropy bytes,
//! followed by the leading bits of SHA-256(entropy) as checksum, form a
//! bit stream that is cut into 12-bit indices, most significant bit first.
use crate::bitstream::{
    assemble, bit_of, bitval, lemma_assemble_fits, lemma_bit_value,
};
use crate::error::Error;
use crate::primitives::{sha256, fill_random, sha256_of};
use vstd::arithmetic::power2::*;
use vstd::prelude::*;

verus! {

/// 4096-word list: 12 bits per word.
const BITS_PER_WORD: usize = 12;

/// Number of words in the list.
pub const WORDLIST_SIZE: usize = 4096;

/// Valid entropy sizes in bits: 128/160/192/224/256.
pub const ENTROPY_BITS_VALID: [usize; 5] = [128, 160, 192, 224, 256];

/// Valid mnemonic word counts for the 4096-word list.
///
/// Each word encodes 12 bits and the checksum is 1/8 of the entropy, so
/// words = entropy bits × 9/8 / 12 = entropy bits × 3 / 32:
///
/// | Entropy | Checksum | Total Bits | Words |
/// |---------|----------|------------|-------|
/// | 128     | 16       | 144        | 12    |
/// | 160     | 20       | 180        | 15    |
/// | 192     | 24       | 216        | 18    |
/// | 224     | 28       | 252        | 21    |
/// | 256     | 32       | 288        | 24    |
pub const MNEMONIC_WORDS_VALID: [usize; 5] = [12, 15, 18, 21, 24];

// ---------------------------------------------------------------------------
// The model
// ---------------------------------------------------------------------------
/// Entropy sizes (in bits) the library accepts.
pub open spec fn is_valid_entropy_bits(bits: int) -> bool {
    bits == 128 || bits == 160 || bits == 192 || bits == 224 || bits == 256
}

/// Word counts the library accepts.
pub open spec fn is_valid_word_count(count: int) -> bool {
    count == 12 || count == 15 || count == 18 || count == 21 || count == 24
}

/// Words needed for `entropy_bits` bits of entropy plus its checksum.
pub open spec fn word_count_for_entropy(entropy_bits: int) -> int {
    (entropy_bits + entropy_bits / 8) / 12
}

/// Checksum bits: total bits (words × 12) minus entropy bits.
pub open spec fn checksum_bits_spec(entropy_bits: int) -> int {
    word_count_for_entropy(entropy_bits) * 12 - entropy_bits
}

/// Entropy bits carried by `word_count` words: the table for the valid
/// counts, `word_count × 96 / 9` otherwise.
pub open spec fn entropy_bits_for_word_count_spec(word_count: int) -> int {
    if word_count == 12 {
        128
    } else if word_count == 15 {
        160
    } else if word_count == 18 {
        192
    } else if word_count == 21 {
        224
    } else if word_count == 24 {
        256
    } else {
        word_count * 96 / 9
    }
}

/// The first four bytes of `digest` read as a big-endian `u32`.
pub open spec fn be_u32(digest: Seq<u8>) -> u32 {
    ((digest[0] as u32) << 24u32) | ((digest[1] as u32) << 16u32) | ((digest[2] as u32) << 8u32)
        | (digest[3] as u32)
}

/// The leading `bits` bits of a digest, as a number.
pub open spec fn checksum_of_digest(digest: Seq<u8>, bits: int) -> u32 {
    be_u32(digest) >> ((32 - bits) as u32)
}

/// The leading `bits` bits of SHA-256(entropy).
pub open spec fn checksum_spec(entropy: Seq<u8>, bits: int) -> u32 {
    checksum_of_digest(sha256_of(entropy), bits)
}

/// The encoder's bit stream: the entropy bits (each byte most significant
/// bit first), then the `cs` checksum bits of `checksum`, most significant
/// first.
pub open spec fn encode_stream(entropy: Seq<u8>, checksum: u32, cs: int) -> spec_fn(int) -> bool {
    |p: int|
        if p < 8 * entropy.len() {
            bit_of(entropy[p / 8] as u64, 7 - p % 8)
        } else {
            bit_of(checksum as u64, cs - 1 - (p - 8 * entropy.len()))
        }
}

/// The 12-bit words of the encoder's stream.
pub open spec fn encode_words(entropy: Seq<u8>, checksum: u32, cs: int, count: int) -> Seq<usize> {
    Seq::new(count as nat, |w: int| assemble(encode_stream(entropy, checksum, cs), 12 * w, 12) as usize)
}

/// The idiom indices of `entropy`.
pub open spec fn entropy_to_indices_spec(entropy: Seq<u8>) -> Seq<usize> {
    let eb = 8 * entropy.len() as int;
    let cs = checksum_bits_spec(eb);
    encode_words(entropy, checksum_spec(entropy, cs), cs, word_count_for_entropy(eb))
}

/// The decoder's bit stream: bit `p` is bit `11 - p % 12` of index `p / 12`.
pub open spec fn decode_stream(indices: Seq<usize>) -> spec_fn(int) -> bool {
    |p: int| bit_of(indices[p / 12] as u64, 11 - p % 12)
}

/// The first `entropy_bits / 8` bytes of the decoder's stream.
pub open spec fn decoded_entropy(indices: Seq<usize>, entropy_bits: int) -> Seq<u8> {
    Seq::new((entropy_bits / 8) as nat, |k: int| assemble(decode_stream(indices), 8 * k, 8) as u8)
}

/// The checksum carried by the indices: `cs` bits after the entropy bits.
pub open spec fn received_checksum(indices: Seq<usize>, entropy_bits: int, cs: int) -> nat {
    assemble(decode_stream(indices), entropy_bits, cs as nat)
}

/// The entropy bits carried by `indices`.
pub open spec fn indices_entropy_bits(indices: Seq<usize>) -> int {
    entropy_bits_for_word_count_spec(indices.len() as int)
}

/// The checksum bits carried by `indices`.
pub open spec fn indices_checksum_bits(indices: Seq<usize>) -> int {
    12 * indices.len() - indices_entropy_bits(indices)
}

/// The entropy carried by `indices`, checksum not checked.
pub open spec fn indices_entropy(indices: Seq<usize>) -> Seq<u8> {
    decoded_entropy(indices, indices_entropy_bits(indices))
}

/// The checksum carried by `indices` is the one of the entropy they carry.
pub open spec fn checksum_matches(indices: Seq<usize>) -> bool {
    checksum_spec(indices_entropy(indices), indices_checksum_bits(indices)) as nat
        == received_checksum(indices, indices_entropy_bits(indices), indices_checksum_bits(indices))
}

/// Word counts on which the checksum extraction is defined (between 1 and
/// 32 checksum bits, and no overflow).
pub open spec fn decodable_word_count(count: int) -> bool {
    &&& count * 96 <= usize::MAX
    &&& 1 <= 12 * count - entropy_bits_for_word_count_spec(count) <= 32
}

/// What `indices_to_entropy_inner` returns.
pub open spec fn indices_to_entropy_inner_spec(indices: Seq<usize>) -> Result<Seq<u8>, Error> {
    if checksum_matches(indices) {
        Ok(indices_entropy(indices))
    } else {
        Err(Error::ChecksumMismatch)
    }
}

/// The first index that is not below 4096, if any.
pub open spec fn first_out_of_range(indices: Seq<usize>) -> Option<usize>
    decreases indices.len(),
{
    if indices.len() == 0 {
        None
    } else if indices[0] >= 4096 {
        Some(indices[0])
    } else {
        first_out_of_range(indices.drop_first())
    }
}

/// What `indices_to_entropy` returns.
pub open spec fn indices_to_entropy_spec(indices: Seq<usize>) -> Result<Seq<u8>, Error> {
    if !is_valid_word_count(indices.len() as int) {
        Err(Error::InvalidLength(indices.len() as usize))
    } else if let Some(idx) = first_out_of_range(indices) {
        Err(Error::InvalidIndex(idx))
    } else {
        indices_to_entropy_inner_spec(indices)
    }
}

/// The view of a result carrying bytes.
pub open spec fn bytes_result(r: Result<Vec<u8>, Error>) -> Result<Seq<u8>, Error> {
    match r {
        Ok(v) => Ok(v@),
        Err(e) => Err(e),
    }
}

// ---------------------------------------------------------------------------
// The code
// ---------------------------------------------------------------------------
/// Generate cryptographically secure random entropy of the given bit length.
///
/// Uses the operating system's random source (via `getrandom`).  A length
/// other than 128/160/192/224/256 bits is refused with
/// `InvalidEntropyLength`; a failure of the random source is reported as
/// `RandError`.
pub fn generate_entropy(bits: usize) -> (res: Result<Vec<u8>, Error>)
    ensures
        !is_valid_entropy_bits(bits as int) ==> res == Err::<Vec<u8>, Error>(
            Error::InvalidEntropyLength(bits),
        ),
        is_valid_entropy_bits(bits as int) ==> (res matches Ok(v) ==> v@.len() == bits / 8) && (
        res matches Err(e) ==> e is RandError),
{
    if !(bits == 128 || bits == 160 || bits == 192 || bits == 224 || bits == 256) {
        return Err(Error::InvalidEntropyLength(bits));
    }
    let bytes = bits / 8;
    let mut entropy: Vec<u8> = Vec::new();
    while entropy.len() < bytes
        invariant
            entropy@.len() <= bytes,
        decreases bytes - entropy@.len(),
    {
        entropy.push(0u8);
    }
    match fill_random(&mut entropy) {
        Ok(()) => Ok(entropy),
        Err(e) => Err(Error::from(e)),
    }
}

/// Compute the checksum bit count for a given entropy length.
///
/// Checksum bits = total bits - entropy bits (where total bits = words × 12).
pub fn checksum_bits_for_entropy(entropy_bits: usize) -> (bits: usize)
    requires
        entropy_bits + entropy_bits / 8 <= usize::MAX,
        checksum_bits_spec(entropy_bits as int) >= 0,
    ensures
        bits == checksum_bits_spec(entropy_bits as int),
{
    let word_count = (entropy_bits + entropy_bits / 8) / BITS_PER_WORD;
    word_count * BITS_PER_WORD - entropy_bits
}

/// Look up entropy bits for a given word count (table lookup for the valid
/// counts).
pub fn entropy_bits_for_word_count(word_count: usize) -> (bits: usize)
    requires
        word_count * 96 <= usize::MAX,
    ensures
        bits == entropy_bits_for_word_count_spec(word_count as int),
{
    let table: [(usize, usize); 5] = [(12, 128), (15, 160), (18, 192), (21, 224), (24, 256)];
    let mut i: usize = 0;
    while i < 5
        invariant
            0 <= i <= 5,
            table@ == seq![(12usize, 128usize), (15, 160), (18, 192), (21, 224), (24, 256)],
            forall|j: int| 0 <= j < i ==> table@[j].0 != word_count,
        decreases 5 - i,
    {
        if table[i].0 == word_count {
            return table[i].1;
        }
        i = i + 1;
    }
    // Callers pass valid counts; this fallback mirrors the formula.
    word_count * BITS_PER_WORD * 8 / 9
}

/// The leading `checksum_bits` bits of a digest as a number.
pub fn checksum_from_digest(digest: &[u8], checksum_bits: usize) -> (checksum: u32)
    requires
        digest@.len() >= 4,
        1 <= checksum_bits <= 32,
    ensures
        checksum == checksum_of_digest(digest@, checksum_bits as int),
{
    let full: u32 = ((digest[0] as u32) << 24u32) | ((digest[1] as u32) << 16u32) | ((
    digest[2] as u32) << 8u32) | (digest[3] as u32);
    full >> ((32 - checksum_bits) as u32)
}

/// Compute the leading N bits of the SHA-256 checksum.
pub fn calculate_checksum(entropy: &[u8], checksum_bits: usize) -> (checksum: u32)
    requires
        1 <= checksum_bits <= 32,
    ensures
        checksum == checksum_spec(entropy@, checksum_bits as int),
{
    let hash = sha256(entropy);
    checksum_from_digest(&hash, checksum_bits)
}

/// Convert entropy bytes into idiom indices.
///
/// Appends checksum bits to the entropy bitstream, then slices it into
/// 12-bit indices (0..4095).  Reads bits directly from the entropy and the
/// checksum without a temporary bit buffer.
pub fn entropy_to_indices(entropy: &[u8]) -> (indices: Vec<usize>)
    requires
        9 * entropy@.len() <= usize::MAX,
        1 <= checksum_bits_spec(8 * entropy@.len() as int) <= 32,
    ensures
        indices@ == entropy_to_indices_spec(entropy@),
{
    let entropy_bits = entropy.len() * 8;
    let checksum_bits = checksum_bits_for_entropy(entropy_bits);
    let checksum = calculate_checksum(entropy, checksum_bits);
    let ghost stream = encode_stream(entropy@, checksum, checksum_bits as int);

    let total_bits = entropy_bits + checksum_bits;
    let word_count = total_bits / BITS_PER_WORD;
    let mut indices: Vec<usize> = Vec::with_capacity(word_count);

    for w in 0..word_count
        invariant
            entropy_bits == 8 * entropy@.len(),
            9 * entropy@.len() <= usize::MAX,
            checksum_bits == checksum_bits_spec(entropy_bits as int),
            1 <= checksum_bits <= 32,
            total_bits == entropy_bits + checksum_bits,
            word_count == word_count_for_entropy(entropy_bits as int),
            word_count * 12 == total_bits,
            stream == encode_stream(entropy@, checksum, checksum_bits as int),
            indices@.len() == w,
            forall|j: int|
                0 <= j < w ==> indices@[j] == assemble(stream, 12 * j, 12) as usize,
    {
        let mut idx: usize = 0;
        for b in 0..BITS_PER_WORD
            invariant
                entropy_bits == 8 * entropy@.len(),
                1 <= checksum_bits <= 32,
                total_bits == entropy_bits + checksum_bits,
                word_count * 12 == total_bits,
                w < word_count,
                stream == encode_stream(entropy@, checksum, checksum_bits as int),
                idx == assemble(stream, 12 * w, b as nat),
        {
            proof {
                lemma_assemble_fits(stream, 12 * w, b as nat);
                lemma_pow2_strictly_increases(b as nat, 12);
                lemma2_to64();
            }
            let bit_pos = w * BITS_PER_WORD + b;
            let bit_val: u64 = if bit_pos < entropy_bits {
                let shift = (7 - bit_pos % 8) as u64;
                proof {
                    lemma_bit_value(entropy@[(bit_pos / 8) as int] as u64, shift);
                }
                ((entropy[bit_pos / 8] as u64) >> shift) & 1
            } else {
                let cs_bit_pos = bit_pos - entropy_bits;
                let shift = (checksum_bits - 1 - cs_bit_pos) as u64;
                proof {
                    lemma_bit_value(checksum as u64, shift);
                }
                ((checksum as u64) >> shift) & 1
            };
            assert(bit_val == bitval(stream(12 * w + b)));
            idx = idx * 2 + bit_val as usize;
        }
        indices.push(idx);
    }
    proof {
        assert(indices@ =~= encode_words(entropy@, checksum, checksum_bits as int, word_count as int));
    }
    indices
}

/// Recover entropy from idiom indices (with checksum validation).
pub fn indices_to_entropy(indices: &[usize]) -> (res: Result<Vec<u8>, Error>)
    ensures
        bytes_result(res) == indices_to_entropy_spec(indices@),
{
    let word_count = indices.len();

    if !validate_mnemonic_length(word_count) {
        return Err(Error::InvalidLength(word_count));
    }
    // Validate index range
    let mut i: usize = 0;
    assert(indices@.skip(0) =~= indices@);
    while i < word_count
        invariant
            word_count == indices@.len(),
            is_valid_word_count(word_count as int),
            i <= word_count,
            first_out_of_range(indices@) == first_out_of_range(indices@.skip(i as int)),
        decreases word_count - i,
    {
        proof {
            assert(indices@.skip(i as int).drop_first() =~= indices@.skip(i + 1));
            assert(indices@.skip(i as int)[0] == indices@[i as int]);
        }
        if indices[i] >= 4096 {
            assert(first_out_of_range(indices@) == Some(indices@[i as int]));
            return Err(Error::InvalidIndex(indices[i]));
        }
        i = i + 1;
    }
    proof {
        assert(indices@.skip(i as int).len() == 0);
    }
    indices_to_entropy_inner(indices)
}

/// Recover entropy from idiom indices (skips the index range check: only
/// the low 12 bits of each index are read).
///
/// The word count must be 12/15/18/21/24 (callers check it first).
pub fn indices_to_entropy_inner(indices: &[usize]) -> (res: Result<Vec<u8>, Error>)
    requires
        is_valid_word_count(indices@.len() as int),
    ensures
        bytes_result(res) == indices_to_entropy_inner_spec(indices@),
{
    proof {
        assert(decodable_word_count(indices@.len() as int));
    }
    let word_count = indices.len();
    let total_bits = word_count * BITS_PER_WORD;
    let entropy_bits = entropy_bits_for_word_count(word_count);
    let checksum_bits = total_bits - entropy_bits;
    let entropy_bytes = entropy_bits / 8;
    let ghost stream = decode_stream(indices@);

    // Extract entropy
    let mut entropy: Vec<u8> = Vec::with_capacity(entropy_bytes);
    for k in 0..entropy_bytes
        invariant
            word_count == indices@.len(),
            total_bits == 12 * word_count,
            entropy_bits == entropy_bits_for_word_count_spec(word_count as int),
            entropy_bits + checksum_bits == total_bits,
            entropy_bytes == entropy_bits / 8,
            stream == decode_stream(indices@),
            entropy@.len() == k,
            forall|j: int| 0 <= j < k ==> entropy@[j] == assemble(stream, 8 * j, 8) as u8,
    {
        let mut byte: u64 = 0;
        for i in 0..8usize
            invariant
                word_count == indices@.len(),
                total_bits == 12 * word_count,
                entropy_bits + checksum_bits == total_bits,
                entropy_bytes == entropy_bits / 8,
                k < entropy_bytes,
                stream == decode_stream(indices@),
                byte == assemble(stream, 8 * k, i as nat),
        {
            proof {
                lemma_assemble_fits(stream, 8 * k, i as nat);
                lemma_pow2_strictly_increases(i as nat, 8);
                lemma2_to64();
            }
            let bit_pos = k * 8 + i;
            let shift = (11 - bit_pos % 12) as u64;
            proof {
                lemma_bit_value(indices@[(bit_pos / 12) as int] as u64, shift);
            }
            let bit_val = ((indices[bit_pos / 12] as u64) >> shift) & 1;
            assert(bit_val == bitval(stream(8 * k + i)));
            byte = byte * 2 + bit_val;
        }
        proof {
            lemma_assemble_fits(stream, 8 * k, 8);
            lemma2_to64();
        }
        entropy.push(byte as u8);
    }
    assert(entropy@ =~= decoded_entropy(indices@, entropy_bits as int));

    // Extract and verify checksum
    let expected_checksum = calculate_checksum(entropy.as_slice(), checksum_bits);

    let mut received_checksum: u64 = 0;
    for i in 0..checksum_bits
        invariant
            word_count == indices@.len(),
            total_bits == 12 * word_count,
            entropy_bits + checksum_bits == total_bits,
            1 <= checksum_bits <= 32,
            stream == decode_stream(indices@),
            received_checksum == assemble(stream, entropy_bits as int, i as nat),
    {
        proof {
            lemma_assemble_fits(stream, entropy_bits as int, i as nat);
        }
        let bit_pos = entropy_bits + i;
        let shift = (11 - bit_pos % 12) as u64;
        proof {
            lemma_bit_value(indices@[(bit_pos / 12) as int] as u64, shift);
        }
        let bit_val = ((indices[bit_pos / 12] as u64) >> shift) & 1;
        assert(bit_val == bitval(stream(entropy_bits + i)));
        received_checksum = received_checksum * 2 + bit_val;
    }

    if expected_checksum as u64 != received_checksum {
        return Err(Error::ChecksumMismatch);
    }
    Ok(entropy)
}

/// Validate that an entropy byte length is valid (16/20/24/28/32 bytes).
pub fn validate_entropy_length(len: usize) -> (valid: bool)
    requires
        len * 8 <= usize::MAX,
    ensures
        valid == is_valid_entropy_bits(len * 8),
{
    let bits = len * 8;
    bits == 128 || bits == 160 || bits == 192 || bits == 224 || bits == 256
}

/// Validate that a mnemonic word count is valid (12/15/18/21/24 words).
pub fn validate_mnemonic_length(len: usize) -> (valid: bool)
    ensures
        valid == is_valid_word_count(len as int),
{
    len == 12 || len == 15 || len == 18 || len == 21 || len == 24
}

} // verus!
