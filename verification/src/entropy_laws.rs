//! The round-trip laws between entropy and idiom indices.
use crate::bitstream::{
    assemble, bit_of, lemma_assemble_bits, lemma_assemble_ext, lemma_assemble_fits,
    lemma_assemble_value,
};
use crate::entropy::{
    checksum_bits_spec, checksum_matches, checksum_of_digest, checksum_spec, decode_stream,
    encode_stream, entropy_bits_for_word_count_spec, entropy_to_indices_spec, first_out_of_range,
    indices_checksum_bits, indices_entropy, indices_entropy_bits, indices_to_entropy_spec,
    is_valid_entropy_bits, is_valid_word_count, received_checksum, word_count_for_entropy,
    be_u32,
};
use crate::error::Error;
use crate::primitives::sha256_of;
use vstd::arithmetic::power2::*;
use vstd::bits::lemma_u32_shr_is_div;
use vstd::prelude::*;

verus! {

/// The sizes that go together: entropy bytes `n`, word count, checksum bits.
pub proof fn lemma_sizes(n: int)
    requires
        is_valid_entropy_bits(8 * n),
    ensures
        word_count_for_entropy(8 * n) * 12 == 9 * n,
        checksum_bits_spec(8 * n) == n,
        is_valid_word_count(word_count_for_entropy(8 * n)),
        entropy_bits_for_word_count_spec(word_count_for_entropy(8 * n)) == 8 * n,
        1 <= n <= 32,
{
    assert(n == 16 || n == 20 || n == 24 || n == 28 || n == 32);
}

/// The sizes that go together, from the word count.
pub proof fn lemma_sizes_from_words(count: int)
    requires
        is_valid_word_count(count),
    ensures
        is_valid_entropy_bits(entropy_bits_for_word_count_spec(count)),
        entropy_bits_for_word_count_spec(count) % 8 == 0,
        word_count_for_entropy(entropy_bits_for_word_count_spec(count)) == count,
        checksum_bits_spec(entropy_bits_for_word_count_spec(count)) == 12 * count
            - entropy_bits_for_word_count_spec(count),
{
}

/// A checksum of `bits` bits is below `2^bits`.
pub proof fn lemma_checksum_small(digest: Seq<u8>, bits: int)
    requires
        1 <= bits <= 32,
    ensures
        ((checksum_of_digest(digest, bits) as u64) >> (bits as u64)) == 0,
{
    let full = be_u32(digest);
    let s = (32 - bits) as u32;
    let b = bits as u64;
    let c = full >> s;
    assert(((c as u64) >> b) == 0) by (bit_vector)
        requires
            c == full >> s,
            s == 32 - b,
            1 <= b <= 32,
    ;
}

/// Indices all below 4096 have no out-of-range entry.
pub proof fn lemma_all_in_range(indices: Seq<usize>)
    requires
        forall|w: int| 0 <= w < indices.len() ==> indices[w] < 4096,
    ensures
        first_out_of_range(indices) is None,
    decreases indices.len(),
{
    if indices.len() > 0 {
        lemma_all_in_range(indices.drop_first());
    }
}

/// Encoding then decoding gives the entropy back, with a matching checksum.
pub proof fn lemma_encode_decode(entropy: Seq<u8>)
    requires
        is_valid_entropy_bits(8 * entropy.len() as int),
    ensures
        ({
            let ix = entropy_to_indices_spec(entropy);
            &&& ix.len() == word_count_for_entropy(8 * entropy.len() as int)
            &&& is_valid_word_count(ix.len() as int)
            &&& forall|w: int| 0 <= w < ix.len() ==> ix[w] < 4096
            &&& indices_entropy(ix) == entropy
            &&& checksum_matches(ix)
        }),
{
    let n = entropy.len() as int;
    let eb = 8 * n;
    lemma_sizes(n);
    let cs = checksum_bits_spec(eb);
    let wc = word_count_for_entropy(eb);
    let c = checksum_spec(entropy, cs);
    let e_stream = encode_stream(entropy, c, cs);
    let ix = entropy_to_indices_spec(entropy);
    let d_stream = decode_stream(ix);
    assert(ix.len() == wc);
    lemma2_to64();

    assert forall|w: int| 0 <= w < ix.len() implies ix[w] < 4096
        && ix[w] as u64 == assemble(e_stream, 12 * w, 12) as u64 by {
        lemma_assemble_fits(e_stream, 12 * w, 12);
    }
    // The decoder reads back the encoder's stream.
    assert forall|p: int| 0 <= p < 12 * wc implies #[trigger] d_stream(p) == e_stream(p) by {
        let w = p / 12;
        assert(0 <= w < wc);
        lemma_assemble_bits(e_stream, 12 * w, 12, p);
    }
    assert(indices_entropy_bits(ix) == eb);
    assert(indices_checksum_bits(ix) == cs);
    // Each byte comes back.
    assert forall|k: int| 0 <= k < n implies #[trigger] indices_entropy(ix)[k] == entropy[k] by {
        let v = entropy[k] as u64;
        let f = |p: int| bit_of(v, 8 * k + 8 - 1 - p);
        assert forall|p: int| 8 * k <= p < 8 * k + 8 implies #[trigger] d_stream(p) == f(p) by {
            assert(d_stream(p) == e_stream(p));
            assert(p / 8 == k);
        }
        lemma_assemble_ext(d_stream, f, 8 * k, 8);
        let b = entropy[k];
        assert((v >> 8u64) == 0) by (bit_vector)
            requires
                v == b as u64,
        ;
        lemma_assemble_value(v, 8, 8 * k);
    }
    assert(indices_entropy(ix) =~= entropy);
    // The checksum comes back.
    let g = |p: int| bit_of(c as u64, eb + cs - 1 - p);
    assert forall|p: int| eb <= p < eb + cs implies #[trigger] d_stream(p) == g(p) by {
        assert(d_stream(p) == e_stream(p));
    }
    lemma_assemble_ext(d_stream, g, eb, cs as nat);
    lemma_checksum_small(sha256_of(entropy), cs);
    lemma_assemble_value(c as u64, cs as nat, eb);
    assert(received_checksum(ix, eb, cs) == c);
}

/// Decoding then encoding gives the indices back, when they are in range
/// and carry a matching checksum.
pub proof fn lemma_decode_encode(indices: Seq<usize>)
    requires
        is_valid_word_count(indices.len() as int),
        forall|w: int| 0 <= w < indices.len() ==> indices[w] < 4096,
        checksum_matches(indices),
    ensures
        is_valid_entropy_bits(8 * indices_entropy(indices).len() as int),
        entropy_to_indices_spec(indices_entropy(indices)) == indices,
{
    let wc = indices.len() as int;
    lemma_sizes_from_words(wc);
    let eb = indices_entropy_bits(indices);
    let cs = indices_checksum_bits(indices);
    let entropy = indices_entropy(indices);
    let n = entropy.len() as int;
    assert(8 * n == eb);
    lemma_sizes(n);
    let c = checksum_spec(entropy, cs);
    let d_stream = decode_stream(indices);
    let e_stream = encode_stream(entropy, c, cs);
    lemma2_to64();
    lemma_assemble_fits(d_stream, eb, cs as nat);
    assert(c as nat == assemble(d_stream, eb, cs as nat));

    assert forall|p: int| 0 <= p < 12 * wc implies #[trigger] e_stream(p) == d_stream(p) by {
        if p < eb {
            let k = p / 8;
            lemma_assemble_fits(d_stream, 8 * k, 8);
            lemma_assemble_bits(d_stream, 8 * k, 8, p);
            assert(entropy[k] as u64 == assemble(d_stream, 8 * k, 8) as u64);
        } else {
            lemma_assemble_bits(d_stream, eb, cs as nat, p);
        }
    }
    let ix2 = entropy_to_indices_spec(entropy);
    assert forall|w: int| 0 <= w < wc implies #[trigger] ix2[w] == indices[w] by {
        let v = indices[w] as u64;
        let f = |p: int| bit_of(v, 12 * w + 12 - 1 - p);
        assert forall|p: int| 12 * w <= p < 12 * w + 12 implies #[trigger] e_stream(p) == f(p) by {
            assert(e_stream(p) == d_stream(p));
            assert(p / 12 == w);
        }
        lemma_assemble_ext(e_stream, f, 12 * w, 12);
        let x = indices[w];
        assert((v >> 12u64) == 0) by (bit_vector)
            requires
                v == x as u64,
                x < 4096,
        ;
        lemma_assemble_value(v, 12, 12 * w);
    }
    assert(ix2 =~= indices);
}

/// Round trip (entropy side): the indices of valid entropy decode to that
/// entropy.
pub proof fn law_entropy_roundtrip(entropy: Seq<u8>)
    requires
        is_valid_entropy_bits(8 * entropy.len() as int),
    ensures
        indices_to_entropy_spec(entropy_to_indices_spec(entropy)) == Ok::<Seq<u8>, Error>(entropy),
{
    lemma_encode_decode(entropy);
    lemma_all_in_range(entropy_to_indices_spec(entropy));
}

/// Round trip (index side): indices that decode to some entropy are the
/// indices of that entropy.
pub proof fn law_indices_roundtrip(indices: Seq<usize>)
    requires
        indices_to_entropy_spec(indices) is Ok,
    ensures
        is_valid_entropy_bits(8 * indices_entropy(indices).len() as int),
        entropy_to_indices_spec(indices_entropy(indices)) == indices,
{
    lemma_first_out_of_range_none(indices);
    lemma_decode_encode(indices);
}

/// No out-of-range entry means every index is below 4096.
pub proof fn lemma_first_out_of_range_none(indices: Seq<usize>)
    requires
        first_out_of_range(indices) is None,
    ensures
        forall|w: int| 0 <= w < indices.len() ==> indices[w] < 4096,
    decreases indices.len(),
{
    if indices.len() > 0 {
        lemma_first_out_of_range_none(indices.drop_first());
        assert forall|w: int| 0 <= w < indices.len() implies indices[w] < 4096 by {
            if w > 0 {
                assert(indices[w] == indices.drop_first()[w - 1]);
            }
        }
    }
}

/// For every valid entropy size the checksum is one eighth of the entropy,
/// and entropy plus checksum fill whole 12-bit words.
pub proof fn law_checksum_one_eighth(entropy_bits: int)
    requires
        is_valid_entropy_bits(entropy_bits),
    ensures
        checksum_bits_spec(entropy_bits) == entropy_bits / 8,
        word_count_for_entropy(entropy_bits) * 12 == entropy_bits + checksum_bits_spec(entropy_bits),
        is_valid_word_count(word_count_for_entropy(entropy_bits)),
{
}

/// Bit `p` of a byte string read as one bit stream, each byte most
/// significant bit first.
pub open spec fn byte_bit(bytes: Seq<u8>, p: int) -> bool {
    bit_of(bytes[p / 8] as u64, 7 - p % 8)
}

/// Bit `p` of a list of 12-bit indices read as one bit stream, each index
/// most significant bit first.
pub open spec fn index_bit(indices: Seq<usize>, p: int) -> bool {
    bit_of(indices[p / 12] as u64, 11 - p % 12)
}

/// The first four bytes of `d` read as a big-endian (unsigned) number.
proof fn lemma_be_u32_value(d: Seq<u8>)
    ensures
        be_u32(d) as int == d[0] as int * 0x100_0000 + d[1] as int * 0x1_0000 + d[2] as int * 0x100
            + d[3] as int,
{
    let a = d[0];
    let b = d[1];
    let c = d[2];
    let e = d[3];
    let x = be_u32(d);
    assert(x == a as u32 * 0x100_0000 + b as u32 * 0x1_0000 + c as u32 * 0x100 + e as u32) by (bit_vector)
        requires
            x == ((a as u32) << 24u32) | ((b as u32) << 16u32) | ((c as u32) << 8u32) | (e as u32),
    ;
}

/// Bit `31 - j` of the big-endian number is bit `j` of the bytes, read most
/// significant bit first.
proof fn lemma_be_u32_bit(d: Seq<u8>, j: int)
    requires
        0 <= j < 32,
    ensures
        bit_of(be_u32(d) as u64, 31 - j) == byte_bit(d, j),
{
    let a = d[0];
    let b = d[1];
    let c = d[2];
    let e = d[3];
    let x = be_u32(d);
    let t = (j % 8) as u64;
    let k = (31 - j) as u64;
    assert(x == ((a as u32) << 24u32) | ((b as u32) << 16u32) | ((c as u32) << 8u32) | (e as u32));
    if j < 8 {
        assert((((x as u64) >> k) & 1) == (((a as u64) >> (7 - t) as u64) & 1)) by (bit_vector)
            requires
                x == ((a as u32) << 24u32) | ((b as u32) << 16u32) | ((c as u32) << 8u32) | (e as u32),
                t < 8,
                k == 31 - t,
        ;
    } else if j < 16 {
        assert((((x as u64) >> k) & 1) == (((b as u64) >> (7 - t) as u64) & 1)) by (bit_vector)
            requires
                x == ((a as u32) << 24u32) | ((b as u32) << 16u32) | ((c as u32) << 8u32) | (e as u32),
                t < 8,
                k == 23 - t,
        ;
    } else if j < 24 {
        assert((((x as u64) >> k) & 1) == (((c as u64) >> (7 - t) as u64) & 1)) by (bit_vector)
            requires
                x == ((a as u32) << 24u32) | ((b as u32) << 16u32) | ((c as u32) << 8u32) | (e as u32),
                t < 8,
                k == 15 - t,
        ;
    } else {
        assert((((x as u64) >> k) & 1) == (((e as u64) >> (7 - t) as u64) & 1)) by (bit_vector)
            requires
                x == ((a as u32) << 24u32) | ((b as u32) << 16u32) | ((c as u32) << 8u32) | (e as u32),
                t < 8,
                k == 7 - t,
        ;
    }
}

/// The checksum is the number formed by the first `bits` bits of the
/// digest: the first four digest bytes, as an unsigned big-endian number,
/// divided by `2^(32 - bits)`.
pub proof fn law_checksum_is_digest_prefix(digest: Seq<u8>, bits: int)
    requires
        1 <= bits <= 32,
    ensures
        checksum_of_digest(digest, bits) as int == (digest[0] as int * 0x100_0000 + digest[1] as int
            * 0x1_0000 + digest[2] as int * 0x100 + digest[3] as int) / pow2((32 - bits) as nat) as int,
{
    lemma_be_u32_value(digest);
    lemma_u32_shr_is_div(be_u32(digest), (32 - bits) as u32);
}

/// The checksum of entropy is the number formed by the first `bits` bits
/// of SHA-256 of the entropy, and its bits, most significant first, are
/// those bits of the digest.
pub proof fn law_checksum_of_entropy(entropy: Seq<u8>, bits: int)
    requires
        1 <= bits <= 32,
    ensures
        ({
            let h = sha256_of(entropy);
            checksum_spec(entropy, bits) as int == (h[0] as int * 0x100_0000 + h[1] as int * 0x1_0000
                + h[2] as int * 0x100 + h[3] as int) / pow2((32 - bits) as nat) as int
        }),
        forall|j: int|
            0 <= j < bits ==> bit_of(checksum_spec(entropy, bits) as u64, bits - 1 - j) == #[trigger] byte_bit(
                sha256_of(entropy),
                j,
            ),
{
    let h = sha256_of(entropy);
    law_checksum_is_digest_prefix(h, bits);
    assert forall|j: int| 0 <= j < bits implies bit_of(checksum_spec(entropy, bits) as u64, bits - 1 - j)
        == #[trigger] byte_bit(h, j) by {
        lemma_checksum_bit(h, bits, j);
    }
}

/// Bit `bits - 1 - j` of the checksum is bit `31 - j` of the big-endian
/// number, hence bit `j` of the digest.
proof fn lemma_checksum_bit(d: Seq<u8>, bits: int, j: int)
    requires
        1 <= bits <= 32,
        0 <= j < bits,
    ensures
        bit_of(checksum_of_digest(d, bits) as u64, bits - 1 - j) == byte_bit(d, j),
{
    let x = be_u32(d);
    let sh = (32 - bits) as u32;
    let c = checksum_of_digest(d, bits);
    let k = (bits - 1 - j) as u64;
    let m = (31 - j) as u64;
    assert(c == x >> sh);
    assert((((c as u64) >> k) & 1) == (((x as u64) >> m) & 1)) by (bit_vector)
        requires
            c == x >> sh,
            sh < 32,
            k + sh == m,
            m < 32,
    ;
    lemma_be_u32_bit(d, j);
}

/// What the indices of valid entropy hold: read as one bit stream, each
/// index most significant bit first, they are the entropy bits (each byte
/// most significant bit first) followed by the first `n` bits of
/// SHA-256(entropy), for `n` bytes of entropy, and nothing more.
pub proof fn law_indices_are_entropy_then_digest(entropy: Seq<u8>)
    requires
        is_valid_entropy_bits(8 * entropy.len() as int),
    ensures
        12 * entropy_to_indices_spec(entropy).len() == 9 * entropy.len(),
        forall|p: int|
            0 <= p < 8 * entropy.len() ==> #[trigger] index_bit(entropy_to_indices_spec(entropy), p)
                == byte_bit(entropy, p),
        forall|j: int|
            0 <= j < entropy.len() ==> index_bit(entropy_to_indices_spec(entropy), 8 * entropy.len() + j)
                == #[trigger] byte_bit(sha256_of(entropy), j),
{
    let n = entropy.len() as int;
    let eb = 8 * n;
    lemma_sizes(n);
    let cs = checksum_bits_spec(eb);
    let wc = word_count_for_entropy(eb);
    let c = checksum_spec(entropy, cs);
    let e_stream = encode_stream(entropy, c, cs);
    let ix = entropy_to_indices_spec(entropy);
    assert(ix.len() == wc);
    lemma2_to64();
    assert forall|p: int| 0 <= p < 12 * wc implies #[trigger] index_bit(ix, p) == e_stream(p) by {
        let w = p / 12;
        assert(0 <= w < wc);
        lemma_assemble_fits(e_stream, 12 * w, 12);
        assert(ix[w] as u64 == assemble(e_stream, 12 * w, 12) as u64);
        lemma_assemble_bits(e_stream, 12 * w, 12, p);
    }
    assert forall|p: int| 0 <= p < eb implies #[trigger] index_bit(ix, p) == byte_bit(entropy, p) by {
        assert(index_bit(ix, p) == e_stream(p));
    }
    law_checksum_of_entropy(entropy, cs);
    assert forall|j: int| 0 <= j < n implies index_bit(ix, eb + j) == #[trigger] byte_bit(
        sha256_of(entropy),
        j,
    ) by {
        assert(index_bit(ix, eb + j) == e_stream(eb + j));
        assert(e_stream(eb + j) == bit_of(c as u64, cs - 1 - j));
    }
}

} // verus!
