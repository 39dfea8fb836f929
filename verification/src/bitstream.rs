//! Bit-level model shared by the encoder and the decoder.
//!
//! A bit stream is a spec closure from bit positions to bits.  `assemble`
//! reads a run of consecutive positions as a binary number, most
//! significant bit first, which is how both the idiom indices and the
//! entropy bytes are laid out.
use vstd::arithmetic::power2::*;
use vstd::prelude::*;

verus! {

/// The numeric value (0 or 1) of a bit.
pub open spec fn bitval(b: bool) -> nat {
    if b {
        1
    } else {
        0
    }
}

/// Bit `j` of `v`, counted from the least significant end.
pub open spec fn bit_of(v: u64, j: int) -> bool {
    (v >> (j as u64)) & 1 == 1
}

/// The number whose binary digits, most significant first, are the bits of
/// `f` at positions `start, start + 1, .., start + len - 1`.
pub open spec fn assemble(f: spec_fn(int) -> bool, start: int, len: nat) -> nat
    decreases len,
{
    if len == 0 {
        0
    } else {
        2 * assemble(f, start, (len - 1) as nat) + bitval(f(start + len - 1))
    }
}

/// Masking with 1 leaves a single bit.
pub proof fn lemma_low_bit(x: u64)
    ensures
        (x & 1) == 0 || (x & 1) == 1,
{
    assert((x & 1) == 0 || (x & 1) == 1) by (bit_vector);
}

/// The bit read by `(v >> j) & 1` is `bit_of(v, j)`, as a number.
pub proof fn lemma_bit_value(v: u64, j: u64)
    ensures
        ((v >> j) & 1) as nat == bitval(bit_of(v, j as int)),
{
    lemma_low_bit(v >> j);
}

/// An assembled run of `len` bits is below `2^len`.
pub proof fn lemma_assemble_bound(f: spec_fn(int) -> bool, start: int, len: nat)
    ensures
        assemble(f, start, len) < pow2(len),
    decreases len,
{
    if len == 0 {
        lemma2_to64();
    } else {
        lemma_assemble_bound(f, start, (len - 1) as nat);
        lemma_pow2_unfold(len);
    }
}

/// Assembling at most 32 bits gives a value below `2^len <= 2^32`.
pub proof fn lemma_assemble_fits(f: spec_fn(int) -> bool, start: int, len: nat)
    requires
        len <= 32,
    ensures
        assemble(f, start, len) < pow2(len),
        pow2(len) <= 0x1_0000_0000,
{
    lemma_assemble_bound(f, start, len);
    lemma2_to64();
    if len < 32 {
        lemma_pow2_strictly_increases(len, 32);
    }
}

/// Two streams that agree on a run assemble to the same number on it.
pub proof fn lemma_assemble_ext(f: spec_fn(int) -> bool, g: spec_fn(int) -> bool, start: int, len: nat)
    requires
        forall|p: int| start <= p < start + len ==> #[trigger] f(p) == g(p),
    ensures
        assemble(f, start, len) == assemble(g, start, len),
    decreases len,
{
    if len > 0 {
        lemma_assemble_ext(f, g, start, (len - 1) as nat);
        assert(f(start + len - 1) == g(start + len - 1));
    }
}

proof fn lemma_double_plus_bit(a: u64, x: u64, v: u64, j: u64)
    requires
        a < 0x8000_0000_0000_0000,
        x <= 1,
        v == 2 * a + x,
        1 <= j < 64,
    ensures
        (v & 1) == x,
        ((v >> j) & 1) == ((a >> (j - 1) as u64) & 1),
{
    assert((v & 1) == x) by (bit_vector)
        requires
            a < 0x8000_0000_0000_0000,
            x <= 1,
            v == 2 * a + x,
    ;
    assert(((v >> j) & 1) == ((a >> (j - 1) as u64) & 1)) by (bit_vector)
        requires
            a < 0x8000_0000_0000_0000,
            x <= 1,
            v == 2 * a + x,
            1 <= j < 64,
    ;
}

/// Reading bit `j` back out of an assembled run gives the stream's bit at
/// the matching position.
pub proof fn lemma_assemble_bits(f: spec_fn(int) -> bool, start: int, len: nat, p: int)
    requires
        len <= 32,
        start <= p < start + len,
    ensures
        bit_of(assemble(f, start, len) as u64, start + len - 1 - p) == f(p),
    decreases len,
{
    let prev = (len - 1) as nat;
    let a = assemble(f, start, prev);
    let x = bitval(f(start + len - 1));
    lemma_assemble_fits(f, start, prev);
    lemma_assemble_fits(f, start, len);
    let v = assemble(f, start, len);
    assert(v == 2 * a + x);
    let j = start + len - 1 - p;
    if j == 0 {
        lemma_double_plus_bit(a as u64, x as u64, v as u64, 1);
        let w = v as u64;
        assert((w >> 0u64) == w) by (bit_vector);
    } else {
        lemma_double_plus_bit(a as u64, x as u64, v as u64, j as u64);
        lemma_assemble_bits(f, start, prev, p);
    }
}

proof fn lemma_shift_split(v: u64, k: u64)
    requires
        k < 63,
    ensures
        (v >> k) == 2 * (v >> (k + 1) as u64) + ((v >> k) & 1),
{
    assert((v >> k) == 2 * (v >> (k + 1) as u64) + ((v >> k) & 1)) by (bit_vector)
        requires
            k < 63,
    ;
}

/// The bits of `v` between positions `m - 1` and `m - i`, assembled, are
/// `v >> (m - i)`.
proof fn lemma_assemble_prefix_of_value(v: u64, m: nat, start: int, i: nat)
    requires
        m <= 32,
        i <= m,
        (v >> m as u64) == 0,
    ensures
        assemble(|p: int| bit_of(v, start + m - 1 - p), start, i) == (v >> (m - i) as u64) as nat,
    decreases i,
{
    let f = |p: int| bit_of(v, start + m - 1 - p);
    if i > 0 {
        lemma_assemble_prefix_of_value(v, m, start, (i - 1) as nat);
        let k = (m - i) as u64;
        lemma_shift_split(v, k);
        lemma_bit_value(v, k);
        assert(f(start + i - 1) == bit_of(v, k as int));
    }
}

/// A value below `2^m`, read bit by bit from the top, is the value itself.
pub proof fn lemma_assemble_value(v: u64, m: nat, start: int)
    requires
        m <= 32,
        (v >> m as u64) == 0,
    ensures
        assemble(|p: int| bit_of(v, start + m - 1 - p), start, m) == v,
{
    lemma_assemble_prefix_of_value(v, m, start, m);
    assert((v >> 0u64) == v) by (bit_vector);
}

} // verus!
