//! Exchanging two bit fields of a hypercube index.
//!
//! A point of the Boolean hypercube `{0,1}^n` is stored as an integer whose
//! bit `i` (bit 0 is the least significant) is the value of variable `x_i`.
//! Renaming variables therefore permutes the bits of every index; the
//! permutation used throughout the crate trades two equally wide, disjoint
//! bit fields.

use vstd::arithmetic::power2::pow2;
use vstd::bits::{lemma_usize_pow2_no_overflow, lemma_usize_shl_is_mul, lemma_usize_shr_is_div};
use vstd::prelude::*;

verus! {

/// Bit `i` of `x`, bit 0 being the least significant.
pub open spec fn bit(x: usize, i: usize) -> bool {
    (x >> i) & 1 == 1
}

/// The fields `[a, a + k)` and `[b, b + k)` both lie below `width` and share
/// no position.
pub open spec fn disjoint_fields(a: usize, b: usize, k: usize, width: nat) -> bool {
    &&& a + k <= width
    &&& b + k <= width
    &&& (a + k <= b || b + k <= a)
}

/// The position whose bit ends up at position `i` once the fields
/// `[a, a + k)` and `[b, b + k)` have traded places.
pub open spec fn source_bit(i: usize, a: usize, b: usize, k: usize) -> usize {
    if a <= i && i < a + k {
        (i - a + b) as usize
    } else if b <= i && i < b + k {
        (i - b + a) as usize
    } else {
        i
    }
}

/// `y` is `x` with the `k`-bit fields at `a` and `b` exchanged: every bit of
/// `y` is the bit of `x` found at its source position.
pub open spec fn is_field_swap(x: usize, y: usize, a: usize, b: usize, k: usize) -> bool {
    forall|i: usize| i < usize::BITS ==> bit(y, i) == bit(x, #[trigger] source_bit(i, a, b, k))
}

/// The index `x` with the `n`-bit fields at `a` and `b` exchanged.
///
/// Both fields are read, their bitwise difference is formed, and the
/// difference is folded back into both places: a position flips exactly
/// when the two fields disagree there.
pub open spec fn swap_bits_spec(x: usize, a: usize, b: usize, n: usize) -> usize {
    let mask = ((1usize << n) - 1) as usize;
    let difference = ((x >> a) & mask) ^ ((x >> b) & mask);
    x ^ ((difference << a) | (difference << b))
}

/// Swaps the bits of `x` at positions `a..a+n` with those at `b..b+n`,
/// leaving every other bit in place.
///
/// The two fields must lie within the machine word and must not overlap.
#[verifier::when_used_as_spec(swap_bits_spec)]
pub fn swap_bits(x: usize, a: usize, b: usize, n: usize) -> (r: usize)
    requires
        a < usize::BITS,
        b < usize::BITS,
        disjoint_fields(a, b, n, usize::BITS as nat),
    ensures
        r == swap_bits_spec(x, a, b, n),
        is_field_swap(x, r, a, b, n),
{
    proof {
        lemma_mask_fits(n);
        lemma_swap_bits_exchanges_fields(x, a, b, n);
    }
    let a_bits = (x >> a) & ((1usize << n) - 1);
    let b_bits = (x >> b) & ((1usize << n) - 1);
    let local_xor_mask = a_bits ^ b_bits;
    let global_xor_mask = (local_xor_mask << a) | (local_xor_mask << b);
    x ^ global_xor_mask
}

/// A one shifted by less than the word size is not zero.
proof fn lemma_mask_fits(n: usize)
    by (bit_vector)
    requires
        n < usize::BITS,
    ensures
        (1usize << n) >= 1,
{
}

/// A bit of an exclusive or is set exactly when the operands differ there.
proof fn lemma_bit_xor(p: usize, q: usize, i: usize)
    by (bit_vector)
    requires
        i < usize::BITS,
    ensures
        bit(p ^ q, i) == (bit(p, i) != bit(q, i)),
{
}

/// A bit of a union is set exactly when it is set in either operand.
proof fn lemma_bit_or(p: usize, q: usize, i: usize)
    by (bit_vector)
    requires
        i < usize::BITS,
    ensures
        bit(p | q, i) == (bit(p, i) || bit(q, i)),
{
}

/// A bit of an intersection is set exactly when it is set in both operands.
proof fn lemma_bit_and(p: usize, q: usize, i: usize)
    by (bit_vector)
    requires
        i < usize::BITS,
    ensures
        bit(p & q, i) == (bit(p, i) && bit(q, i)),
{
}

/// Shifting left by `s` moves bit `i - s` to position `i` and clears the
/// positions below `s`.
proof fn lemma_bit_shl(p: usize, s: usize, i: usize)
    by (bit_vector)
    requires
        s < usize::BITS,
        i < usize::BITS,
    ensures
        bit(p << s, i) == (i >= s && bit(p, (i - s) as usize)),
{
}

/// Shifting right by `s` moves bit `i + s` to position `i` and clears the
/// positions that would come from beyond the word.
proof fn lemma_bit_shr(p: usize, s: usize, i: usize)
    by (bit_vector)
    requires
        s < usize::BITS,
        i < usize::BITS,
    ensures
        bit(p >> s, i) == (i + s < usize::BITS && bit(p, (i + s) as usize)),
{
}

/// The mask of width `n` has exactly its `n` lowest bits set.
proof fn lemma_bit_mask(n: usize, i: usize)
    by (bit_vector)
    requires
        n < usize::BITS,
        i < usize::BITS,
    ensures
        bit(((1usize << n) - 1) as usize, i) == (i < n),
{
}

/// Bit `i` of the swapped index is the bit of `x` at the source position of `i`.
pub proof fn lemma_swap_bits_bit(x: usize, a: usize, b: usize, n: usize, i: usize)
    requires
        a < usize::BITS,
        b < usize::BITS,
        disjoint_fields(a, b, n, usize::BITS as nat),
        i < usize::BITS,
    ensures
        bit(swap_bits_spec(x, a, b, n), i) == bit(x, source_bit(i, a, b, n)),
{
    let mask = ((1usize << n) - 1) as usize;
    let a_bits = (x >> a) & mask;
    let b_bits = (x >> b) & mask;
    let difference = a_bits ^ b_bits;
    let spread = (difference << a) | (difference << b);
    assert(swap_bits_spec(x, a, b, n) == x ^ spread);
    lemma_bit_xor(x, spread, i);
    lemma_bit_or(difference << a, difference << b, i);
    lemma_bit_shl(difference, a, i);
    lemma_bit_shl(difference, b, i);
    if i >= a {
        lemma_difference_bit(x, a, b, n, (i - a) as usize);
    }
    if i >= b {
        lemma_difference_bit(x, a, b, n, (i - b) as usize);
    }
}

/// Bit `j` of the difference of the two fields: set exactly when `j` lies in
/// the field width and the fields disagree at offset `j`.
proof fn lemma_difference_bit(x: usize, a: usize, b: usize, n: usize, j: usize)
    requires
        a < usize::BITS,
        b < usize::BITS,
        disjoint_fields(a, b, n, usize::BITS as nat),
        j < usize::BITS,
    ensures
        ({
            let mask = ((1usize << n) - 1) as usize;
            let difference = ((x >> a) & mask) ^ ((x >> b) & mask);
            bit(difference, j) == (j < n && bit(x, (j + a) as usize) != bit(x, (j + b) as usize))
        }),
{
    let mask = ((1usize << n) - 1) as usize;
    lemma_bit_xor((x >> a) & mask, (x >> b) & mask, j);
    lemma_bit_and(x >> a, mask, j);
    lemma_bit_and(x >> b, mask, j);
    lemma_bit_mask(n, j);
    lemma_bit_shr(x, a, j);
    lemma_bit_shr(x, b, j);
}

/// The swapped index is `x` with the two fields exchanged.
pub proof fn lemma_swap_bits_exchanges_fields(x: usize, a: usize, b: usize, n: usize)
    requires
        a < usize::BITS,
        b < usize::BITS,
        disjoint_fields(a, b, n, usize::BITS as nat),
    ensures
        is_field_swap(x, swap_bits_spec(x, a, b, n), a, b, n),
{
    assert forall|i: usize| i < usize::BITS implies bit(swap_bits_spec(x, a, b, n), i) == bit(
        x,
        #[trigger] source_bit(i, a, b, n),
    ) by {
        lemma_swap_bits_bit(x, a, b, n, i);
    }
}

/// Words that agree at bit `k` and everywhere above it agree once shifted
/// right by `k`.
proof fn lemma_shifted_step(x: usize, y: usize, k: usize)
    by (bit_vector)
    requires
        k < usize::BITS,
        bit(x, k) == bit(y, k),
        k + 1 < usize::BITS ==> (x >> ((k + 1) as usize)) == (y >> ((k + 1) as usize)),
    ensures
        (x >> k) == (y >> k),
{
}

/// Words with the same bits agree after any right shift.
proof fn lemma_equal_bits_from(x: usize, y: usize, k: usize)
    requires
        forall|i: usize| i < usize::BITS ==> bit(x, i) == bit(y, i),
        k < usize::BITS,
    ensures
        (x >> k) == (y >> k),
    decreases usize::BITS - k,
{
    if k + 1 < usize::BITS {
        lemma_equal_bits_from(x, y, (k + 1) as usize);
    }
    lemma_shifted_step(x, y, k);
}

/// Two words with the same bits are the same word.
pub proof fn lemma_equal_bits(x: usize, y: usize)
    requires
        forall|i: usize| i < usize::BITS ==> bit(x, i) == bit(y, i),
    ensures
        x == y,
{
    lemma_equal_bits_from(x, y, 0);
    assert(x >> 0usize == x) by (bit_vector);
    assert(y >> 0usize == y) by (bit_vector);
}

/// Exchanging the same two fields twice restores the index.
pub proof fn lemma_swap_bits_involution(x: usize, a: usize, b: usize, n: usize)
    requires
        a < usize::BITS,
        b < usize::BITS,
        disjoint_fields(a, b, n, usize::BITS as nat),
    ensures
        swap_bits_spec(swap_bits_spec(x, a, b, n), a, b, n) == x,
{
    let once = swap_bits_spec(x, a, b, n);
    let twice = swap_bits_spec(once, a, b, n);
    assert forall|i: usize| i < usize::BITS implies bit(twice, i) == bit(x, i) by {
        lemma_swap_bits_bit(once, a, b, n, i);
        lemma_swap_bits_bit(x, a, b, n, source_bit(i, a, b, n));
    }
    lemma_equal_bits(twice, x);
}

/// An index is determined by its fields: whatever has the bits of `x` with
/// the two fields exchanged is the swapped index.
pub proof fn lemma_field_swap_unique(x: usize, y: usize, a: usize, b: usize, n: usize)
    requires
        a < usize::BITS,
        b < usize::BITS,
        disjoint_fields(a, b, n, usize::BITS as nat),
        is_field_swap(x, y, a, b, n),
    ensures
        y == swap_bits_spec(x, a, b, n),
{
    let r = swap_bits_spec(x, a, b, n);
    assert forall|i: usize| i < usize::BITS implies bit(y, i) == bit(r, i) by {
        lemma_swap_bits_bit(x, a, b, n, i);
        assert(bit(y, i) == bit(x, source_bit(i, a, b, n)));
    }
    lemma_equal_bits(y, r);
}

/// A word below `2^m` has no bit set at position `m` or above.
proof fn lemma_small_has_high_bits_clear(x: usize, m: usize, i: usize)
    by (bit_vector)
    requires
        m <= i,
        i < usize::BITS,
        x < (1usize << m),
    ensures
        !bit(x, i),
{
}

/// A word that vanishes when shifted right by `m` is below `2^m`.
proof fn lemma_vanishing_shift_is_small(x: usize, m: usize)
    by (bit_vector)
    requires
        m < usize::BITS,
        (x >> m) == 0,
    ensures
        x < (1usize << m),
{
}

/// Zero has no bit set.
proof fn lemma_zero_has_no_bits(i: usize)
    by (bit_vector)
    requires
        i < usize::BITS,
    ensures
        !bit(0usize, i),
{
}

/// For `m` below the word size, `1 << m` is `2^m`.
pub proof fn lemma_one_shl_is_pow2(m: usize)
    requires
        m < usize::BITS,
    ensures
        (1usize << m) == pow2(m as nat),
{
    lemma_usize_pow2_no_overflow(m as nat);
    lemma_usize_shl_is_mul(1usize, m);
}

/// Exchanging two fields that lie within the `m` lowest bits keeps an index
/// of the `m`-dimensional hypercube on that hypercube.
pub proof fn lemma_swap_bits_bound(x: usize, a: usize, b: usize, n: usize, m: usize)
    requires
        m < usize::BITS,
        disjoint_fields(a, b, n, m as nat),
        x < pow2(m as nat),
    ensures
        swap_bits_spec(x, a, b, n) < pow2(m as nat),
{
    let r = swap_bits_spec(x, a, b, n);
    lemma_one_shl_is_pow2(m);
    assert forall|j: usize| j < usize::BITS implies bit(r >> m, j) == bit(0usize, j) by {
        lemma_bit_shr(r, m, j);
        lemma_zero_has_no_bits(j);
        if j + m < usize::BITS {
            let i = (j + m) as usize;
            lemma_swap_bits_bit(x, a, b, n, i);
            lemma_small_has_high_bits_clear(x, m, i);
        }
    }
    lemma_equal_bits(r >> m, 0usize);
    lemma_vanishing_shift_is_small(r, m);
}

/// The lowest bit of a word is its parity.
proof fn lemma_low_bit_is_parity(x: usize)
    by (bit_vector)
    ensures
        (x & 1 == 1) == (x % 2 == 1),
{
}

/// Bit `i` of `x` is the parity of `x / 2^i`.
pub proof fn lemma_bit_is_parity_of_quotient(x: usize, i: usize)
    requires
        i < usize::BITS,
    ensures
        bit(x, i) == ((x as nat / pow2(i as nat)) % 2 == 1),
{
    lemma_usize_shr_is_div(x, i);
    lemma_low_bit_is_parity(x >> i);
}

} // verus!
