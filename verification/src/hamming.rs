//! Hamming distance between two census descriptors.

use vstd::prelude::*;

verus! {

/// Number of set bits in a byte.
pub open spec fn popcount8(v: u8) -> int {
    (v & 1) + ((v >> 1) & 1) + ((v >> 2) & 1) + ((v >> 3) & 1) + ((v >> 4) & 1) + ((v >> 5) & 1)
        + ((v >> 6) & 1) + ((v >> 7) & 1)
}

/// Hamming distance of two bytes: the number of bit positions where they
/// differ.
pub open spec fn hamming(a: u8, b: u8) -> int {
    popcount8(a ^ b)
}

/// Counts the bits on which the two descriptors disagree.
pub fn calc_hamming_distance(val_l: u8, val_r: u8) -> (r: u8)
    ensures
        r as int == hamming(val_l, val_r),
        r <= 8,
{
    let x = val_l ^ val_r;
    proof {
        assert((x & 1) <= 1 && ((x >> 1) & 1) <= 1 && ((x >> 2) & 1) <= 1 && ((x >> 3) & 1) <= 1
            && ((x >> 4) & 1) <= 1 && ((x >> 5) & 1) <= 1 && ((x >> 6) & 1) <= 1
            && ((x >> 7) & 1) <= 1) by (bit_vector);
    }
    (x & 1) + ((x >> 1) & 1) + ((x >> 2) & 1) + ((x >> 3) & 1) + ((x >> 4) & 1) + ((x >> 5) & 1)
        + ((x >> 6) & 1) + ((x >> 7) & 1)
}

/// The Hamming distance is symmetric in its two arguments.
pub proof fn lemma_hamming_symmetric(a: u8, b: u8)
    ensures
        hamming(a, b) == hamming(b, a),
{
    assert(a ^ b == b ^ a) by (bit_vector);
}

/// The Hamming distance is zero exactly on equal bytes.
pub proof fn lemma_hamming_zero_iff_equal(a: u8, b: u8)
    ensures
        hamming(a, b) == 0 <==> a == b,
{
    assert(a == b ==> a ^ b == 0) by (bit_vector);
    assert((0u8 & 1) == 0 && ((0u8 >> 1) & 1) == 0 && ((0u8 >> 2) & 1) == 0
        && ((0u8 >> 3) & 1) == 0 && ((0u8 >> 4) & 1) == 0 && ((0u8 >> 5) & 1) == 0
        && ((0u8 >> 6) & 1) == 0 && ((0u8 >> 7) & 1) == 0) by (bit_vector);
    let x = a ^ b;
    assert(x != 0 ==> (x & 1) == 1 || ((x >> 1) & 1) == 1 || ((x >> 2) & 1) == 1
        || ((x >> 3) & 1) == 1 || ((x >> 4) & 1) == 1 || ((x >> 5) & 1) == 1
        || ((x >> 6) & 1) == 1 || ((x >> 7) & 1) == 1) by (bit_vector);
    assert(x == 0 ==> a == b) by (bit_vector)
        requires
            x == a ^ b,
    ;
}

/// The Hamming distance of a byte pair never exceeds the byte width.
pub proof fn lemma_hamming_le_8(a: u8, b: u8)
    ensures
        0 <= hamming(a, b) <= 8,
{
    let x = a ^ b;
    assert((x & 1) <= 1 && ((x >> 1) & 1) <= 1 && ((x >> 2) & 1) <= 1 && ((x >> 3) & 1) <= 1
        && ((x >> 4) & 1) <= 1 && ((x >> 5) & 1) <= 1 && ((x >> 6) & 1) <= 1
        && ((x >> 7) & 1) <= 1) by (bit_vector);
}

} // verus!
