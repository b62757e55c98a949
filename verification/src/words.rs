//! 64-bit words: modular sum, rotation, and the little-endian byte encoding.

use vstd::prelude::*;

verus! {

/// The sum of two words modulo 2^64: the sum itself where it fits in a
/// word, else the sum less 2^64.
pub open spec fn sum64(x: u64, y: u64) -> u64 {
    if x + y > u64::MAX {
        (x + y - 0x1_0000_0000_0000_0000) as u64
    } else {
        (x + y) as u64
    }
}

/// The word `x` rotated right by `n` bit positions, for `0 < n < 64`: the low
/// `n` bits of `x` become the high bits of the result.
pub open spec fn rotr(x: u64, n: u64) -> u64 {
    (x >> n) | (x << ((64 - n) as u64))
}

/// The word whose little-endian encoding is the first eight bytes of `s`.
pub open spec fn le_word(s: Seq<u8>) -> u64 {
    (s[0] as int
        + s[1] as int * 0x100
        + s[2] as int * 0x1_0000
        + s[3] as int * 0x100_0000
        + s[4] as int * 0x1_0000_0000
        + s[5] as int * 0x100_0000_0000
        + s[6] as int * 0x1_0000_0000_0000
        + s[7] as int * 0x100_0000_0000_0000) as u64
}

/// The eight bytes of the little-endian encoding of `w`, lowest byte first.
pub open spec fn le_bytes(w: u64) -> Seq<u8> {
    seq![
        (w % 0x100) as u8,
        (w / 0x100 % 0x100) as u8,
        (w / 0x1_0000 % 0x100) as u8,
        (w / 0x100_0000 % 0x100) as u8,
        (w / 0x1_0000_0000 % 0x100) as u8,
        (w / 0x100_0000_0000 % 0x100) as u8,
        (w / 0x1_0000_0000_0000 % 0x100) as u8,
        (w / 0x100_0000_0000_0000 % 0x100) as u8,
    ]
}

/// `sum64` is the remainder of the sum on division by 2^64.
pub proof fn lemma_sum64_is_remainder(x: u64, y: u64)
    ensures
        sum64(x, y) == (x + y) % 0x1_0000_0000_0000_0000,
{
}

/// Rotates a word right by `n` bit positions.
pub fn rotate_right(x: u64, n: u32) -> (r: u64)
    requires
        0 < n < 64,
    ensures
        r == rotr(x, n as u64),
{
    (x >> n) | (x << (64 - n))
}

/// The four rotations of the mixing step, read as arithmetic: rotating right
/// by `n` divides the word by 2^n and puts the remainder on top.
pub proof fn lemma_rotr_arithmetic(x: u64)
    ensures
        rotr(x, 32) == x / 0x1_0000_0000 + (x % 0x1_0000_0000) * 0x1_0000_0000,
        rotr(x, 24) == x / 0x100_0000 + (x % 0x100_0000) * 0x100_0000_0000,
        rotr(x, 16) == x / 0x1_0000 + (x % 0x1_0000) * 0x1_0000_0000_0000,
        rotr(x, 63) == x / 0x8000_0000_0000_0000 + (x % 0x8000_0000_0000_0000) * 2,
{
    assert(((x >> 32u64) | (x << 32u64)) == x / 0x1_0000_0000 + (x % 0x1_0000_0000)
        * 0x1_0000_0000) by (bit_vector);
    assert(((x >> 24u64) | (x << 40u64)) == x / 0x100_0000 + (x % 0x100_0000) * 0x100_0000_0000)
        by (bit_vector);
    assert(((x >> 16u64) | (x << 48u64)) == x / 0x1_0000 + (x % 0x1_0000) * 0x1_0000_0000_0000)
        by (bit_vector);
    assert(((x >> 63u64) | (x << 1u64)) == x / 0x8000_0000_0000_0000 + (x
        % 0x8000_0000_0000_0000) * 2) by (bit_vector);
}

/// Byte `k` of the encoding of a word is the word shifted right by `8k` bits
/// and cut down to its low eight bits.
pub proof fn lemma_shifted_byte(w: u64, shift: u64)
    requires
        shift % 8 == 0,
        shift < 64,
    ensures
        (w >> shift) as u8 == le_bytes(w)[shift as int / 8],
{
    assert((w >> 0u64) as u8 == (w % 0x100) as u8
        && (w >> 8u64) as u8 == (w / 0x100 % 0x100) as u8
        && (w >> 16u64) as u8 == (w / 0x1_0000 % 0x100) as u8
        && (w >> 24u64) as u8 == (w / 0x100_0000 % 0x100) as u8
        && (w >> 32u64) as u8 == (w / 0x1_0000_0000 % 0x100) as u8
        && (w >> 40u64) as u8 == (w / 0x100_0000_0000 % 0x100) as u8
        && (w >> 48u64) as u8 == (w / 0x1_0000_0000_0000 % 0x100) as u8
        && (w >> 56u64) as u8 == (w / 0x100_0000_0000_0000 % 0x100) as u8) by (bit_vector);
}

/// Decoding the encoding of a word gives the word back.
pub proof fn lemma_le_word_of_le_bytes(w: u64)
    ensures
        le_bytes(w).len() == 8,
        le_word(le_bytes(w)) == w,
{
    let c0: u64 = w % 0x100;
    let c1: u64 = w / 0x100 % 0x100;
    let c2: u64 = w / 0x1_0000 % 0x100;
    let c3: u64 = w / 0x100_0000 % 0x100;
    let c4: u64 = w / 0x1_0000_0000 % 0x100;
    let c5: u64 = w / 0x100_0000_0000 % 0x100;
    let c6: u64 = w / 0x1_0000_0000_0000 % 0x100;
    let c7: u64 = w / 0x100_0000_0000_0000 % 0x100;
    assert(c0 + c1 * 0x100 + c2 * 0x1_0000 + c3 * 0x100_0000 + c4 * 0x1_0000_0000
        + c5 * 0x100_0000_0000 + c6 * 0x1_0000_0000_0000 + c7 * 0x100_0000_0000_0000 == w)
        by (bit_vector)
        requires
            c0 == w % 0x100,
            c1 == w / 0x100 % 0x100,
            c2 == w / 0x1_0000 % 0x100,
            c3 == w / 0x100_0000 % 0x100,
            c4 == w / 0x1_0000_0000 % 0x100,
            c5 == w / 0x100_0000_0000 % 0x100,
            c6 == w / 0x1_0000_0000_0000 % 0x100,
            c7 == w / 0x100_0000_0000_0000 % 0x100,
    ;
}

/// Encoding the word decoded from eight bytes gives the bytes back.
pub proof fn lemma_le_bytes_of_le_word(s: Seq<u8>)
    requires
        s.len() == 8,
    ensures
        le_bytes(le_word(s)) == s,
{
    let c0: u64 = s[0] as u64;
    let c1: u64 = s[1] as u64;
    let c2: u64 = s[2] as u64;
    let c3: u64 = s[3] as u64;
    let c4: u64 = s[4] as u64;
    let c5: u64 = s[5] as u64;
    let c6: u64 = s[6] as u64;
    let c7: u64 = s[7] as u64;
    let w = le_word(s);
    assert(w == c0 + c1 * 0x100 + c2 * 0x1_0000 + c3 * 0x100_0000 + c4 * 0x1_0000_0000
        + c5 * 0x100_0000_0000 + c6 * 0x1_0000_0000_0000 + c7 * 0x100_0000_0000_0000);
    assert(w % 0x100 == c0
        && w / 0x100 % 0x100 == c1
        && w / 0x1_0000 % 0x100 == c2
        && w / 0x100_0000 % 0x100 == c3
        && w / 0x1_0000_0000 % 0x100 == c4
        && w / 0x100_0000_0000 % 0x100 == c5
        && w / 0x1_0000_0000_0000 % 0x100 == c6
        && w / 0x100_0000_0000_0000 % 0x100 == c7) by (bit_vector)
        requires
            c0 < 0x100 && c1 < 0x100 && c2 < 0x100 && c3 < 0x100,
            c4 < 0x100 && c5 < 0x100 && c6 < 0x100 && c7 < 0x100,
            w == c0 + c1 * 0x100 + c2 * 0x1_0000 + c3 * 0x100_0000 + c4 * 0x1_0000_0000
                + c5 * 0x100_0000_0000 + c6 * 0x1_0000_0000_0000 + c7 * 0x100_0000_0000_0000,
    ;
    assert(le_bytes(w) =~= s);
}

} // verus!
