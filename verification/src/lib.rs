//! BLAKE2b, unkeyed and unsalted: the compression function and the driver
//! that feeds a byte stream through it.
//!
//! A word is 64 bits, the working vector sixteen words, a message block
//! 128 bytes read as sixteen little-endian words. The rotation distances of
//! the mixing step are 32, 24, 16 and 63.
//!
//! This file holds the compression engine. [`hashing`] says what the hash of
//! a byte string is, [`driver`] carries the state from block to block,
//! [`tools`] hashes a byte string in memory and encodes the result, and
//! [`words`], [`hex`] and [`constants`] hold what they build on.

use vstd::prelude::*;

pub mod constants;
pub mod driver;
pub mod hashing;
pub mod hex;
pub mod tools;
pub mod words;

use crate::constants::{sigma, IV, SIGMA};
use crate::words::{le_word, rotate_right, rotr, sum64};

verus! {

/// The working vector after one mixing step on slots `a`, `b`, `c`, `d` with
/// message words `x` and `y`. Each line reads the vector as the lines before
/// it left it, so the definition also covers slots that coincide.
#[verifier::opaque]
pub open spec fn mixed(v: Seq<u64>, a: int, b: int, c: int, d: int, x: u64, y: u64) -> Seq<u64> {
    let v = v.update(a, sum64(v[a], sum64(v[b], x)));
    let v = v.update(d, rotr(v[d] ^ v[a], 32));
    let v = v.update(c, sum64(v[c], v[d]));
    let v = v.update(b, rotr(v[b] ^ v[c], 24));
    let v = v.update(a, sum64(v[a], sum64(v[b], y)));
    let v = v.update(d, rotr(v[d] ^ v[a], 16));
    let v = v.update(c, sum64(v[c], v[d]));
    v.update(b, rotr(v[b] ^ v[c], 63))
}

/// The working vector after round `r`: four mixing steps down the columns,
/// then four along the diagonals, step `k` taking the message words that
/// entries `2k` and `2k + 1` of schedule row `r` name.
pub open spec fn round(v: Seq<u64>, m: Seq<u64>, r: int) -> Seq<u64> {
    let v = mixed(v, 0, 4, 8, 12, m[sigma(r, 0)], m[sigma(r, 1)]);
    let v = mixed(v, 1, 5, 9, 13, m[sigma(r, 2)], m[sigma(r, 3)]);
    let v = mixed(v, 2, 6, 10, 14, m[sigma(r, 4)], m[sigma(r, 5)]);
    let v = mixed(v, 3, 7, 11, 15, m[sigma(r, 6)], m[sigma(r, 7)]);
    let v = mixed(v, 0, 5, 10, 15, m[sigma(r, 8)], m[sigma(r, 9)]);
    let v = mixed(v, 1, 6, 11, 12, m[sigma(r, 10)], m[sigma(r, 11)]);
    let v = mixed(v, 2, 7, 8, 13, m[sigma(r, 12)], m[sigma(r, 13)]);
    mixed(v, 3, 4, 9, 14, m[sigma(r, 14)], m[sigma(r, 15)])
}

/// The working vector after rounds `0` to `n - 1`.
pub open spec fn rounds(v: Seq<u64>, m: Seq<u64>, n: nat) -> Seq<u64>
    decreases n,
{
    if n == 0 {
        v
    } else {
        round(rounds(v, m, (n - 1) as nat), m, n - 1)
    }
}

/// The working vector a compression starts from: the hash state, then the
/// initialization vector with the byte counter folded into slot 12 and, for
/// the last block, slot 14 complemented.
pub open spec fn work_vector(h: Seq<u64>, t: u64, last_block: bool) -> Seq<u64> {
    Seq::new(
        16,
        |i: int|
            if i < 8 {
                h[i]
            } else if i == 12 {
                IV[4] ^ t
            } else if i == 14 && last_block {
                !IV[6]
            } else {
                IV[i - 8]
            },
    )
}

/// The sixteen message words of a block: word `i` is encoded by bytes `8i` to
/// `8i + 7`.
pub open spec fn message_words(block: Seq<u8>) -> Seq<u64> {
    Seq::new(16, |i: int| le_word(block.subrange(8 * i, 8 * i + 8)))
}

/// The hash state with the two halves of the working vector folded in.
pub open spec fn folded(h: Seq<u64>, v: Seq<u64>) -> Seq<u64> {
    Seq::new(8, |i: int| h[i] ^ (v[i] ^ v[i + 8]))
}

/// The hash state after compressing one 128-byte block into the state `h`,
/// with byte counter `t`.
#[verifier::opaque]
pub open spec fn compressed(h: Seq<u64>, block: Seq<u8>, t: u64, last_block: bool) -> Seq<u64> {
    folded(h, rounds(work_vector(h, t, last_block), message_words(block), 12))
}

/// A mixing step keeps the length of the working vector and leaves every
/// slot but `a`, `b`, `c` and `d` as it was.
pub proof fn lemma_mixed_frame(v: Seq<u64>, a: int, b: int, c: int, d: int, x: u64, y: u64)
    requires
        0 <= a < v.len(),
        0 <= b < v.len(),
        0 <= c < v.len(),
        0 <= d < v.len(),
    ensures
        mixed(v, a, b, c, d, x, y).len() == v.len(),
        forall|i: int|
            0 <= i < v.len() && i != a && i != b && i != c && i != d ==> mixed(
                v,
                a,
                b,
                c,
                d,
                x,
                y,
            )[i] == v[i],
{
    reveal(mixed);
}

/// A compression yields a hash state of eight words.
pub proof fn lemma_compressed_len(h: Seq<u64>, block: Seq<u8>, t: u64, last_block: bool)
    ensures
        compressed(h, block, t, last_block).len() == 8,
{
    reveal(compressed);
}

/// Mixing step: stirs the message words `x` and `y` into slots `a`, `b`, `c`
/// and `d` of the working vector.
pub fn mix(v: &mut [u64; 16], a: usize, b: usize, c: usize, d: usize, x: &u64, y: &u64)
    requires
        a < 16,
        b < 16,
        c < 16,
        d < 16,
    ensures
        final(v)@ == mixed(old(v)@, a as int, b as int, c as int, d as int, *x, *y),
{
    reveal(mixed);
    v[a] = v[a].wrapping_add(v[b].wrapping_add(*x));
    v[d] = rotate_right(v[d] ^ v[a], 32);

    v[c] = v[c].wrapping_add(v[d]);
    v[b] = rotate_right(v[b] ^ v[c], 24);

    v[a] = v[a].wrapping_add(v[b].wrapping_add(*y));
    v[d] = rotate_right(v[d] ^ v[a], 16);

    v[c] = v[c].wrapping_add(v[d]);
    v[b] = rotate_right(v[b] ^ v[c], 63);
}

/// Reads a 64-bit word from the first eight bytes of `inp`, lowest byte first.
pub fn get_64(inp: &[u8]) -> (w: u64)
    requires
        inp@.len() >= 8,
    ensures
        w == le_word(inp@),
{
    let c0: u64 = inp[0] as u64;
    let c1: u64 = inp[1] as u64;
    let c2: u64 = inp[2] as u64;
    let c3: u64 = inp[3] as u64;
    let c4: u64 = inp[4] as u64;
    let c5: u64 = inp[5] as u64;
    let c6: u64 = inp[6] as u64;
    let c7: u64 = inp[7] as u64;
    assert(c0 ^ (c1 << 8) ^ (c2 << 16) ^ (c3 << 24) ^ (c4 << 32) ^ (c5 << 40) ^ (c6 << 48) ^ (c7
        << 56) == c0 + c1 * 0x100 + c2 * 0x1_0000 + c3 * 0x100_0000 + c4 * 0x1_0000_0000 + c5
        * 0x100_0000_0000 + c6 * 0x1_0000_0000_0000 + c7 * 0x100_0000_0000_0000) by (bit_vector)
        requires
            c0 < 0x100 && c1 < 0x100 && c2 < 0x100 && c3 < 0x100,
            c4 < 0x100 && c5 < 0x100 && c6 < 0x100 && c7 < 0x100,
    ;
    c0 ^ (c1 << 8) ^ (c2 << 16) ^ (c3 << 24) ^ (c4 << 32) ^ (c5 << 40) ^ (c6 << 48) ^ (c7 << 56)
}

/// Compression function: folds one 128-byte block into the hash state.
///
/// `t` is the number of bytes hashed so far, this block included, or the
/// length of the whole input when `last_block` is set.
pub fn blake_compress(h: &mut [u64; 8], block: &[u8; 128], t: u64, last_block: bool)
    ensures
        final(h)@ == compressed(old(h)@, block@, t, last_block),
{
    reveal(compressed);
    let mut v: [u64; 16] = [
        h[0], h[1], h[2], h[3],
        h[4], h[5], h[6], h[7],
        IV[0], IV[1], IV[2], IV[3],
        IV[4] ^ t, IV[5], IV[6], IV[7],
    ];

    if last_block {
        v[14] = !v[14];
    }
    assert(v@ =~= work_vector(h@, t, last_block));

    // The block as sixteen words.
    let mut m = [0u64; 16];
    for i in 0usize..16
        invariant
            forall|j: int| 0 <= j < i ==> m@[j] == message_words(block@)[j],
    {
        m[i] = get_64(&block[8 * i..8 * i + 8]);
    }
    assert(m@ =~= message_words(block@));

    let ghost v0 = v@;
    for i in 0usize..12
        invariant
            v@ == rounds(v0, m@, i as nat),
    {
        mix(&mut v, 0, 4, 8, 12, &m[SIGMA[i][0]], &m[SIGMA[i][1]]);
        mix(&mut v, 1, 5, 9, 13, &m[SIGMA[i][2]], &m[SIGMA[i][3]]);
        mix(&mut v, 2, 6, 10, 14, &m[SIGMA[i][4]], &m[SIGMA[i][5]]);
        mix(&mut v, 3, 7, 11, 15, &m[SIGMA[i][6]], &m[SIGMA[i][7]]);

        mix(&mut v, 0, 5, 10, 15, &m[SIGMA[i][8]], &m[SIGMA[i][9]]);
        mix(&mut v, 1, 6, 11, 12, &m[SIGMA[i][10]], &m[SIGMA[i][11]]);
        mix(&mut v, 2, 7, 8, 13, &m[SIGMA[i][12]], &m[SIGMA[i][13]]);
        mix(&mut v, 3, 4, 9, 14, &m[SIGMA[i][14]], &m[SIGMA[i][15]]);
    }

    // Fold both halves of the working vector into the state.
    let ghost h0 = h@;
    for i in 0usize..8
        invariant
            h@.len() == 8,
            forall|j: int| 0 <= j < i ==> h@[j] == folded(h0, v@)[j],
            forall|j: int| i <= j < 8 ==> h@[j] == h0[j],
    {
        h[i] ^= v[i] ^ v[i + 8];
    }
    assert(h@ =~= folded(h0, v@));
}

} // verus!
