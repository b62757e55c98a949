//! The fixed tables of BLAKE2b.

use vstd::prelude::*;

verus! {

/// Initialization vector: the hash state before the parameter word is mixed in.
pub const IV: [u64; 8] = [
    0x6A09E667F3BCC908, 0xBB67AE8584CAA73B,
    0x3C6EF372FE94F82B, 0xA54FF53A5F1D36F1,
    0x510E527FADE682D1, 0x9B05688C2B3E6C1F,
    0x1F83D9ABFB41BD6B, 0x5BE0CD19137E2179,
];

/// Message schedule: row `r` lists, in order, the message words that the
/// eight mixing steps of round `r` consume, two per step.
pub const SIGMA: [[usize; 16]; 12] = [
    [0, 1, 2, 3, 4, 5, 6, 7, 8, 9, 10, 11, 12, 13, 14, 15],
    [14, 10, 4, 8, 9, 15, 13, 6, 1, 12, 0, 2, 11, 7, 5, 3],
    [11, 8, 12, 0, 5, 2, 15, 13, 10, 14, 3, 6, 7, 1, 9, 4],
    [7, 9, 3, 1, 13, 12, 11, 14, 2, 6, 5, 10, 4, 0, 15, 8],
    [9, 0, 5, 7, 2, 4, 10, 15, 14, 1, 11, 12, 6, 8, 3, 13],
    [2, 12, 6, 10, 0, 11, 8, 3, 4, 13, 7, 5, 15, 14, 1, 9],
    [12, 5, 1, 15, 14, 13, 4, 10, 0, 7, 6, 3, 9, 2, 8, 11],
    [13, 11, 7, 14, 12, 1, 3, 9, 5, 0, 15, 4, 8, 6, 2, 10],
    [6, 15, 14, 9, 11, 3, 0, 8, 12, 2, 13, 7, 1, 4, 10, 5],
    [10, 2, 8, 4, 7, 6, 1, 5, 15, 11, 9, 14, 3, 12, 13, 0],
    [0, 1, 2, 3, 4, 5, 6, 7, 8, 9, 10, 11, 12, 13, 14, 15],
    [14, 10, 4, 8, 9, 15, 13, 6, 1, 12, 0, 2, 11, 7, 5, 3],
];

/// Entry `k` of row `r` of the message schedule.
pub open spec fn sigma(r: int, k: int) -> int {
    SIGMA[r][k] as int
}

/// Every entry of the message schedule names one of the sixteen message words.
pub proof fn lemma_sigma_in_range(r: int, k: int)
    requires
        0 <= r < 12,
        0 <= k < 16,
    ensures
        0 <= sigma(r, k) < 16,
{
}

/// Every row of the message schedule is a permutation of the sixteen message
/// words: no word is named twice in a row.
pub proof fn lemma_sigma_rows_are_permutations(r: int, j: int, k: int)
    requires
        0 <= r < 12,
        0 <= j < 16,
        0 <= k < 16,
        j != k,
    ensures
        sigma(r, j) != sigma(r, k),
{
}

/// The last two rows of the message schedule repeat the first two.
pub proof fn lemma_sigma_repeats(r: int, k: int)
    requires
        10 <= r < 12,
        0 <= k < 16,
    ensures
        sigma(r, k) == sigma(r - 10, k),
{
}

} // verus!
