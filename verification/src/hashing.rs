//! What the hash of a byte string is: the state that the blocks of the
//! string leave behind, and the digest cut from it.

use vstd::prelude::*;

use crate::compressed;
use crate::constants::IV;
use crate::hex::rendered;
use crate::words::{le_bytes, sum64};

verus! {

/// The parameter word of unkeyed hashing with a digest of `hash_length` bytes.
pub open spec fn parameter_word(hash_length: u8) -> u64 {
    0x01010000u64 ^ (hash_length as u64)
}

/// The hash state before any block: the initialization vector with the
/// parameter word folded into its first word.
pub open spec fn initial_state(hash_length: u8) -> Seq<u64> {
    IV@.update(0, IV[0] ^ parameter_word(hash_length))
}

/// The byte counter after `n` bytes. It is a 64-bit word, so it holds `n`
/// modulo 2^64.
pub open spec fn counter(n: nat) -> u64 {
    (n % 0x1_0000_0000_0000_0000) as u64
}

/// Block `k` of `data`: bytes `128k` to `128k + 127`.
pub open spec fn block_at(data: Seq<u8>, k: int) -> Seq<u8> {
    data.subrange(128 * k, 128 * k + 128)
}

/// The hash state after the first `n` blocks of `data`, none of them
/// compressed as the last block.
pub open spec fn absorbed(hash_length: u8, data: Seq<u8>, n: nat) -> Seq<u64>
    decreases n,
{
    if n == 0 {
        initial_state(hash_length)
    } else {
        compressed(
            absorbed(hash_length, data, (n - 1) as nat),
            block_at(data, n - 1),
            counter(128 * n),
            false,
        )
    }
}

/// How many blocks of an input of `len` bytes come before its last block.
/// The last block holds between 1 and 128 bytes, or none where the input is
/// empty.
pub open spec fn leading_blocks(len: nat) -> nat {
    if len == 0 {
        0
    } else {
        ((len - 1) / 128) as nat
    }
}

/// `tail` followed by zero bytes up to a length of 128.
pub open spec fn padded(tail: Seq<u8>) -> Seq<u8> {
    Seq::new(
        128,
        |i: int|
            if i < tail.len() {
                tail[i]
            } else {
                0u8
            },
    )
}

/// The hash state after `whole`, a run of whole blocks, has been absorbed and
/// `tail` has then been compressed as the last block of an input declared to
/// be `total` bytes long.
pub open spec fn finished(hash_length: u8, whole: Seq<u8>, tail: Seq<u8>, total: u64) -> Seq<u64> {
    compressed(absorbed(hash_length, whole, whole.len() / 128), padded(tail), total, true)
}

/// The final hash state of `data` for a digest of `hash_length` bytes.
pub open spec fn hash_state(data: Seq<u8>, hash_length: u8) -> Seq<u64> {
    let n = leading_blocks(data.len());
    compressed(
        absorbed(hash_length, data, n),
        padded(data.skip(128 * (n as int))),
        counter(data.len()),
        true,
    )
}

/// The 64 bytes of a hash state: its eight words in order, each lowest byte
/// first.
pub open spec fn state_bytes(h: Seq<u64>) -> Seq<u8> {
    Seq::new(64, |k: int| le_bytes(h[k / 8])[k % 8])
}

/// The number of digest bytes that a hash state yields for a requested
/// length: the length itself, up to the 64 bytes that a state holds.
pub open spec fn digest_len(hash_length: u8) -> nat {
    if hash_length <= 64 {
        hash_length as nat
    } else {
        64
    }
}

/// The digest of `data`: the leading bytes of its final hash state.
pub open spec fn digest_of(data: Seq<u8>, hash_length: u8) -> Seq<u8> {
    state_bytes(hash_state(data, hash_length)).take(digest_len(hash_length) as int)
}

/// The blocks absorbed from a string depend only on the bytes they cover.
pub proof fn lemma_absorbed_prefix(hash_length: u8, a: Seq<u8>, b: Seq<u8>, n: nat)
    requires
        128 * n <= a.len(),
        128 * n <= b.len(),
        a.take(128 * (n as int)) == b.take(128 * (n as int)),
    ensures
        absorbed(hash_length, a, n) == absorbed(hash_length, b, n),
    decreases n,
{
    if n > 0 {
        let end = 128 * (n as int);
        let start = end - 128;
        assert(a.take(start) =~= a.take(end).take(start));
        assert(b.take(start) =~= b.take(end).take(start));
        lemma_absorbed_prefix(hash_length, a, b, (n - 1) as nat);
        assert(block_at(a, n - 1) =~= a.take(end).subrange(start, end));
        assert(block_at(b, n - 1) =~= b.take(end).subrange(start, end));
    }
}

/// Advancing the byte counter by one block is a wrapping addition of 128.
pub proof fn lemma_counter_step(n: nat)
    ensures
        counter(n + 128) == sum64(counter(n), 128),
{
}

/// Absorbing one more block compresses it into the state that the blocks
/// before it left, with the byte counter advanced past it.
pub proof fn lemma_absorbed_step(hash_length: u8, whole: Seq<u8>, block: Seq<u8>)
    requires
        whole.len() % 128 == 0,
        block.len() == 128,
    ensures
        absorbed(hash_length, whole + block, (whole.len() / 128 + 1) as nat) == compressed(
            absorbed(hash_length, whole, whole.len() / 128),
            block,
            counter(whole.len() + 128),
            false,
        ),
{
    let n = whole.len() / 128;
    let end = whole.len() as int;
    assert(end == 128 * (n as int));
    let grown = whole + block;
    assert(grown.take(end) =~= whole.take(end));
    lemma_absorbed_prefix(hash_length, grown, whole, n);
    assert(block_at(grown, n as int) =~= block);
    assert(128 * (n + 1) == whole.len() + 128);
}

/// An input made of whole blocks and a last block of 1 to 128 bytes, or of
/// nothing at all, has exactly those whole blocks before its last block.
pub proof fn lemma_leading_blocks(whole: nat, tail: nat)
    requires
        whole % 128 == 0,
        tail <= 128,
        tail > 0 || whole == 0,
    ensures
        leading_blocks(whole + tail) == whole / 128,
        128 * (whole / 128) == whole,
{
}

/// Absorbing the whole blocks of an input and then compressing what is left
/// as the last block gives the hash state of the input, provided that the
/// declared length is the true one and that the last block is empty only for
/// the empty input.
pub proof fn lemma_finished_is_hash_state(
    hash_length: u8,
    whole: Seq<u8>,
    tail: Seq<u8>,
    total: u64,
)
    requires
        whole.len() % 128 == 0,
        tail.len() <= 128,
        whole.len() + tail.len() == total,
        tail.len() > 0 || whole.len() == 0,
    ensures
        finished(hash_length, whole, tail, total) == hash_state(whole + tail, hash_length),
{
    let data = whole + tail;
    let n = leading_blocks(data.len());
    let end = whole.len() as int;
    assert(n == whole.len() / 128 && end == 128 * (n as int)) by {
        lemma_leading_blocks(whole.len(), tail.len());
    }
    assert(data.take(end) =~= whole.take(end));
    lemma_absorbed_prefix(hash_length, data, whole, n);
    assert(data.skip(end) =~= tail);
    assert(counter(data.len()) == total);
}

/// Of the leading `n` bytes of a hash state, those from byte `8i` on start
/// with the encoding of word `i`, as far as they reach.
pub proof fn lemma_state_bytes_group(h: Seq<u64>, n: int, i: int)
    requires
        0 <= i < 8,
        8 * i < n <= 64,
    ensures
        ({
            let rest = state_bytes(h).take(n).skip(8 * i);
            let width = if rest.len() <= 8 { rest.len() as int } else { 8 };
            &&& rest.len() == n - 8 * i
            &&& rest.take(width) == le_bytes(h[i]).take(width)
            &&& rest.skip(width) == state_bytes(h).take(n).skip(8 * i + width)
        }),
{
    let rest = state_bytes(h).take(n).skip(8 * i);
    let width = if rest.len() <= 8 { rest.len() as int } else { 8 };
    assert forall|j: int| 0 <= j < width implies rest.take(width)[j] == le_bytes(h[i]).take(
        width,
    )[j] by {
        assert((8 * i + j) / 8 == i && (8 * i + j) % 8 == j);
    }
    assert(rest.take(width) =~= le_bytes(h[i]).take(width));
    assert(rest.skip(width) =~= state_bytes(h).take(n).skip(8 * i + width));
}

/// Hashing is a function of the bytes alone: two inputs that hold the same
/// bytes in the same order have the same hash state, the same digest and the
/// same text.
pub proof fn lemma_same_bytes_same_digest(a: Seq<u8>, b: Seq<u8>, hash_length: u8)
    requires
        a.len() == b.len(),
        forall|i: int| 0 <= i < a.len() ==> a[i] == b[i],
    ensures
        hash_state(a, hash_length) == hash_state(b, hash_length),
        digest_of(a, hash_length) == digest_of(b, hash_length),
        rendered(digest_of(a, hash_length)) == rendered(digest_of(b, hash_length)),
{
    assert(a =~= b);
}

/// A digest has the requested number of bytes, for every length from 1 to 64.
pub proof fn lemma_digest_length(data: Seq<u8>, hash_length: u8)
    ensures
        digest_of(data, hash_length).len() == digest_len(hash_length),
        1 <= hash_length <= 64 ==> digest_of(data, hash_length).len() == hash_length,
{
}

} // verus!
