//! Whole-input hashing and the output encodings.

use vstd::prelude::*;
use vstd::string::StringExecFns;

use crate::driver::{pad_block, Driver};
use crate::hashing::{digest_len, digest_of, hash_state, lemma_state_bytes_group, state_bytes};
use crate::hex::{hex, lemma_hex_take, lemma_rendered_group, push_byte_hex, rendered};
use crate::words::{le_bytes, lemma_shifted_byte};

verus! {

/// Splits a 64-bit word into its eight bytes, lowest byte first. Inverse of
/// `get_64`.
pub fn get_8(inp: &u64) -> (out: [u8; 8])
    ensures
        out@ == le_bytes(*inp),
{
    let w = *inp;
    let mut out = [0u8; 8];
    for i in 0usize..8
        invariant
            forall|j: int| 0 <= j < i ==> out@[j] == le_bytes(w)[j],
    {
        let shift = 8 * i;
        assert(((w >> shift) as u8) == le_bytes(w)[i as int]) by {
            lemma_shifted_byte(w, shift as u64);
        }
        out[i] = #[verifier::truncate] ((w >> shift) as u8);
    }
    assert(out@ =~= le_bytes(w));
    out
}

/// The hash state of `data` for a digest of `hash_length` bytes.
pub fn hash(data: &[u8], hash_length: u8) -> (h: [u64; 8])
    ensures
        h@ == hash_state(data@, hash_length),
{
    let len = data.len();
    let mut driver = Driver::new(len as u64, hash_length);
    let mut offset: usize = 0;
    while driver.wants_block()
        invariant
            len == data@.len(),
            offset % 128 == 0,
            offset <= len,
            offset == 0 || offset < len,
            driver@.absorbed == data@.take(offset as int),
            driver@.total == len,
            driver@.hash_length == hash_length,
        decreases len - offset,
    {
        let block = pad_block(&data[offset..offset + 128]);
        driver.absorb(&block);
        proof {
            assert(block@ =~= data@.subrange(offset as int, offset + 128));
            assert(data@.take(offset + 128) =~= data@.take(offset as int) + block@);
        }
        offset += 128;
    }
    let tail = &data[offset..len];
    assert(data@.take(offset as int) + tail@ =~= data@);
    driver.finish(tail)
}

/// The leading bytes of a hash state that make up a digest of `hash_length`
/// bytes: the words in order, each lowest byte first, cut off at the byte
/// boundary. A state holds 64 bytes, so a longer request yields all 64.
pub fn digest_bytes(h: &[u64; 8], hash_length: u8) -> (out: Vec<u8>)
    ensures
        out@ == state_bytes(h@).take(digest_len(hash_length) as int),
{
    let n: usize = if hash_length <= 64 { hash_length as usize } else { 64 };
    let ghost bytes = state_bytes(h@);
    let mut out: Vec<u8> = Vec::new();
    let mut i: usize = 0;
    while i < 8 && 8 * i < n
        invariant
            i <= 8,
            n <= 64,
            bytes == state_bytes(h@),
            8 * i < n ==> out@ == bytes.take(8 * i as int),
            8 * i >= n ==> out@ == bytes.take(n as int),
        decreases 8 - i,
    {
        let eight = get_8(&h[i]);
        let mut j: usize = 0;
        while j < 8 && 8 * i + j < n
            invariant
                i < 8,
                j <= 8,
                n <= 64,
                8 * i + j <= n,
                bytes == state_bytes(h@),
                eight@ == le_bytes(h@[i as int]),
                out@ == bytes.take(8 * i + j),
            decreases 8 - j,
        {
            out.push(eight[j]);
            assert(out@ =~= bytes.take(8 * i + j + 1));
            j += 1;
        }
        i += 1;
    }
    out
}

/// Gets the digest in little endian form: the hexadecimal text of the
/// leading `hash_length` bytes of the hash state, two digits for each byte,
/// with a space closing the bytes of each word.
pub fn get_little_endian_string(h: &[u64; 8], hash_length: u8) -> (out: String)
    ensures
        out@ == rendered(state_bytes(h@).take(digest_len(hash_length) as int)),
{
    let n: usize = if hash_length <= 64 { hash_length as usize } else { 64 };
    let ghost bytes = state_bytes(h@).take(n as int);
    let mut out = String::new();
    let mut i: usize = 0;
    assert(out@ + rendered(bytes.skip(0)) =~= rendered(bytes)) by {
        assert(bytes.skip(0) =~= bytes);
    }
    while i < 8 && 8 * i < n
        invariant
            i <= 8,
            n <= 64,
            bytes == state_bytes(h@).take(n as int),
            out@ + rendered(bytes.skip(if 8 * i < n { 8 * i as int } else { n as int }))
                == rendered(bytes),
        decreases 8 - i,
    {
        let eight = get_8(&h[i]);
        let width: usize = if n - 8 * i <= 8 { n - 8 * i } else { 8 };
        let ghost before = out@;
        let mut j: usize = 0;
        assert(eight@.take(0) =~= Seq::<u8>::empty());
        while j < width
            invariant
                j <= width <= 8,
                out@ == before + hex(eight@.take(j as int)),
            decreases width - j,
        {
            push_byte_hex(&mut out, eight[j]);
            proof {
                lemma_hex_take(eight@, j as int);
            }
            j += 1;
        }
        out.append(" ");
        proof {
            reveal_strlit(" ");
            assert(" "@ =~= seq![' ']);
            let rest = bytes.skip(8 * i as int);
            lemma_state_bytes_group(h@, n as int, i as int);
            lemma_rendered_group(rest, width as int);
            let after = bytes.skip(8 * i + width);
            assert(out@ + rendered(after) =~= before + (hex(rest.take(width as int)) + seq![' ']
                + rendered(after)));
        }
        i += 1;
    }
    assert(bytes.skip(n as int) =~= Seq::<u8>::empty());
    out
}

/// The digest of `data`: the leading `hash_length` bytes of its hash state.
pub fn digest(data: &[u8], hash_length: u8) -> (out: Vec<u8>)
    ensures
        out@ == digest_of(data@, hash_length),
        out@.len() == digest_len(hash_length),
        1 <= hash_length <= 64 ==> out@.len() == hash_length,
{
    let h = hash(data, hash_length);
    digest_bytes(&h, hash_length)
}

/// Calculates the checksum of a byte string and returns the final hash
/// state together with the digest as hexadecimal text.
pub fn get_checksum(data: &[u8], hash_length: u8) -> (out: ([u64; 8], String))
    ensures
        out.0@ == hash_state(data@, hash_length),
        out.1@ == rendered(digest_of(data@, hash_length)),
{
    let h = hash(data, hash_length);
    let little_endian_repr = get_little_endian_string(&h, hash_length);
    (h, little_endian_repr)
}

} // verus!
