//! The digest driver: it owns the hash state and the byte counter while the
//! blocks of an input pass through the compression function.
//!
//! The driver reads nothing itself. Whoever holds the byte source asks
//! [`Driver::wants_block`], hands over the next 128 bytes while the answer is
//! yes, and then hands what is left to [`Driver::finish`].

use vstd::prelude::*;

use crate::blake_compress;
use crate::constants::IV;
use crate::hashing::{
    absorbed, counter, finished, hash_state, initial_state, lemma_absorbed_step,
    lemma_counter_step, lemma_finished_is_hash_state, padded,
};

verus! {

/// What a driver stands for: the whole blocks it has absorbed, the length
/// that the input was declared to have, and the requested digest length.
pub struct DriverView {
    pub absorbed: Seq<u8>,
    pub total: u64,
    pub hash_length: u8,
}

/// The running state of one hash computation.
pub struct Driver {
    h: [u64; 8],
    t: u64,
    total: u64,
    hash_length: u8,
    fed: Ghost<Seq<u8>>,
}

impl View for Driver {
    type V = DriverView;

    closed spec fn view(&self) -> DriverView {
        DriverView { absorbed: self.fed@, total: self.total, hash_length: self.hash_length }
    }
}

/// The hash state of unkeyed hashing before any block, for a digest of
/// `hash_length` bytes.
pub fn initial(hash_length: u8) -> (h: [u64; 8])
    ensures
        h@ == initial_state(hash_length),
{
    let mut h = IV;
    h[0] = h[0] ^ (0x01010000 ^ hash_length as u64);
    h
}

/// A 128-byte block that starts with `tail` and is zero from there on.
pub fn pad_block(tail: &[u8]) -> (block: [u8; 128])
    requires
        tail@.len() <= 128,
    ensures
        block@ == padded(tail@),
{
    let mut block = [0u8; 128];
    let n = tail.len();
    for i in 0..n
        invariant
            n == tail@.len(),
            n <= 128,
            forall|j: int| 0 <= j < i ==> block@[j] == tail@[j],
            forall|j: int| i <= j < 128 ==> block@[j] == 0,
    {
        block[i] = tail[i];
    }
    assert(block@ =~= padded(tail@));
    block
}

impl Driver {
    #[verifier::type_invariant]
    spec fn well_formed(&self) -> bool {
        &&& self.fed@.len() % 128 == 0
        &&& self.t == counter(self.fed@.len())
        &&& self.h@ == absorbed(self.hash_length, self.fed@, self.fed@.len() / 128)
    }

    /// A driver for an input of `total_length` bytes and a digest of
    /// `hash_length` bytes, with nothing absorbed yet.
    pub fn new(total_length: u64, hash_length: u8) -> (d: Driver)
        ensures
            d@.absorbed == Seq::<u8>::empty(),
            d@.total == total_length,
            d@.hash_length == hash_length,
    {
        Driver {
            h: initial(hash_length),
            t: 0,
            total: total_length,
            hash_length,
            fed: Ghost(Seq::empty()),
        }
    }

    /// Whether the next thing to hand over is a whole block that is not the
    /// last one: whether more than 128 bytes of the declared length remain.
    pub fn wants_block(&self) -> (more: bool)
        ensures
            more == (self@.total - counter(self@.absorbed.len()) > 128),
    {
        proof {
            use_type_invariant(self);
        }
        self.total > 128 && self.t < self.total - 128
    }

    /// Absorbs one whole block that is not the last block of the input.
    pub fn absorb(&mut self, block: &[u8; 128])
        ensures
            final(self)@.absorbed == old(self)@.absorbed + block@,
            final(self)@.total == old(self)@.total,
            final(self)@.hash_length == old(self)@.hash_length,
    {
        let mut h = self.h;
        let t = self.t.wrapping_add(128);
        blake_compress(&mut h, block, t, false);
        let ghost before = self.fed@;
        let ghost after = before + block@;
        proof {
            use_type_invariant(&*self);
            lemma_counter_step(before.len());
            lemma_absorbed_step(self.hash_length, before, block@);
            assert(after.len() / 128 == before.len() / 128 + 1);
        }
        *self = Driver {
            h,
            t,
            total: self.total,
            hash_length: self.hash_length,
            fed: Ghost(after),
        };
    }

    /// Compresses `tail`, padded with zero bytes, as the last block and
    /// gives the final hash state. The byte counter of that compression is
    /// the declared length of the input.
    ///
    /// Where the declared length is that of what was handed over, and `tail`
    /// is empty only if nothing was absorbed, the result is the hash state
    /// of the blocks absorbed followed by `tail`.
    pub fn finish(self, tail: &[u8]) -> (h: [u64; 8])
        requires
            tail@.len() <= 128,
        ensures
            h@ == finished(self@.hash_length, self@.absorbed, tail@, self@.total),
            self@.absorbed.len() + tail@.len() == self@.total && (tail@.len() > 0
                || self@.absorbed.len() == 0) ==> h@ == hash_state(
                self@.absorbed + tail@,
                self@.hash_length,
            ),
    {
        proof {
            use_type_invariant(&self);
            if self.fed@.len() + tail@.len() == self.total && (tail@.len() > 0 || self.fed@.len()
                == 0) {
                lemma_finished_is_hash_state(self.hash_length, self.fed@, tail@, self.total);
            }
        }
        let mut h = self.h;
        let block = pad_block(tail);
        blake_compress(&mut h, &block, self.total, true);
        h
    }
}

} // verus!
