//! Chunked traversal: a bit sequence that starts at any bit of a byte slice,
//! read as 64-bit words whose bit 0 is the first bit of each chunk.

use crate::bits::{bits_of, lemma_word_at_bit, lemma_word_ext, load_word, word_at, word_bit};
use vstd::prelude::*;

verus! {

/// The number of bits in a chunk.
pub const CHUNK_BITS: usize = 64;

/// Chunk `k` of a bit sequence: bit `j` of the word is bit `64 * k + j` of the
/// sequence. Where the sequence ends inside the chunk, the rest of the word is
/// zero.
pub open spec fn chunk_word(bits: Seq<bool>, k: int) -> u64 {
    word_at(bits, 64 * k)
}

/// Bit `i` of a sequence is bit `i % 64` of its chunk `i / 64`: the chunks,
/// the last partial one included, hold every bit of the sequence at its place
/// and nothing else.
pub proof fn lemma_chunk_bit(bits: Seq<bool>, k: int, j: int)
    requires
        0 <= k,
        0 <= j < 64,
    ensures
        word_bit(chunk_word(bits, k), j) == (64 * k + j < bits.len() && bits[64 * k + j]),
{
    lemma_word_at_bit(bits, 64 * k, j);
}

/// A traversal of a bit sequence by chunks: `len / 64` full words, then one
/// remainder word that holds the last `len % 64` bits.
pub struct BitChunks<'a> {
    bytes: &'a [u8],
    offset: usize,
    len: usize,
    index: usize,
}

impl<'a> BitChunks<'a> {
    /// The bits lie inside the slice, and the cursor is at most at the end of
    /// the full chunks.
    #[verifier::type_invariant]
    pub closed spec fn wf(&self) -> bool {
        &&& self.offset + self.len <= self.bytes@.len() * 8
        &&& self.offset + self.len <= usize::MAX
        &&& self.index <= self.len / 64
    }

    /// The bit sequence that is traversed.
    pub closed spec fn bits(&self) -> Seq<bool> {
        bits_of(self.bytes@, self.offset as int, self.len as nat)
    }

    /// The number of full chunks handed out so far.
    pub closed spec fn position(&self) -> nat {
        self.index as nat
    }

    /// A traversal of the `len` bits of `bytes` that start at bit `offset`.
    pub fn new(bytes: &'a [u8], offset: usize, len: usize) -> (r: Self)
        requires
            offset + len <= bytes@.len() * 8,
            offset + len <= usize::MAX,
        ensures
            r.bits() == bits_of(bytes@, offset as int, len as nat),
            r.position() == 0,
    {
        BitChunks { bytes, offset, len, index: 0 }
    }

    /// The number of bits traversed.
    pub fn len(&self) -> (r: usize)
        ensures
            r == self.bits().len(),
    {
        self.len
    }

    /// The number of full chunks.
    pub fn chunk_count(&self) -> (r: usize)
        ensures
            r == self.bits().len() / 64,
    {
        self.len / CHUNK_BITS
    }

    /// The number of full chunks not yet handed out.
    pub fn remaining(&self) -> (r: usize)
        ensures
            r == self.bits().len() / 64 - self.position(),
    {
        proof {
            use_type_invariant(self);
        }
        self.len / CHUNK_BITS - self.index
    }

    /// The number of bits in the remainder: less than 64.
    pub fn remainder_len(&self) -> (r: usize)
        ensures
            r == self.bits().len() % 64,
            self.bits().len() == (self.bits().len() / 64) * 64 + r,
    {
        self.len % CHUNK_BITS
    }

    /// The next full chunk, or `None` once all of them were handed out.
    pub fn next(&mut self) -> (r: Option<u64>)
        ensures
            final(self).bits() == old(self).bits(),
            old(self).position() < old(self).bits().len() / 64 ==> {
                &&& r == Some(chunk_word(old(self).bits(), old(self).position() as int))
                &&& final(self).position() == old(self).position() + 1
            },
            old(self).position() >= old(self).bits().len() / 64 ==> {
                &&& r is None
                &&& final(self).position() == old(self).position()
            },
    {
        proof {
            use_type_invariant(&*self);
        }
        if self.index < self.len / CHUNK_BITS {
            let k = self.index;
            let w = load_word(self.bytes, self.offset + CHUNK_BITS * k, CHUNK_BITS);
            proof {
                let bits = self.bits();
                let window = bits_of(self.bytes@, self.offset + 64 * k, 64);
                assert forall|j: int| 0 <= j < 64 implies word_bit(w, j) == word_bit(
                    chunk_word(bits, k as int),
                    j,
                ) by {
                    lemma_word_at_bit(window, 0, j);
                    lemma_chunk_bit(bits, k as int, j);
                }
                lemma_word_ext(w, chunk_word(bits, k as int));
            }
            self.index = k + 1;
            Some(w)
        } else {
            None
        }
    }

    /// The remainder word: the bits after the last full chunk in its low
    /// `remainder_len` bits, and zero above them.
    pub fn remainder(&self) -> (r: u64)
        ensures
            r == chunk_word(self.bits(), (self.bits().len() / 64) as int),
    {
        proof {
            use_type_invariant(self);
        }
        let full = self.len / CHUNK_BITS;
        let rest = self.len % CHUNK_BITS;
        let w = load_word(self.bytes, self.offset + CHUNK_BITS * full, rest);
        proof {
            let bits = self.bits();
            let window = bits_of(self.bytes@, self.offset + 64 * full, rest as nat);
            assert forall|j: int| 0 <= j < 64 implies word_bit(w, j) == word_bit(
                chunk_word(bits, full as int),
                j,
            ) by {
                lemma_word_at_bit(window, 0, j);
                lemma_chunk_bit(bits, full as int, j);
            }
            lemma_word_ext(w, chunk_word(bits, full as int));
        }
        w
    }
}

} // verus!
