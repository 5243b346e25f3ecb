//! What holds of the bitmap operations for all inputs: the algebra of AND, OR
//! and NOT, and the independence of every result from the bits that lie
//! outside a bitmap's window or past the end of a remainder.

use crate::bitmap::bitmap_ops::{bits_and, bits_not, bits_or, chunk_matches};
use crate::bitmap::chunks::{chunk_word, lemma_chunk_bit};
use crate::bitmap::Bitmap;
use crate::bits::{bit_at, lemma_bitwise, word_bit};
use vstd::prelude::*;
use vstd::std_specs::cmp::PartialEqSpec;

verus! {

/// Read through its chunks, a bitmap shows at every position the bit that a
/// bit-by-bit read of its buffer finds there, wherever in a byte the window
/// starts and wherever it ends: bit `i` is bit `i % 64` of chunk `i / 64`.
pub proof fn lemma_chunks_read_every_bit(b: Bitmap, i: int)
    requires
        0 <= i < b@.len(),
    ensures
        word_bit(chunk_word(b@, i / 64), i % 64) == bit_at(b.spec_bytes(), b.spec_offset() + i),
        word_bit(chunk_word(b@, i / 64), i % 64) == b@[i],
{
    lemma_chunk_bit(b@, i / 64, i % 64);
}

/// Past the end of a bitmap every chunk is zero: the remainder word carries
/// nothing of the buffer beyond the window.
pub proof fn lemma_chunks_zero_past_end(b: Bitmap, k: int, j: int)
    requires
        0 <= k,
        0 <= j < 64,
        64 * k + j >= b@.len(),
    ensures
        !word_bit(chunk_word(b@, k), j),
{
    lemma_chunk_bit(b@, k, j);
}

/// `a & b == b & a`.
pub proof fn lemma_and_commutes(a: Bitmap, b: Bitmap)
    requires
        a@.len() == b@.len(),
    ensures
        bits_and(a@, b@) == bits_and(b@, a@),
{
    assert(bits_and(a@, b@) =~= bits_and(b@, a@));
}

/// `a | b == b | a`.
pub proof fn lemma_or_commutes(a: Bitmap, b: Bitmap)
    requires
        a@.len() == b@.len(),
    ensures
        bits_or(a@, b@) == bits_or(b@, a@),
{
    assert(bits_or(a@, b@) =~= bits_or(b@, a@));
}

/// `!(!a) == a`.
pub proof fn lemma_not_involution(a: Bitmap)
    ensures
        bits_not(bits_not(a@)) == a@,
{
    assert(bits_not(bits_not(a@)) =~= a@);
}

/// `a & a == a`.
pub proof fn lemma_and_idempotent(a: Bitmap)
    ensures
        bits_and(a@, a@) == a@,
{
    assert(bits_and(a@, a@) =~= a@);
}

/// `a | a == a`.
pub proof fn lemma_or_idempotent(a: Bitmap)
    ensures
        bits_or(a@, a@) == a@,
{
    assert(bits_or(a@, a@) =~= a@);
}

/// De Morgan: `!(a & b) == !a | !b`.
pub proof fn lemma_de_morgan(a: Bitmap, b: Bitmap)
    requires
        a@.len() == b@.len(),
    ensures
        bits_not(bits_and(a@, b@)) == bits_or(bits_not(a@), bits_not(b@)),
{
    assert(bits_not(bits_and(a@, b@)) =~= bits_or(bits_not(a@), bits_not(b@)));
}

/// Two bitmaps of one length whose windows show the same bits are equal,
/// whatever else their buffers hold: other bytes, another offset, other bits
/// beside the window in its first and last byte. (Bit `i` of a bitmap is bit
/// `offset + i` of its buffer, and nothing more of the buffer is asked for.)
pub proof fn lemma_eq_ignores_padding(a: Bitmap, b: Bitmap)
    requires
        a@.len() == b@.len(),
        forall|i: int| 0 <= i < a@.len() ==> #[trigger] a@[i] == b@[i],
    ensures
        a.eq_spec(&b),
        a@ == b@,
{
    assert(a@ =~= b@);
}

/// The chunks of a bitmap, the remainder word included, are decided by the
/// bits of its window. Two bitmaps that show the same bits hand the same
/// words to a kernel's operator.
pub proof fn lemma_chunks_ignore_padding(a: Bitmap, b: Bitmap, k: int)
    requires
        a@.len() == b@.len(),
        forall|i: int| 0 <= i < a@.len() ==> #[trigger] a@[i] == b@[i],
    ensures
        chunk_word(a@, k) == chunk_word(b@, k),
{
    lemma_eq_ignores_padding(a, b);
}

/// What a result shows of the word that the operator gave for a chunk are the
/// word's bits below the end of the bitmap. Two words that agree there stand
/// for the same chunk: the bits from `remainder_len` up in a remainder word
/// never reach the result.
pub proof fn lemma_high_bits_dropped(bits: Seq<bool>, k: int, w1: u64, w2: u64)
    requires
        forall|j: int|
            0 <= j < 64 && 64 * k + j < bits.len() ==> word_bit(w1, j) == word_bit(w2, j),
    ensures
        chunk_matches(bits, k, w1) == chunk_matches(bits, k, w2),
{
}

/// AND, OR and NOT of words carry nothing from one bit position to another:
/// where the operands agree below bit `n`, so do the results, whatever the
/// operands hold from bit `n` up.
pub proof fn lemma_bitwise_ignores_high_bits(x1: u64, y1: u64, x2: u64, y2: u64, n: int, j: int)
    requires
        0 <= j < n <= 64,
        forall|i: int| 0 <= i < n ==> word_bit(x1, i) == word_bit(x2, i),
        forall|i: int| 0 <= i < n ==> word_bit(y1, i) == word_bit(y2, i),
    ensures
        word_bit(x1 & y1, j) == word_bit(x2 & y2, j),
        word_bit(x1 | y1, j) == word_bit(x2 | y2, j),
        word_bit(!x1, j) == word_bit(!x2, j),
{
    lemma_bitwise(x1, y1, j);
    lemma_bitwise(x2, y2, j);
}

} // verus!
