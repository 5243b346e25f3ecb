//! Bitwise kernels: a word operator applied chunk by chunk to one, two, three
//! or four bitmaps of one length, and the operations built on them.

use crate::bitmap::chunks::{chunk_word, lemma_chunk_bit};
use crate::bitmap::Bitmap;
use crate::bits::{
    bit_at, get_bit, lemma_bit_at_concat, lemma_bitwise, lemma_word_bytes_bit, word_bit,
    word_bytes, word_to_bytes,
};
use crate::buffer::MutableBuffer;
use std::ops::{BitAnd, BitOr, Not};
use vstd::prelude::*;
use vstd::slice::slice_subrange;

verus! {

/// The bits of chunk `k` of `bits` are the low bits of `w`. Bits of `w` at
/// positions past the end of `bits` are not looked at.
pub open spec fn chunk_matches(bits: Seq<bool>, k: int, w: u64) -> bool {
    forall|j: int| 0 <= j < 64 && 64 * k + j < bits.len() ==> bits[64 * k + j] == #[trigger] word_bit(w, j)
}

/// Chunk `k` of `r` is a word that `op` may give for chunk `k` of `a`.
pub open spec fn unary_chunk<F: Fn(u64) -> u64>(op: F, a: Seq<bool>, r: Seq<bool>, k: int) -> bool {
    exists|w: u64| #[trigger] chunk_matches(r, k, w) && op.ensures((chunk_word(a, k),), w)
}

/// `r` is `op` applied to `a` chunk by chunk, the remainder chunk included.
pub open spec fn unary_kernel<F: Fn(u64) -> u64>(op: F, a: Seq<bool>, r: Seq<bool>) -> bool {
    &&& r.len() == a.len()
    &&& forall|k: int| 0 <= k <= a.len() / 64 ==> #[trigger] unary_chunk(op, a, r, k)
}

/// Chunk `k` of `r` is a word that `op` may give for the chunks `k` of `a`
/// and `b`.
pub open spec fn binary_chunk<F: Fn(u64, u64) -> u64>(
    op: F,
    a: Seq<bool>,
    b: Seq<bool>,
    r: Seq<bool>,
    k: int,
) -> bool {
    exists|w: u64| #[trigger]
        chunk_matches(r, k, w) && op.ensures((chunk_word(a, k), chunk_word(b, k)), w)
}

/// `r` is `op` applied to `a` and `b` chunk by chunk, the remainder chunk
/// included.
pub open spec fn binary_kernel<F: Fn(u64, u64) -> u64>(
    op: F,
    a: Seq<bool>,
    b: Seq<bool>,
    r: Seq<bool>,
) -> bool {
    &&& r.len() == a.len()
    &&& forall|k: int| 0 <= k <= a.len() / 64 ==> #[trigger] binary_chunk(op, a, b, r, k)
}

/// Chunk `k` of `r` is a word that `op` may give for the chunks `k` of `a`,
/// `b` and `c`.
pub open spec fn ternary_chunk<F: Fn(u64, u64, u64) -> u64>(
    op: F,
    a: Seq<bool>,
    b: Seq<bool>,
    c: Seq<bool>,
    r: Seq<bool>,
    k: int,
) -> bool {
    exists|w: u64| #[trigger]
        chunk_matches(r, k, w) && op.ensures(
            (chunk_word(a, k), chunk_word(b, k), chunk_word(c, k)),
            w,
        )
}

/// `r` is `op` applied to `a`, `b` and `c` chunk by chunk, the remainder chunk
/// included.
pub open spec fn ternary_kernel<F: Fn(u64, u64, u64) -> u64>(
    op: F,
    a: Seq<bool>,
    b: Seq<bool>,
    c: Seq<bool>,
    r: Seq<bool>,
) -> bool {
    &&& r.len() == a.len()
    &&& forall|k: int| 0 <= k <= a.len() / 64 ==> #[trigger] ternary_chunk(op, a, b, c, r, k)
}

/// Chunk `k` of `r` is a word that `op` may give for the chunks `k` of `a`,
/// `b`, `c` and `d`.
pub open spec fn quaternary_chunk<F: Fn(u64, u64, u64, u64) -> u64>(
    op: F,
    a: Seq<bool>,
    b: Seq<bool>,
    c: Seq<bool>,
    d: Seq<bool>,
    r: Seq<bool>,
    k: int,
) -> bool {
    exists|w: u64| #[trigger]
        chunk_matches(r, k, w) && op.ensures(
            (chunk_word(a, k), chunk_word(b, k), chunk_word(c, k), chunk_word(d, k)),
            w,
        )
}

/// `r` is `op` applied to `a`, `b`, `c` and `d` chunk by chunk, the remainder
/// chunk included.
pub open spec fn quaternary_kernel<F: Fn(u64, u64, u64, u64) -> u64>(
    op: F,
    a: Seq<bool>,
    b: Seq<bool>,
    c: Seq<bool>,
    d: Seq<bool>,
    r: Seq<bool>,
) -> bool {
    &&& r.len() == a.len()
    &&& forall|k: int| 0 <= k <= a.len() / 64 ==> #[trigger] quaternary_chunk(op, a, b, c, d, r, k)
}

/// The bitwise AND of two bit sequences of one length.
pub open spec fn bits_and(a: Seq<bool>, b: Seq<bool>) -> Seq<bool> {
    Seq::new(a.len(), |i: int| a[i] && b[i])
}

/// The bitwise OR of two bit sequences of one length.
pub open spec fn bits_or(a: Seq<bool>, b: Seq<bool>) -> Seq<bool> {
    Seq::new(a.len(), |i: int| a[i] || b[i])
}

/// The bitwise complement of a bit sequence.
pub open spec fn bits_not(a: Seq<bool>) -> Seq<bool> {
    Seq::new(a.len(), |i: int| !a[i])
}

/// The bytes of a sequence of words, each word least significant byte first.
spec fn words_bytes(words: Seq<u64>) -> Seq<u8> {
    Seq::new(8 * words.len(), |p: int| word_bytes(words[p / 8])[p % 8])
}

proof fn lemma_words_bytes_push(words: Seq<u64>, w: u64)
    ensures
        words_bytes(words.push(w)) == words_bytes(words) + word_bytes(w),
{
    assert(words_bytes(words.push(w)) =~= words_bytes(words) + word_bytes(w));
}

proof fn lemma_words_bytes_bit(words: Seq<u64>, k: int, j: int)
    requires
        0 <= k < words.len(),
        0 <= j < 64,
    ensures
        bit_at(words_bytes(words), 64 * k + j) == word_bit(words[k], j),
{
    lemma_word_bytes_bit(words[k], j);
}

/// Ends a kernel: appends the low bytes of the remainder word, as many as the
/// remainder's bits need, and makes the bitmap.
fn finish(buffer: MutableBuffer, Ghost(words): Ghost<Seq<u64>>, rem: u64, length: usize) -> (r:
    Bitmap)
    requires
        words.len() == length / 64,
        buffer@ == words_bytes(words),
    ensures
        r.spec_offset() == 0,
        r.spec_bytes().len() == (length + 7) / 8,
        r@.len() == length,
        forall|k: int| 0 <= k < words.len() ==> chunk_matches(r@, k, #[trigger] words[k]),
        chunk_matches(r@, length as int / 64, rem),
{
    let mut buffer = buffer;
    let rest: usize = length % 64;
    let rest_bytes: usize = (rest + 7) / 8;
    let bytes = word_to_bytes(rem);
    let tail = slice_subrange(bytes.as_slice(), 0, rest_bytes);
    buffer.extend_from_slice(tail);
    let ghost all = buffer@;
    let r = Bitmap::from_buffer(buffer, length);
    proof {
        let head = words_bytes(words);
        assert(all == head + tail@);
        assert forall|k: int| 0 <= k < words.len() implies chunk_matches(r@, k, #[trigger] words[k]) by {
            assert forall|j: int| 0 <= j < 64 && 64 * k + j < r@.len() implies r@[64 * k + j]
                == #[trigger] word_bit(words[k], j) by {
                lemma_bit_at_concat(head, tail@, 64 * k + j);
                lemma_words_bytes_bit(words, k, j);
            }
        }
        let full = length as int / 64;
        assert forall|j: int| 0 <= j < 64 && 64 * full + j < r@.len() implies r@[64 * full + j]
            == #[trigger] word_bit(rem, j) by {
            lemma_bit_at_concat(head, tail@, 64 * full + j);
            lemma_word_bytes_bit(rem, j);
        }
    }
    r
}

/// Applies the word operator `op` to `lhs`, 64 bits at a time, and returns
/// the result as a new bitmap over a buffer of its own.
///
/// `op` is called once for each full chunk and once more for the remainder
/// word, also where the remainder is empty.
pub fn unary<F>(lhs: &Bitmap, op: F) -> (r: Bitmap) where F: Fn(u64) -> u64
    requires
        forall|k: int| 0 <= k <= lhs@.len() / 64 ==> op.requires((#[trigger] chunk_word(lhs@, k),)),
    ensures
        r.spec_offset() == 0,
        r.spec_bytes().len() == (lhs@.len() + 7) / 8,
        unary_kernel(op, lhs@, r@),
{
    let length = lhs.len();
    let mut a = lhs.chunks();
    let full = a.chunk_count();
    let rest_bytes: usize = (a.remainder_len() + 7) / 8;
    let mut buffer = MutableBuffer::with_capacity(full * 8 + rest_bytes);
    let ghost mut words: Seq<u64> = Seq::empty();
    let mut k: usize = 0;
    proof {
        assert(buffer@ =~= words_bytes(words));
    }
    while k < full
        invariant
            k <= full,
            full == lhs@.len() / 64,
            a.bits() == lhs@,
            a.position() == k,
            words.len() == k,
            buffer@ == words_bytes(words),
            forall|i: int| 0 <= i < k ==> op.ensures((chunk_word(lhs@, i),), #[trigger] words[i]),
            forall|i: int|
                0 <= i <= lhs@.len() / 64 ==> op.requires((#[trigger] chunk_word(lhs@, i),)),
        decreases full - k,
    {
        let x = a.next().unwrap();
        let w = op(x);
        buffer.push_word(w);
        proof {
            lemma_words_bytes_push(words, w);
            words = words.push(w);
        }
        k = k + 1;
    }
    let w = op(a.remainder());
    let r = finish(buffer, Ghost(words), w, length);
    proof {
        assert forall|i: int| 0 <= i <= lhs@.len() / 64 implies #[trigger] unary_chunk(
            op,
            lhs@,
            r@,
            i,
        ) by {
            if i < full {
                assert(chunk_matches(r@, i, words[i]));
            } else {
                assert(chunk_matches(r@, i, w));
            }
        }
    }
    r
}

/// Applies the word operator `op` to `lhs` and `rhs`, 64 bits at a time, and
/// returns the result as a new bitmap over a buffer of its own.
///
/// `op` is called once for each pair of full chunks and once more for the
/// two remainder words, also where the remainder is empty.
pub fn binary<F>(lhs: &Bitmap, rhs: &Bitmap, op: F) -> (r: Bitmap) where F: Fn(u64, u64) -> u64
    requires
        lhs@.len() == rhs@.len(),
        forall|k: int|
            0 <= k <= lhs@.len() / 64 ==> op.requires(
                (#[trigger] chunk_word(lhs@, k), chunk_word(rhs@, k)),
            ),
    ensures
        r.spec_offset() == 0,
        r.spec_bytes().len() == (lhs@.len() + 7) / 8,
        binary_kernel(op, lhs@, rhs@, r@),
{
    let length = lhs.len();
    let mut a = lhs.chunks();
    let mut b = rhs.chunks();
    let full = a.chunk_count();
    let rest_bytes: usize = (a.remainder_len() + 7) / 8;
    let mut buffer = MutableBuffer::with_capacity(full * 8 + rest_bytes);
    let ghost mut words: Seq<u64> = Seq::empty();
    let mut k: usize = 0;
    proof {
        assert(buffer@ =~= words_bytes(words));
    }
    while k < full
        invariant
            k <= full,
            full == lhs@.len() / 64,
            lhs@.len() == rhs@.len(),
            a.bits() == lhs@,
            b.bits() == rhs@,
            a.position() == k,
            b.position() == k,
            words.len() == k,
            buffer@ == words_bytes(words),
            forall|i: int|
                0 <= i < k ==> op.ensures(
                    (chunk_word(lhs@, i), chunk_word(rhs@, i)),
                    #[trigger] words[i],
                ),
            forall|i: int|
                0 <= i <= lhs@.len() / 64 ==> op.requires(
                    (#[trigger] chunk_word(lhs@, i), chunk_word(rhs@, i)),
                ),
        decreases full - k,
    {
        let x = a.next().unwrap();
        let y = b.next().unwrap();
        let w = op(x, y);
        buffer.push_word(w);
        proof {
            lemma_words_bytes_push(words, w);
            words = words.push(w);
        }
        k = k + 1;
    }
    let w = op(a.remainder(), b.remainder());
    let r = finish(buffer, Ghost(words), w, length);
    proof {
        assert forall|i: int| 0 <= i <= lhs@.len() / 64 implies #[trigger] binary_chunk(
            op,
            lhs@,
            rhs@,
            r@,
            i,
        ) by {
            if i < full {
                assert(chunk_matches(r@, i, words[i]));
            } else {
                assert(chunk_matches(r@, i, w));
            }
        }
    }
    r
}

/// Applies the word operator `op` to three bitmaps of one length, 64 bits at
/// a time, and returns the result as a new bitmap over a buffer of its own.
///
/// `op` is called once for each triple of full chunks and once more for the
/// three remainder words, also where the remainder is empty.
pub fn ternary<F>(a1: &Bitmap, a2: &Bitmap, a3: &Bitmap, op: F) -> (r: Bitmap) where
    F: Fn(u64, u64, u64) -> u64,

    requires
        a1@.len() == a2@.len(),
        a1@.len() == a3@.len(),
        forall|k: int|
            0 <= k <= a1@.len() / 64 ==> op.requires(
                (#[trigger] chunk_word(a1@, k), chunk_word(a2@, k), chunk_word(a3@, k)),
            ),
    ensures
        r.spec_offset() == 0,
        r.spec_bytes().len() == (a1@.len() + 7) / 8,
        ternary_kernel(op, a1@, a2@, a3@, r@),
{
    let length = a1.len();
    let mut c1 = a1.chunks();
    let mut c2 = a2.chunks();
    let mut c3 = a3.chunks();
    let full = c1.chunk_count();
    let rest_bytes: usize = (c1.remainder_len() + 7) / 8;
    let mut buffer = MutableBuffer::with_capacity(full * 8 + rest_bytes);
    let ghost mut words: Seq<u64> = Seq::empty();
    let mut k: usize = 0;
    proof {
        assert(buffer@ =~= words_bytes(words));
    }
    while k < full
        invariant
            k <= full,
            full == a1@.len() / 64,
            a1@.len() == a2@.len(),
            a1@.len() == a3@.len(),
            c1.bits() == a1@,
            c2.bits() == a2@,
            c3.bits() == a3@,
            c1.position() == k,
            c2.position() == k,
            c3.position() == k,
            words.len() == k,
            buffer@ == words_bytes(words),
            forall|i: int|
                0 <= i < k ==> op.ensures(
                    (chunk_word(a1@, i), chunk_word(a2@, i), chunk_word(a3@, i)),
                    #[trigger] words[i],
                ),
            forall|i: int|
                0 <= i <= a1@.len() / 64 ==> op.requires(
                    (#[trigger] chunk_word(a1@, i), chunk_word(a2@, i), chunk_word(a3@, i)),
                ),
        decreases full - k,
    {
        let x1 = c1.next().unwrap();
        let x2 = c2.next().unwrap();
        let x3 = c3.next().unwrap();
        let w = op(x1, x2, x3);
        buffer.push_word(w);
        proof {
            lemma_words_bytes_push(words, w);
            words = words.push(w);
        }
        k = k + 1;
    }
    let w = op(c1.remainder(), c2.remainder(), c3.remainder());
    let r = finish(buffer, Ghost(words), w, length);
    proof {
        assert forall|i: int| 0 <= i <= a1@.len() / 64 implies #[trigger] ternary_chunk(
            op,
            a1@,
            a2@,
            a3@,
            r@,
            i,
        ) by {
            if i < full {
                assert(chunk_matches(r@, i, words[i]));
            } else {
                assert(chunk_matches(r@, i, w));
            }
        }
    }
    r
}

/// Applies the word operator `op` to four bitmaps of one length, 64 bits at
/// a time, and returns the result as a new bitmap over a buffer of its own.
///
/// `op` is called once for each quadruple of full chunks and once more for
/// the four remainder words, also where the remainder is empty.
pub fn quaternary<F>(a1: &Bitmap, a2: &Bitmap, a3: &Bitmap, a4: &Bitmap, op: F) -> (r: Bitmap) where
    F: Fn(u64, u64, u64, u64) -> u64,

    requires
        a1@.len() == a2@.len(),
        a1@.len() == a3@.len(),
        a1@.len() == a4@.len(),
        forall|k: int|
            0 <= k <= a1@.len() / 64 ==> op.requires(
                (
                    #[trigger] chunk_word(a1@, k),
                    chunk_word(a2@, k),
                    chunk_word(a3@, k),
                    chunk_word(a4@, k),
                ),
            ),
    ensures
        r.spec_offset() == 0,
        r.spec_bytes().len() == (a1@.len() + 7) / 8,
        quaternary_kernel(op, a1@, a2@, a3@, a4@, r@),
{
    let length = a1.len();
    let mut c1 = a1.chunks();
    let mut c2 = a2.chunks();
    let mut c3 = a3.chunks();
    let mut c4 = a4.chunks();
    let full = c1.chunk_count();
    let rest_bytes: usize = (c1.remainder_len() + 7) / 8;
    let mut buffer = MutableBuffer::with_capacity(full * 8 + rest_bytes);
    let ghost mut words: Seq<u64> = Seq::empty();
    let mut k: usize = 0;
    proof {
        assert(buffer@ =~= words_bytes(words));
    }
    while k < full
        invariant
            k <= full,
            full == a1@.len() / 64,
            a1@.len() == a2@.len(),
            a1@.len() == a3@.len(),
            a1@.len() == a4@.len(),
            c1.bits() == a1@,
            c2.bits() == a2@,
            c3.bits() == a3@,
            c4.bits() == a4@,
            c1.position() == k,
            c2.position() == k,
            c3.position() == k,
            c4.position() == k,
            words.len() == k,
            buffer@ == words_bytes(words),
            forall|i: int|
                0 <= i < k ==> op.ensures(
                    (
                        chunk_word(a1@, i),
                        chunk_word(a2@, i),
                        chunk_word(a3@, i),
                        chunk_word(a4@, i),
                    ),
                    #[trigger] words[i],
                ),
            forall|i: int|
                0 <= i <= a1@.len() / 64 ==> op.requires(
                    (
                        #[trigger] chunk_word(a1@, i),
                        chunk_word(a2@, i),
                        chunk_word(a3@, i),
                        chunk_word(a4@, i),
                    ),
                ),
        decreases full - k,
    {
        let x1 = c1.next().unwrap();
        let x2 = c2.next().unwrap();
        let x3 = c3.next().unwrap();
        let x4 = c4.next().unwrap();
        let w = op(x1, x2, x3, x4);
        buffer.push_word(w);
        proof {
            lemma_words_bytes_push(words, w);
            words = words.push(w);
        }
        k = k + 1;
    }
    let w = op(c1.remainder(), c2.remainder(), c3.remainder(), c4.remainder());
    let r = finish(buffer, Ghost(words), w, length);
    proof {
        assert forall|i: int| 0 <= i <= a1@.len() / 64 implies #[trigger] quaternary_chunk(
            op,
            a1@,
            a2@,
            a3@,
            a4@,
            r@,
            i,
        ) by {
            if i < full {
                assert(chunk_matches(r@, i, words[i]));
            } else {
                assert(chunk_matches(r@, i, w));
            }
        }
    }
    r
}

/// The bitwise AND of two bitmaps of one length.
pub fn and(lhs: &Bitmap, rhs: &Bitmap) -> (r: Bitmap)
    requires
        lhs@.len() == rhs@.len(),
    ensures
        r@ == bits_and(lhs@, rhs@),
        r.spec_offset() == 0,
        r.spec_bytes().len() == (lhs@.len() + 7) / 8,
{
    let op = |x: u64, y: u64| -> (z: u64)
        ensures
            z == x & y,
        { x & y };
    let r = binary(lhs, rhs, op);
    proof {
        assert forall|i: int| 0 <= i < r@.len() implies r@[i] == (lhs@[i] && rhs@[i]) by {
            let k = i / 64;
            let j = i % 64;
            assert(binary_chunk(op, lhs@, rhs@, r@, k));
            let w = choose|w: u64| #[trigger]
                chunk_matches(r@, k, w) && op.ensures(
                    (chunk_word(lhs@, k), chunk_word(rhs@, k)),
                    w,
                );
            assert(r@[64 * k + j] == word_bit(w, j));
            lemma_bitwise(chunk_word(lhs@, k), chunk_word(rhs@, k), j);
            lemma_chunk_bit(lhs@, k, j);
            lemma_chunk_bit(rhs@, k, j);
        }
        assert(r@ =~= bits_and(lhs@, rhs@));
    }
    r
}

/// The bitwise OR of two bitmaps of one length.
pub fn or(lhs: &Bitmap, rhs: &Bitmap) -> (r: Bitmap)
    requires
        lhs@.len() == rhs@.len(),
    ensures
        r@ == bits_or(lhs@, rhs@),
        r.spec_offset() == 0,
        r.spec_bytes().len() == (lhs@.len() + 7) / 8,
{
    let op = |x: u64, y: u64| -> (z: u64)
        ensures
            z == x | y,
        { x | y };
    let r = binary(lhs, rhs, op);
    proof {
        assert forall|i: int| 0 <= i < r@.len() implies r@[i] == (lhs@[i] || rhs@[i]) by {
            let k = i / 64;
            let j = i % 64;
            assert(binary_chunk(op, lhs@, rhs@, r@, k));
            let w = choose|w: u64| #[trigger]
                chunk_matches(r@, k, w) && op.ensures(
                    (chunk_word(lhs@, k), chunk_word(rhs@, k)),
                    w,
                );
            assert(r@[64 * k + j] == word_bit(w, j));
            lemma_bitwise(chunk_word(lhs@, k), chunk_word(rhs@, k), j);
            lemma_chunk_bit(lhs@, k, j);
            lemma_chunk_bit(rhs@, k, j);
        }
        assert(r@ =~= bits_or(lhs@, rhs@));
    }
    r
}

/// The bitwise complement of a bitmap.
pub fn not(lhs: &Bitmap) -> (r: Bitmap)
    ensures
        r@ == bits_not(lhs@),
        r.spec_offset() == 0,
        r.spec_bytes().len() == (lhs@.len() + 7) / 8,
{
    let op = |x: u64| -> (z: u64)
        ensures
            z == !x,
        { !x };
    let r = unary(lhs, op);
    proof {
        assert forall|i: int| 0 <= i < r@.len() implies r@[i] == !lhs@[i] by {
            let k = i / 64;
            let j = i % 64;
            assert(unary_chunk(op, lhs@, r@, k));
            let w = choose|w: u64| #[trigger]
                chunk_matches(r@, k, w) && op.ensures((chunk_word(lhs@, k),), w);
            assert(r@[64 * k + j] == word_bit(w, j));
            lemma_bitwise(chunk_word(lhs@, k), 0, j);
            lemma_chunk_bit(lhs@, k, j);
        }
        assert(r@ =~= bits_not(lhs@));
    }
    r
}

/// Whether two bitmaps hold the same bits: the same number of them, and the
/// same bit at each position. Bits of the buffers outside the two windows
/// play no part.
pub fn eq(lhs: &Bitmap, rhs: &Bitmap) -> (r: bool)
    ensures
        r == (lhs@ == rhs@),
{
    if lhs.len() != rhs.len() {
        return false;
    }
    let mut a = lhs.chunks();
    let mut b = rhs.chunks();
    let full = a.chunk_count();
    let mut k: usize = 0;
    while k < full
        invariant
            k <= full,
            full == lhs@.len() / 64,
            lhs@.len() == rhs@.len(),
            a.bits() == lhs@,
            b.bits() == rhs@,
            a.position() == k,
            b.position() == k,
            forall|i: int| 0 <= i < 64 * k ==> lhs@[i] == rhs@[i],
        decreases full - k,
    {
        let x = a.next().unwrap();
        let y = b.next().unwrap();
        if x != y {
            return false;
        }
        proof {
            assert forall|i: int| 0 <= i < 64 * (k + 1) implies lhs@[i] == rhs@[i] by {
                if i >= 64 * k {
                    lemma_chunk_bit(lhs@, k as int, i - 64 * k);
                    lemma_chunk_bit(rhs@, k as int, i - 64 * k);
                }
            }
        }
        k = k + 1;
    }
    let rest = a.remainder_len();
    let rest_bytes: usize = (rest + 7) / 8;
    let x = a.remainder();
    let y = b.remainder();
    let x_bytes = word_to_bytes(x);
    let y_bytes = word_to_bytes(y);
    let x_low = slice_subrange(x_bytes.as_slice(), 0, rest_bytes);
    let y_low = slice_subrange(y_bytes.as_slice(), 0, rest_bytes);
    let mut i: usize = 0;
    while i < rest
        invariant
            i <= rest < 64,
            rest == lhs@.len() % 64,
            full == lhs@.len() / 64,
            lhs@.len() == rhs@.len(),
            rest_bytes == (rest + 7) / 8,
            x == chunk_word(lhs@, full as int),
            y == chunk_word(rhs@, full as int),
            x_low@ == word_bytes(x).subrange(0, rest_bytes as int),
            y_low@ == word_bytes(y).subrange(0, rest_bytes as int),
            forall|p: int| 0 <= p < 64 * full + i ==> lhs@[p] == rhs@[p],
        decreases rest - i,
    {
        proof {
            lemma_word_bytes_bit(x, i as int);
            lemma_word_bytes_bit(y, i as int);
            lemma_chunk_bit(lhs@, full as int, i as int);
            lemma_chunk_bit(rhs@, full as int, i as int);
        }
        if get_bit(x_low, i) != get_bit(y_low, i) {
            return false;
        }
        i = i + 1;
    }
    proof {
        assert(lhs@ =~= rhs@);
    }
    true
}

impl PartialEq for Bitmap {
    /// Equality of the bits: see [`eq`].
    fn eq(&self, other: &Self) -> (r: bool) {
        eq(self, other)
    }
}

impl vstd::std_specs::cmp::PartialEqSpecImpl for Bitmap {
    open spec fn obeys_eq_spec() -> bool {
        true
    }

    open spec fn eq_spec(&self, other: &Self) -> bool {
        self@ == other@
    }
}

impl<'a, 'b> BitAnd<&'b Bitmap> for &'a Bitmap {
    type Output = Bitmap;

    /// `&` on two bitmaps of one length: see [`and`].
    fn bitand(self, rhs: &'b Bitmap) -> (r: Bitmap)
        ensures
            r@ == bits_and(self@, rhs@),
            r.spec_offset() == 0,
    {
        and(self, rhs)
    }
}

/// `&` asks for two bitmaps of one length. Its result is a bitmap over a new
/// buffer and is given by its bits, in the clauses of `bitand`; no value is
/// named for it here.
impl<'a, 'b> vstd::std_specs::ops::BitAndSpecImpl<&'b Bitmap> for &'a Bitmap {
    open spec fn obeys_bitand_spec() -> bool {
        false
    }

    open spec fn bitand_req(self, rhs: &'b Bitmap) -> bool {
        self@.len() == rhs@.len()
    }

    open spec fn bitand_spec(self, rhs: &'b Bitmap) -> Bitmap {
        vstd::pervasive::arbitrary()
    }
}

impl<'a, 'b> BitOr<&'b Bitmap> for &'a Bitmap {
    type Output = Bitmap;

    /// `|` on two bitmaps of one length: see [`or`].
    fn bitor(self, rhs: &'b Bitmap) -> (r: Bitmap)
        ensures
            r@ == bits_or(self@, rhs@),
            r.spec_offset() == 0,
    {
        or(self, rhs)
    }
}

/// `|` asks for two bitmaps of one length. Its result is a bitmap over a new
/// buffer and is given by its bits, in the clauses of `bitor`; no value is
/// named for it here.
impl<'a, 'b> vstd::std_specs::ops::BitOrSpecImpl<&'b Bitmap> for &'a Bitmap {
    open spec fn obeys_bitor_spec() -> bool {
        false
    }

    open spec fn bitor_req(self, rhs: &'b Bitmap) -> bool {
        self@.len() == rhs@.len()
    }

    open spec fn bitor_spec(self, rhs: &'b Bitmap) -> Bitmap {
        vstd::pervasive::arbitrary()
    }
}

impl<'a> Not for &'a Bitmap {
    type Output = Bitmap;

    /// `!` on a bitmap: see [`not`].
    fn not(self) -> (r: Bitmap)
        ensures
            r@ == bits_not(self@),
            r.spec_offset() == 0,
    {
        not(self)
    }
}

/// `!` takes any bitmap. Its result is a bitmap over a new buffer and is
/// given by its bits, in the clauses of `not`; no value is named for it here.
impl<'a> vstd::std_specs::ops::NotSpecImpl for &'a Bitmap {
    open spec fn obeys_not_spec() -> bool {
        false
    }

    open spec fn not_req(self) -> bool {
        true
    }

    open spec fn not_spec(self) -> Bitmap {
        vstd::pervasive::arbitrary()
    }
}

} // verus!
