//! Bit numbering. Bits are counted least-significant first: bit `i` of a byte
//! sequence is bit `i % 8` of byte `i / 8`, and bit 0 of a byte or a word is
//! its lowest-order bit.

use vstd::prelude::*;

verus! {

/// Bit `j` of a word; `false` outside `0..64`.
pub open spec fn word_bit(w: u64, j: int) -> bool {
    0 <= j < 64 && (w >> (j as u64)) & 1 == 1
}

/// Bit `k` of a byte; `false` outside `0..8`.
pub open spec fn byte_bit(b: u8, k: int) -> bool {
    0 <= k < 8 && word_bit(b as u64, k)
}

/// Bit `i` of a byte sequence.
pub open spec fn bit_at(bytes: Seq<u8>, i: int) -> bool {
    byte_bit(bytes[i / 8], i % 8)
}

/// The bits `start .. start + n` of a byte sequence.
pub open spec fn bits_of(bytes: Seq<u8>, start: int, n: nat) -> Seq<bool> {
    Seq::new(n, |i: int| bit_at(bytes, start + i))
}

/// The number of zero bits in a bit sequence.
pub open spec fn count_zeros(bits: Seq<bool>) -> nat
    decreases bits.len(),
{
    if bits.len() == 0 {
        0
    } else {
        count_zeros(bits.drop_last()) + if bits.last() {
            0nat
        } else {
            1nat
        }
    }
}

/// The word whose bit `j`, for `j < n`, is bit `start + j` of `bits`, and whose
/// other bits are zero. Positions past the end of `bits` count as zero.
pub open spec fn pack(bits: Seq<bool>, start: int, n: nat) -> u64
    decreases n,
{
    if n == 0 {
        0
    } else {
        let low = pack(bits, start, (n - 1) as nat);
        let i = start + n - 1;
        if n <= 64 && 0 <= i < bits.len() && bits[i] {
            low | (1u64 << ((n - 1) as u64))
        } else {
            low
        }
    }
}

/// The 64-bit window of `bits` that starts at `start`, zero-padded past the end.
pub open spec fn word_at(bits: Seq<bool>, start: int) -> u64 {
    pack(bits, start, 64)
}

/// The eight bytes of a word in little-endian order: bit 0 of the word is bit 0
/// of the first byte.
pub open spec fn word_bytes(w: u64) -> Seq<u8> {
    Seq::new(8, |m: int| ((w >> ((8 * m) as u64)) & 0xff) as u8)
}

/// The bits of a packed word are the bits it was packed from.
pub proof fn lemma_pack_bit(bits: Seq<bool>, start: int, n: nat, j: int)
    requires
        n <= 64,
    ensures
        word_bit(pack(bits, start, n), j) == (0 <= j < n && 0 <= start + j < bits.len()
            && bits[start + j]),
    decreases n,
{
    if 0 <= j < 64 {
        let ju = j as u64;
        if n == 0 {
            assert((0u64 >> ju) & 1 == 0) by (bit_vector);
        } else {
            let low = pack(bits, start, (n - 1) as nat);
            lemma_pack_bit(bits, start, (n - 1) as nat, j);
            let m = (n - 1) as u64;
            assert((((low | (1u64 << m)) >> ju) & 1 == 1) == (((low >> ju) & 1 == 1) || ju == m))
                by (bit_vector)
                requires
                    ju < 64,
                    m < 64,
            ;
        }
    }
}

/// Every bit of a window is the corresponding bit of the sequence.
pub proof fn lemma_word_at_bit(bits: Seq<bool>, start: int, j: int)
    ensures
        word_bit(word_at(bits, start), j) == (0 <= j < 64 && 0 <= start + j < bits.len()
            && bits[start + j]),
{
    lemma_pack_bit(bits, start, 64, j);
}

/// Two words that agree below bit `n` have the same low `n` bits.
proof fn lemma_low_bits_equal(a: u64, b: u64, n: nat)
    requires
        n <= 64,
        forall|j: int| 0 <= j < n ==> word_bit(a, j) == word_bit(b, j),
    ensures
        a & !(0xffff_ffff_ffff_ffffu64 << (n as u64)) == b & !(0xffff_ffff_ffff_ffffu64 << (
        n as u64)),
    decreases n,
{
    let nu = n as u64;
    if n == 0 {
        assert(a & !(0xffff_ffff_ffff_ffffu64 << 0u64) == b & !(0xffff_ffff_ffff_ffffu64 << 0u64))
            by (bit_vector);
    } else {
        let m = (n - 1) as u64;
        lemma_low_bits_equal(a, b, (n - 1) as nat);
        assert(word_bit(a, n - 1) == word_bit(b, n - 1));
        assert(a & !(0xffff_ffff_ffff_ffffu64 << nu) == b & !(0xffff_ffff_ffff_ffffu64 << nu))
            by (bit_vector)
            requires
                m < 64,
                nu == m + 1,
                a & !(0xffff_ffff_ffff_ffffu64 << m) == b & !(0xffff_ffff_ffff_ffffu64 << m),
                ((a >> m) & 1 == 1) == ((b >> m) & 1 == 1),
        ;
    }
}

/// A word is determined by its 64 bits.
pub proof fn lemma_word_ext(a: u64, b: u64)
    requires
        forall|j: int| 0 <= j < 64 ==> word_bit(a, j) == word_bit(b, j),
    ensures
        a == b,
{
    lemma_low_bits_equal(a, b, 64);
    assert(a == b) by (bit_vector)
        requires
            a & !(0xffff_ffff_ffff_ffffu64 << 64u64) == b & !(0xffff_ffff_ffff_ffffu64 << 64u64),
    ;
}

/// AND, OR and NOT of words work bit by bit.
pub proof fn lemma_bitwise(x: u64, y: u64, j: int)
    requires
        0 <= j < 64,
    ensures
        word_bit(x & y, j) == (word_bit(x, j) && word_bit(y, j)),
        word_bit(x | y, j) == (word_bit(x, j) || word_bit(y, j)),
        word_bit(!x, j) == !word_bit(x, j),
{
    let ju = j as u64;
    assert((((x & y) >> ju) & 1 == 1) == (((x >> ju) & 1 == 1) && ((y >> ju) & 1 == 1)))
        by (bit_vector);
    assert((((x | y) >> ju) & 1 == 1) == (((x >> ju) & 1 == 1) || ((y >> ju) & 1 == 1)))
        by (bit_vector);
    assert((((!x) >> ju) & 1 == 1) == !((x >> ju) & 1 == 1)) by (bit_vector)
        requires
            ju < 64,
    ;
}

/// OR-ing a byte into a word at bit position `s` sets the bits of the byte at
/// `s .. s + 8` (as far as they fit) and leaves the others as they were.
pub proof fn lemma_or_shifted_byte(w: u64, x: u8, s: int, j: int)
    requires
        0 <= s < 64,
        0 <= j < 64,
    ensures
        word_bit(w | ((x as u64) << (s as u64)), j) == (word_bit(w, j) || (s <= j < s + 8
            && byte_bit(x, j - s))),
{
    let xu = x as u64;
    let su = s as u64;
    let ju = j as u64;
    if s <= j < s + 8 {
        let t = (j - s) as u64;
        assert((((w | (xu << su)) >> ju) & 1 == 1) == (((w >> ju) & 1 == 1) || ((xu >> t) & 1
            == 1))) by (bit_vector)
            requires
                xu <= 0xff,
                ju < 64,
                t < 8,
                ju == su + t,
        ;
    } else {
        assert((((w | (xu << su)) >> ju) & 1 == 1) == ((w >> ju) & 1 == 1)) by (bit_vector)
            requires
                xu <= 0xff,
                ju < 64,
                su < 64,
                ju < su || ju >= su + 8,
        ;
    }
}

/// Shifting a word right by `s` moves bit `j + s` to bit `j`.
pub proof fn lemma_shr_bit(w: u64, s: int, j: int)
    requires
        0 <= s < 64,
        0 <= j < 64,
    ensures
        word_bit(w >> (s as u64), j) == word_bit(w, j + s),
{
    let su = s as u64;
    let ju = j as u64;
    if j + s < 64 {
        let iu = (j + s) as u64;
        assert((((w >> su) >> ju) & 1 == 1) == ((w >> iu) & 1 == 1)) by (bit_vector)
            requires
                iu == ju + su,
                iu < 64,
        ;
    } else {
        assert(((w >> su) >> ju) & 1 == 0) by (bit_vector)
            requires
                su < 64,
                ju < 64,
                ju + su >= 64,
        ;
    }
}

/// The mask `(1 << n) - 1` keeps the bits below `n` and clears the others.
pub proof fn lemma_mask_bit(w: u64, mask: u64, n: int, j: int)
    requires
        0 <= n < 64,
        0 <= j < 64,
        mask == (1u64 << (n as u64)) - 1,
    ensures
        word_bit(w & mask, j) == (j < n && word_bit(w, j)),
{
    let nu = n as u64;
    let ju = j as u64;
    assert((((w & mask) >> ju) & 1 == 1) == (ju < nu && ((w >> ju) & 1 == 1))) by (bit_vector)
        requires
            nu < 64,
            ju < 64,
            mask == (1u64 << nu) - 1,
    ;
}

/// Byte `m` of a word, in little-endian order, holds the word's bits
/// `8 * m .. 8 * m + 8`.
pub proof fn lemma_byte_of_word(w: u64, m: int, t: int)
    requires
        0 <= m < 8,
        0 <= t < 8,
    ensures
        (w >> ((8 * m) as u64)) & 0xff <= 0xff,
        byte_bit(((w >> ((8 * m) as u64)) & 0xff) as u8, t) == word_bit(w, 8 * m + t),
{
    let su = (8 * m) as u64;
    let tu = t as u64;
    let ju = (8 * m + t) as u64;
    let x = (w >> su) & 0xff;
    assert(x <= 0xff && (((x >> tu) & 1 == 1) == ((w >> ju) & 1 == 1))) by (bit_vector)
        requires
            x == (w >> su) & 0xff,
            su <= 56,
            tu < 8,
            ju == su + tu,
    ;
    assert((x as u8) as u64 == x);
}

/// Read back bit by bit, the little-endian bytes of a word give the word.
pub proof fn lemma_word_bytes_bit(w: u64, j: int)
    requires
        0 <= j < 64,
    ensures
        bit_at(word_bytes(w), j) == word_bit(w, j),
{
    lemma_byte_of_word(w, j / 8, j % 8);
}

/// A bit of a concatenation lies in the first part or, moved down by the
/// length of the first part, in the second.
pub proof fn lemma_bit_at_concat(a: Seq<u8>, b: Seq<u8>, i: int)
    requires
        0 <= i < 8 * (a.len() + b.len()),
    ensures
        bit_at(a + b, i) == if i < 8 * a.len() {
            bit_at(a, i)
        } else {
            bit_at(b, i - 8 * a.len())
        },
{
}

/// Reads bit `i` of `bytes`.
pub fn get_bit(bytes: &[u8], i: usize) -> (r: bool)
    requires
        i < bytes.len() * 8,
    ensures
        r == bit_at(bytes@, i as int),
{
    let b: u8 = bytes[i / 8];
    let k: usize = i % 8;
    proof {
        let ku = k as u64;
        assert(((b & (1u8 << ku)) != 0) == (((b as u64) >> ku) & 1 == 1)) by (bit_vector)
            requires
                ku < 8,
        ;
    }
    (b & (1u8 << k)) != 0
}

/// Reads the `n` bits that start at bit `pos` of `bytes` into the low bits of a
/// word; the bits from `n` up are zero.
pub fn load_word(bytes: &[u8], pos: usize, n: usize) -> (r: u64)
    requires
        n <= 64,
        pos + n <= bytes.len() * 8,
    ensures
        r == word_at(bits_of(bytes@, pos as int, n as nat), 0),
{
    if n == 0 {
        proof {
            let bits = bits_of(bytes@, pos as int, 0);
            assert forall|j: int| 0 <= j < 64 implies word_bit(0u64, j) == word_bit(
                word_at(bits, 0),
                j,
            ) by {
                lemma_word_at_bit(bits, 0, j);
                lemma_pack_bit(bits, 0, 0, j);
            }
            lemma_word_ext(0u64, word_at(bits, 0));
        }
        return 0;
    }
    let first: usize = pos / 8;
    let shift: usize = pos % 8;
    let nbytes: usize = (shift + n + 7) / 8;
    let lim: usize = if nbytes < 8 {
        nbytes
    } else {
        8
    };
    let mut w: u64 = 0;
    let mut m: usize = 0;
    proof {
        assert forall|j: int| 0 <= j < 64 implies !word_bit(0u64, j) by {
            lemma_pack_bit(Seq::<bool>::empty(), 0, 0, j);
        }
    }
    while m < lim
        invariant
            m <= lim <= 8,
            first + lim <= bytes.len(),
            forall|j: int|
                0 <= j < 64 ==> #[trigger] word_bit(w, j) == (j < 8 * m && bit_at(
                    bytes@,
                    8 * first + j,
                )),
        decreases lim - m,
    {
        let x: u8 = bytes[first + m];
        let next: u64 = w | ((x as u64) << (8 * m));
        proof {
            assert forall|j: int| 0 <= j < 64 implies #[trigger] word_bit(next, j) == (j < 8 * (m
                + 1) && bit_at(bytes@, 8 * first + j)) by {
                lemma_or_shifted_byte(w, x, 8 * m, j);
            }
        }
        w = next;
        m = m + 1;
    }
    let mut r: u64 = w >> shift;
    proof {
        assert forall|j: int| 0 <= j < 64 implies #[trigger] word_bit(r, j) == (j + shift < 8
            * lim && bit_at(bytes@, pos + j)) by {
            lemma_shr_bit(w, shift as int, j);
        }
    }
    if nbytes == 9 {
        let x: u8 = bytes[first + 8];
        let joined: u64 = r | ((x as u64) << (64 - shift));
        proof {
            assert forall|j: int| 0 <= j < 64 implies #[trigger] word_bit(joined, j) == bit_at(
                bytes@,
                pos + j,
            ) by {
                lemma_or_shifted_byte(r, x, 64 - shift, j);
            }
        }
        r = joined;
    }
    if n < 64 {
        proof {
            let nu = n as u64;
            assert((1u64 << nu) >= 1) by (bit_vector)
                requires
                    nu < 64,
            ;
        }
        let mask: u64 = (1u64 << n) - 1;
        let kept: u64 = r & mask;
        proof {
            assert forall|j: int| 0 <= j < 64 implies #[trigger] word_bit(kept, j) == (j < n
                && bit_at(bytes@, pos + j)) by {
                lemma_mask_bit(r, mask, n as int, j);
            }
        }
        r = kept;
    }
    proof {
        let bits = bits_of(bytes@, pos as int, n as nat);
        assert forall|j: int| 0 <= j < 64 implies word_bit(r, j) == word_bit(word_at(bits, 0), j) by {
            lemma_word_at_bit(bits, 0, j);
        }
        lemma_word_ext(r, word_at(bits, 0));
    }
    r
}

/// The little-endian bytes of a word.
pub fn word_to_bytes(w: u64) -> (r: [u8; 8])
    ensures
        r@ == word_bytes(w),
{
    proof {
        lemma_byte_of_word(w, 0, 0);
        lemma_byte_of_word(w, 1, 0);
        lemma_byte_of_word(w, 2, 0);
        lemma_byte_of_word(w, 3, 0);
        lemma_byte_of_word(w, 4, 0);
        lemma_byte_of_word(w, 5, 0);
        lemma_byte_of_word(w, 6, 0);
        lemma_byte_of_word(w, 7, 0);
        assert(w >> 0u64 == w) by (bit_vector);
    }
    let r: [u8; 8] = [
        (w & 0xff) as u8,
        ((w >> 8) & 0xff) as u8,
        ((w >> 16) & 0xff) as u8,
        ((w >> 24) & 0xff) as u8,
        ((w >> 32) & 0xff) as u8,
        ((w >> 40) & 0xff) as u8,
        ((w >> 48) & 0xff) as u8,
        ((w >> 56) & 0xff) as u8,
    ];
    proof {
        assert(r@ =~= word_bytes(w));
    }
    r
}

} // verus!
