//! Offsets in raw buffers: each offset takes four or eight bytes, least
//! significant byte first, as a signed number in two's complement.

use crate::bits::{
    bit_at, bits_of, lemma_mask_bit, lemma_word_at_bit, lemma_word_bytes_bit, lemma_word_ext,
    load_word, word_at, word_bit, word_bytes, word_to_bytes,
};
use crate::datatypes::DataType;
use vstd::prelude::*;
use vstd::slice::slice_subrange;

verus! {

/// The number that up to eight bytes spell, least significant byte first.
pub open spec fn le_word(b: Seq<u8>) -> u64 {
    word_at(bits_of(b, 0, 8 * b.len()), 0)
}

/// The bytes of entry `i` of a raw offsets buffer.
pub open spec fn entry_bytes(bytes: Seq<u8>, data_type: DataType, i: int) -> Seq<u8> {
    bytes.subrange(data_type.offset_width() * i, data_type.offset_width() * (i + 1))
}

/// A stored number read as signed, at the width of the type's offsets.
pub open spec fn signed(u: u64, data_type: DataType) -> int {
    match data_type {
        DataType::Binary => if u <= 0x7fff_ffff {
            u as int
        } else {
            u - 0x1_0000_0000
        },
        DataType::LargeBinary => if u <= 0x7fff_ffff_ffff_ffff {
            u as int
        } else {
            u - 0x1_0000_0000_0000_0000
        },
    }
}

/// The offset that entry `i` of a raw offsets buffer holds.
pub open spec fn entry_value(bytes: Seq<u8>, data_type: DataType, i: int) -> int {
    signed(le_word(entry_bytes(bytes, data_type, i)), data_type)
}

/// The bytes that store an offset: the low four or eight bytes of the number.
pub open spec fn offset_bytes(data_type: DataType, v: i64) -> Seq<u8> {
    word_bytes(v as u64).subrange(0, data_type.offset_width())
}

/// The raw buffer that stores a sequence of offsets.
pub open spec fn encode_offsets(data_type: DataType, offsets: Seq<i64>) -> Seq<u8> {
    Seq::new(
        (data_type.offset_width() * offsets.len()) as nat,
        |p: int|
            offset_bytes(data_type, offsets[p / data_type.offset_width()])[p
                % data_type.offset_width()],
    )
}

/// A word without a bit from 32 up is below 2^32.
proof fn lemma_low_word_bound(w: u64)
    requires
        forall|j: int| 32 <= j < 64 ==> !word_bit(w, j),
    ensures
        w <= 0xffff_ffff,
{
    let mask: u64 = 0xffff_ffff;
    let low = w & mask;
    assert(mask == (1u64 << 32u64) - 1) by (bit_vector)
        requires
            mask == 0xffff_ffff,
    ;
    assert forall|j: int| 0 <= j < 64 implies word_bit(low, j) == word_bit(w, j) by {
        lemma_mask_bit(w, mask, 32, j);
    }
    lemma_word_ext(low, w);
    assert(w & mask <= 0xffff_ffff) by (bit_vector)
        requires
            mask == 0xffff_ffff,
    ;
}

/// A number below 2^32 has no bit from 32 up.
proof fn lemma_low_word_bits(w: u64, j: int)
    requires
        w <= 0xffff_ffff,
        32 <= j < 64,
    ensures
        !word_bit(w, j),
{
    let ju = j as u64;
    assert((w >> ju) & 1 == 0) by (bit_vector)
        requires
            w <= 0xffff_ffff,
            32 <= ju < 64,
    ;
}

/// Four bytes spell a number below 2^32.
pub proof fn lemma_le_word_bound(b: Seq<u8>)
    requires
        b.len() <= 4,
    ensures
        le_word(b) <= 0xffff_ffff,
{
    assert forall|j: int| 32 <= j < 64 implies !word_bit(le_word(b), j) by {
        lemma_word_at_bit(bits_of(b, 0, 8 * b.len()), 0, j);
    }
    lemma_low_word_bound(le_word(b));
}

/// An offset in the type's range is read back from its bytes.
pub proof fn lemma_offset_roundtrip(data_type: DataType, v: i64)
    requires
        0 <= v <= data_type.max_offset(),
    ensures
        offset_bytes(data_type, v).len() == data_type.offset_width(),
        signed(le_word(offset_bytes(data_type, v)), data_type) == v,
{
    let w = v as u64;
    let b = offset_bytes(data_type, v);
    let read = le_word(b);
    assert forall|j: int| 0 <= j < 64 implies word_bit(read, j) == word_bit(w, j) by {
        lemma_word_at_bit(bits_of(b, 0, 8 * b.len()), 0, j);
        lemma_word_bytes_bit(w, j);
        if j >= 8 * b.len() {
            lemma_low_word_bits(w, j);
        }
    }
    lemma_word_ext(read, w);
}

/// Entry `i` of the raw buffer of a sequence of offsets is offset `i`.
pub proof fn lemma_encode_entry(data_type: DataType, offsets: Seq<i64>, i: int)
    requires
        0 <= i < offsets.len(),
        0 <= offsets[i] <= data_type.max_offset(),
    ensures
        entry_value(encode_offsets(data_type, offsets), data_type, i) == offsets[i],
{
    let width = data_type.offset_width();
    let all = encode_offsets(data_type, offsets);
    assert(width == 4 || width == 8);
    assert(entry_bytes(all, data_type, i) =~= offset_bytes(data_type, offsets[i])) by {
        assert forall|p: int| 0 <= p < width implies all[width * i + p] == offset_bytes(
            data_type,
            offsets[i],
        )[p] by {
            assert((width * i + p) / width == i && (width * i + p) % width == p);
        }
    }
    lemma_offset_roundtrip(data_type, offsets[i]);
}

/// Reads entry `i` of a raw offsets buffer.
pub fn read_entry(bytes: &[u8], data_type: DataType, i: usize) -> (r: i64)
    requires
        data_type.offset_width() * (i + 1) <= bytes@.len(),
    ensures
        r == entry_value(bytes@, data_type, i as int),
{
    proof {
        assert(bytes@.len() == bytes.len());
    }
    match data_type {
        DataType::Binary => {
            let b = slice_subrange(bytes, 4 * i, 4 * i + 4);
            let u = load_word(b, 0, 32);
            proof {
                lemma_le_word_bound(b@);
            }
            if u <= 0x7fff_ffff {
                u as i64
            } else {
                (u as i64) - 0x1_0000_0000
            }
        },
        DataType::LargeBinary => {
            let b = slice_subrange(bytes, 8 * i, 8 * i + 8);
            let u = load_word(b, 0, 64);
            if u <= 0x7fff_ffff_ffff_ffff {
                u as i64
            } else {
                ((u - 0x8000_0000_0000_0000) as i64) - 0x4000_0000_0000_0000
                    - 0x4000_0000_0000_0000
            }
        },
    }
}

/// Appends the bytes that store the offset `v`.
pub fn push_entry(out: &mut Vec<u8>, data_type: DataType, v: i64)
    requires
        0 <= v <= data_type.max_offset(),
    ensures
        final(out)@ == old(out)@ + offset_bytes(data_type, v),
{
    let bytes = word_to_bytes(v as u64);
    let low = slice_subrange(bytes.as_slice(), 0, data_type.width());
    out.extend_from_slice(low);
}

} // verus!
