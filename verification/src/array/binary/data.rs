//! Binary arrays in the interchange format: a binary array as raw buffers, a
//! length and a slice offset, and as the `ArrayData` of the arrow crates.
//!
//! Offsets are stored in raw buffers as the format lays them down, least
//! significant byte first. The arrow crates read a buffer in the byte order of
//! the machine, so what is said here of their reading of offsets is said of
//! little-endian machines.

use crate::array::binary::{valid_offsets, ArrayError, BinaryArray};
use crate::bitmap::Bitmap;
use crate::bits::{bits_of, count_zeros};
use crate::buffer::MutableBuffer;
use crate::datatypes::DataType;
use crate::offset::{
    encode_offsets, entry_value, lemma_encode_entry, offset_bytes, push_entry, read_entry,
};
use arrow_buffer::{BooleanBuffer, Buffer, NullBuffer};
use arrow_data::{ArrayData, ArrayDataBuilder};
use arrow_schema::ArrowError;
use vstd::prelude::*;

verus! {

/// `arrow_data::ArrayData`, the array of the interchange format. Nothing of
/// its inside is known here; what is read from it goes through the functions
/// below.
#[verifier::external_type_specification]
#[verifier::external_body]
pub struct ExArrayData(arrow_data::ArrayData);

/// `arrow_schema::ArrowError`, the error of the builder of `ArrayData`. It is
/// only carried from the builder to the place that finds it ruled out.
#[verifier::external_type_specification]
#[verifier::external_body]
pub struct ExArrowError(arrow_schema::ArrowError);

/// The type of an `ArrayData`, where it is one of the binary types.
pub uninterp spec fn array_data_type(data: ArrayData) -> Option<DataType>;

/// The number of rows of an `ArrayData`.
pub uninterp spec fn array_data_len(data: ArrayData) -> nat;

/// The slice offset of an `ArrayData`, in rows.
pub uninterp spec fn array_data_offset(data: ArrayData) -> nat;

/// The bytes of the buffers of an `ArrayData`, in order.
pub uninterp spec fn array_data_buffers(data: ArrayData) -> Seq<Seq<u8>>;

/// The null buffer of an `ArrayData`, where it has one: the bytes of the
/// underlying buffer, and the offset and the length of its window in bits.
pub uninterp spec fn array_data_nulls(data: ArrayData) -> Option<(Seq<u8>, nat, nat)>;

/// The number of null rows that an `ArrayData` reports.
pub uninterp spec fn array_data_null_count(data: ArrayData) -> nat;

/// `ArrayData::data_type`, told apart into the binary types and the others.
///
/// Trusted: the result is what `array_data_type` names.
#[verifier::external_body]
fn data_type_of(data: &ArrayData) -> (r: Option<DataType>)
    ensures
        r == array_data_type(*data),
{
    match data.data_type() {
        arrow_schema::DataType::Binary => Some(DataType::Binary),
        arrow_schema::DataType::LargeBinary => Some(DataType::LargeBinary),
        _ => None,
    }
}

/// `ArrayData::len`.
///
/// Trusted: the result is what `array_data_len` names.
#[verifier::external_body]
fn data_len(data: &ArrayData) -> (r: usize)
    ensures
        r == array_data_len(*data),
{
    data.len()
}

/// `ArrayData::offset`.
///
/// Trusted: the result is what `array_data_offset` names.
#[verifier::external_body]
fn data_offset(data: &ArrayData) -> (r: usize)
    ensures
        r == array_data_offset(*data),
{
    data.offset()
}

/// A copy of the bytes of buffer `i` of `ArrayData::buffers`, or `None` where
/// there are not that many buffers.
///
/// Trusted: the bytes are those that `array_data_buffers` names at `i`.
#[verifier::external_body]
fn data_buffer(data: &ArrayData, i: usize) -> (r: Option<Vec<u8>>)
    ensures
        r matches Some(v) ==> i < array_data_buffers(*data).len() && v@ == array_data_buffers(
            *data,
        )[i as int],
        r is None ==> i >= array_data_buffers(*data).len(),
{
    data.buffers().get(i).map(|b| b.as_slice().to_vec())
}

/// `ArrayData::nulls`: a copy of the bytes of the null buffer's underlying
/// buffer, with the offset and the length of its window in bits.
///
/// Trusted: the three are what `array_data_nulls` names.
#[verifier::external_body]
fn data_nulls(data: &ArrayData) -> (r: Option<(Vec<u8>, usize, usize)>)
    ensures
        r matches Some((b, o, l)) ==> array_data_nulls(*data) == Some((b@, o as nat, l as nat)),
        r is None ==> array_data_nulls(*data) is None,
{
    data.nulls().map(|n| (n.buffer().as_slice().to_vec(), n.offset(), n.len()))
}

/// `ArrayData::null_count`.
///
/// Trusted: the result is what `array_data_null_count` names.
#[verifier::external_body]
fn data_null_count(data: &ArrayData) -> (r: usize)
    ensures
        r == array_data_null_count(*data),
{
    data.null_count()
}

/// `ArrayDataBuilder::build` on a builder made of a binary type, a length,
/// the two buffers and the nulls: the builder's validation decides whether an
/// `ArrayData` comes back.
///
/// Trusted, of what comes back: the `ArrayData` has the type, the length and
/// the two buffers that went in, and the slice offset zero. It has the nulls
/// that went in where their window holds a zero bit, and none otherwise: the
/// builder drops a null buffer that marks no row as null. Its null count is
/// the number of zero bits in that window.
///
/// Trusted, of when it comes back: the validation accepts a binary array
/// whose offsets buffer holds `len + 1` entries that are valid offsets into
/// the values, and whose nulls, where there are any, have `len` bits. It
/// reads the entries in the machine's byte order; the clause speaks of them
/// least significant byte first, and so of little-endian machines. The
/// buffers are copied into allocations of the arrow crates, which are aligned
/// for offsets of either width.
///
/// `BooleanBuffer::new` panics on a window outside its buffer, and the
/// validation reads the offsets buffer as whole offsets and panics where bytes
/// are left over: `requires` leaves both out.
#[verifier::external_body]
fn build_array_data(
    data_type: DataType,
    len: usize,
    offsets: &[u8],
    values: &[u8],
    nulls: Option<(&[u8], usize, usize)>,
) -> (r: Result<ArrayData, ArrowError>)
    requires
        offsets@.len() % (data_type.offset_width() as nat) == 0,
        nulls matches Some((b, o, l)) ==> o + l <= b@.len() * 8 && o + l <= usize::MAX,
    ensures
        r matches Ok(d) ==> {
            &&& array_data_type(d) == Some(data_type)
            &&& array_data_len(d) == len
            &&& array_data_offset(d) == 0
            &&& array_data_buffers(d) == seq![offsets@, values@]
            &&& array_data_nulls(d) == match nulls {
                Some((b, o, l)) => if bits_of(b@, o as int, l as nat).contains(false) {
                    Some((b@, o as nat, l as nat))
                } else {
                    None
                },
                None => None,
            }
            &&& array_data_null_count(d) == match nulls {
                Some((b, o, l)) => count_zeros(bits_of(b@, o as int, l as nat)),
                None => 0,
            }
        },
        data_type.offset_width() * (len + 1) <= offsets@.len() && valid_offsets(
            data_type,
            decoded_offsets(data_type, len as nat, 0, offsets@),
            values@.len(),
        ) && (nulls matches Some((b, o, l)) ==> l == len) ==> r is Ok,
{
    let kind = match data_type {
        DataType::Binary => arrow_schema::DataType::Binary,
        DataType::LargeBinary => arrow_schema::DataType::LargeBinary,
    };
    let nulls = nulls.map(|(b, o, l)| NullBuffer::new(BooleanBuffer::new(Buffer::from(b), o, l)));
    let buffers = vec![Buffer::from(offsets), Buffer::from(values)];
    ArrayDataBuilder::new(kind).len(len).buffers(buffers).nulls(nulls).build()
}

/// The offsets that a raw offsets buffer holds for `len` rows from row
/// `offset` on: its entries `offset ..= offset + len`.
pub open spec fn decoded_offsets(data_type: DataType, len: nat, offset: nat, offsets: Seq<u8>) -> Seq<
    i64,
> {
    Seq::new(len + 1, |k: int| entry_value(offsets, data_type, offset + k) as i64)
}

/// What reading raw buffers gives: for each input, the array or the error.
///
/// Without rows the result is the empty array, whatever the buffers hold.
/// Otherwise the offsets buffer must reach to entry `offset + len`, the
/// entries from `offset` on must be valid offsets into `values`, and the
/// validity, where there is one, must have `len` bits; the first of these
/// that fails decides the error.
pub open spec fn read_result(
    data_type: DataType,
    len: nat,
    offset: nat,
    offsets: Seq<u8>,
    values: Seq<u8>,
    validity: Option<Seq<bool>>,
    r: Result<BinaryArray, ArrayError>,
) -> bool {
    if len == 0 {
        &&& r matches Ok(a)
        &&& a.spec_data_type() == data_type
        &&& a.spec_offsets() == seq![0i64]
        &&& a.spec_values() == Seq::<u8>::empty()
        &&& a.spec_validity() is None
    } else if data_type.offset_width() * (offset + len + 1) > offsets.len() {
        r == Err::<BinaryArray, ArrayError>(ArrayError::OffsetsTooShort)
    } else if !valid_offsets(
        data_type,
        decoded_offsets(data_type, len, offset, offsets),
        values.len(),
    ) {
        r == Err::<BinaryArray, ArrayError>(ArrayError::InvalidOffsets)
    } else if validity matches Some(v) && v.len() != len {
        r == Err::<BinaryArray, ArrayError>(ArrayError::ValidityMismatch)
    } else {
        &&& r matches Ok(a)
        &&& a.spec_data_type() == data_type
        &&& a.spec_offsets() == decoded_offsets(data_type, len, offset, offsets)
        &&& a.spec_values() == values
        &&& a.spec_validity() == validity
    }
}

/// Whether the window of a null buffer lies inside its bytes and ends at a
/// `usize`.
pub open spec fn nulls_fit(nulls: Option<(Seq<u8>, nat, nat)>) -> bool {
    nulls matches Some((b, o, l)) ==> o + l <= b.len() * 8 && o + l <= usize::MAX
}

/// The bits of a null buffer's window.
pub open spec fn nulls_bits(nulls: Option<(Seq<u8>, nat, nat)>) -> Option<Seq<bool>> {
    match nulls {
        Some((b, o, l)) => Some(bits_of(b, o as int, l)),
        None => None,
    }
}

/// Buffer `i` of a list of buffers, where there are that many.
pub open spec fn buffer_at(buffers: Seq<Seq<u8>>, i: int) -> Option<Seq<u8>> {
    if 0 <= i < buffers.len() {
        Some(buffers[i])
    } else {
        None
    }
}

/// What importing from the parts of an `ArrayData` gives: for each input, the
/// array or the error.
///
/// Without rows the result is the empty array. Otherwise the two buffers,
/// offsets and values, must be there, the window of the nulls must lie inside
/// their bytes, and the rest is as in reading raw buffers.
pub open spec fn import_result(
    data_type: DataType,
    len: nat,
    offset: nat,
    offsets: Option<Seq<u8>>,
    values: Option<Seq<u8>>,
    nulls: Option<(Seq<u8>, nat, nat)>,
    r: Result<BinaryArray, ArrayError>,
) -> bool {
    if len == 0 {
        read_result(data_type, 0, offset, Seq::<u8>::empty(), Seq::<u8>::empty(), None, r)
    } else if offsets is None || values is None {
        r == Err::<BinaryArray, ArrayError>(ArrayError::MissingBuffer)
    } else if !nulls_fit(nulls) {
        r == Err::<BinaryArray, ArrayError>(ArrayError::ValidityMismatch)
    } else {
        read_result(data_type, len, offset, offsets->0, values->0, nulls_bits(nulls), r)
    }
}

/// What an exported `ArrayData` holds of the array it was made from.
pub open spec fn exported(a: BinaryArray, d: ArrayData) -> bool {
    &&& array_data_type(d) == Some(a.spec_data_type())
    &&& array_data_len(d) == a.spec_offsets().len() - 1
    &&& array_data_offset(d) == 0
    &&& array_data_buffers(d) == seq![
        encode_offsets(a.spec_data_type(), a.spec_offsets()),
        a.spec_values(),
    ]
    &&& nulls_fit(array_data_nulls(d))
    &&& nulls_bits(array_data_nulls(d)) == match a.spec_validity() {
        Some(v) => if v.contains(false) {
            Some(v)
        } else {
            None
        },
        None => None,
    }
    &&& array_data_null_count(d) == match a.spec_validity() {
        Some(v) => count_zeros(v),
        None => 0,
    }
}

/// Read back from their raw buffer, offsets in the type's range are what they
/// were.
pub proof fn lemma_decode_encoded(data_type: DataType, offsets: Seq<i64>)
    requires
        offsets.len() >= 1,
        forall|k: int| 0 <= k < offsets.len() ==> 0 <= #[trigger] offsets[k] <= data_type.max_offset(),
    ensures
        encode_offsets(data_type, offsets).len() == data_type.offset_width() * offsets.len(),
        decoded_offsets(
            data_type,
            (offsets.len() - 1) as nat,
            0,
            encode_offsets(data_type, offsets),
        ) == offsets,
{
    let raw = encode_offsets(data_type, offsets);
    let decoded = decoded_offsets(data_type, (offsets.len() - 1) as nat, 0, raw);
    assert(data_type.offset_width() == 4 || data_type.offset_width() == 8);
    assert forall|k: int| 0 <= k < offsets.len() implies decoded[k] == offsets[k] by {
        lemma_encode_entry(data_type, offsets, k);
    }
    assert(decoded =~= offsets);
}

proof fn lemma_encode_push(data_type: DataType, offsets: Seq<i64>, v: i64)
    ensures
        encode_offsets(data_type, offsets.push(v)) == encode_offsets(data_type, offsets)
            + offset_bytes(data_type, v),
{
    let width = data_type.offset_width();
    assert(width == 4 || width == 8);
    let whole = encode_offsets(data_type, offsets.push(v));
    let parts = encode_offsets(data_type, offsets) + offset_bytes(data_type, v);
    assert(whole.len() == parts.len());
    assert forall|p: int| 0 <= p < whole.len() implies whole[p] == parts[p] by {
        if p >= width * offsets.len() {
            assert(p / width == offsets.len());
            assert(p % width == p - width * offsets.len());
        } else {
            assert(p / width < offsets.len());
        }
    }
    assert(whole =~= parts);
}

impl BinaryArray {
    /// The array of `len` rows that raw buffers hold from row `offset` on.
    ///
    /// Nothing is taken on trust: the offsets are read and checked against
    /// the values and the type, and the validity against the length.
    pub fn from_buffers(
        data_type: DataType,
        len: usize,
        offset: usize,
        offsets: &[u8],
        values: Vec<u8>,
        validity: Option<Bitmap>,
    ) -> (r: Result<Self, ArrayError>)
        ensures
            read_result(
                data_type,
                len as nat,
                offset as nat,
                offsets@,
                values@,
                match validity {
                    Some(v) => Some(v@),
                    None => None,
                },
                r,
            ),
    {
        if len == 0 {
            return Ok(Self::new_empty(data_type));
        }
        let total = offsets.len();
        let entries = match data_type {
            DataType::Binary => total / 4,
            DataType::LargeBinary => total / 8,
        };
        proof {
            let width = data_type.offset_width();
            assert(width * entries <= total < width * entries + width) by {
                match data_type {
                    DataType::Binary => {
                        assert(4 * (total as int / 4) <= total < 4 * (total as int / 4) + 4);
                    },
                    DataType::LargeBinary => {
                        assert(8 * (total as int / 8) <= total < 8 * (total as int / 8) + 8);
                    },
                }
            }
        }
        if offset >= entries || len >= entries - offset {
            proof {
                let width = data_type.offset_width();
                assert(width * (offset + len + 1) >= width * entries + width) by (nonlinear_arith)
                    requires
                        offset + len + 1 >= entries + 1,
                        width > 0,
                ;
            }
            return Err(ArrayError::OffsetsTooShort);
        }
        proof {
            let width = data_type.offset_width();
            assert(width * (offset + len + 1) <= width * entries) by (nonlinear_arith)
                requires
                    offset + len + 1 <= entries,
                    width > 0,
            ;
        }
        let mut decoded: Vec<i64> = Vec::with_capacity(len + 1);
        let mut k: usize = 0;
        while k <= len
            invariant
                k <= len + 1,
                offset + len < entries,
                data_type.offset_width() * entries <= offsets@.len(),
                decoded@ == decoded_offsets(data_type, len as nat, offset as nat, offsets@).subrange(
                    0,
                    k as int,
                ),
            decreases len + 1 - k,
        {
            proof {
                let width = data_type.offset_width();
                assert(width * (offset + k + 1) <= width * entries) by (nonlinear_arith)
                    requires
                        offset + k + 1 <= entries,
                        width > 0,
                ;
            }
            let v = read_entry(offsets, data_type, offset + k);
            decoded.push(v);
            proof {
                let all = decoded_offsets(data_type, len as nat, offset as nat, offsets@);
                assert(decoded@ =~= all.subrange(0, k + 1));
            }
            k = k + 1;
        }
        proof {
            let all = decoded_offsets(data_type, len as nat, offset as nat, offsets@);
            assert(decoded@ =~= all);
        }
        match Self::try_new(data_type, decoded, values, validity) {
            Ok(a) => Ok(a),
            Err(e) => Err(e),
        }
    }

    /// The raw offsets buffer of the array: each offset in four or eight
    /// bytes, by the type.
    pub fn offsets_buffer(&self) -> (r: Vec<u8>)
        ensures
            r@ == encode_offsets(self.spec_data_type(), self.spec_offsets()),
    {
        proof {
            use_type_invariant(self);
        }
        let data_type = self.data_type();
        let offsets = self.offsets();
        let n = offsets.len();
        let mut out: Vec<u8> = Vec::new();
        let mut k: usize = 0;
        proof {
            assert(out@ =~= encode_offsets(data_type, offsets@.subrange(0, 0)));
        }
        while k < n
            invariant
                k <= n,
                n == offsets@.len(),
                valid_offsets(data_type, offsets@, self.spec_values().len()),
                out@ == encode_offsets(data_type, offsets@.subrange(0, k as int)),
            decreases n - k,
        {
            let v = offsets[k];
            proof {
                assert(0 <= offsets@[0] <= offsets@[k as int]);
                assert(offsets@[k as int] <= offsets@.last());
                lemma_encode_push(data_type, offsets@.subrange(0, k as int), v);
                assert(offsets@.subrange(0, k as int).push(v) =~= offsets@.subrange(0, k + 1));
            }
            push_entry(&mut out, data_type, v);
            k = k + 1;
        }
        proof {
            assert(offsets@.subrange(0, n as int) =~= offsets@);
        }
        out
    }

    /// The array as an `ArrayData`: its type, its length, the offsets and the
    /// values as raw buffers, the validity as nulls, and the null count that
    /// the validity gives.
    ///
    /// The builder of `ArrayData` validates what it is given. What a binary
    /// array hands it is what the validation asks for, so the data comes
    /// back.
    pub fn to_data(&self) -> (r: ArrayData)
        ensures
            exported(*self, r),
    {
        proof {
            use_type_invariant(self);
        }
        let offsets = self.offsets_buffer();
        proof {
            assert forall|k: int| 0 <= k < self.offsets@.len() implies 0 <= #[trigger] self.offsets@[k]
                <= self.data_type.max_offset() by {
                assert(self.offsets@[0] <= self.offsets@[k] <= self.offsets@.last());
            }
            lemma_decode_encoded(self.data_type, self.offsets@);
            let width = self.data_type.offset_width();
            assert(width == 4 || width == 8);
        }
        let built = match self.validity() {
            Some(v) => {
                proof {
                    use_type_invariant(v);
                    v.lemma_wf();
                }
                build_array_data(
                    self.data_type(),
                    self.len(),
                    offsets.as_slice(),
                    self.values(),
                    Some((v.as_slice(), v.offset(), v.len())),
                )
            },
            None => build_array_data(
                self.data_type(),
                self.len(),
                offsets.as_slice(),
                self.values(),
                None,
            ),
        };
        built.unwrap()
    }

    /// The array of type `data_type` that the parts of an `ArrayData` stand
    /// for: its length and slice offset, its first two buffers where it has
    /// them, and its null buffer as bytes with the bit offset and the bit
    /// length of its window.
    ///
    /// Nothing is taken on trust: see [`BinaryArray::from_buffers`].
    pub fn from_parts(
        data_type: DataType,
        len: usize,
        offset: usize,
        offsets: Option<Vec<u8>>,
        values: Option<Vec<u8>>,
        nulls: Option<(Vec<u8>, usize, usize)>,
    ) -> (r: Result<Self, ArrayError>)
        ensures
            import_result(
                data_type,
                len as nat,
                offset as nat,
                match offsets {
                    Some(b) => Some(b@),
                    None => None,
                },
                match values {
                    Some(b) => Some(b@),
                    None => None,
                },
                match nulls {
                    Some((b, o, l)) => Some((b@, o as nat, l as nat)),
                    None => None,
                },
                r,
            ),
    {
        if len == 0 {
            return Ok(Self::new_empty(data_type));
        }
        let offsets = match offsets {
            Some(b) => b,
            None => {
                return Err(ArrayError::MissingBuffer);
            },
        };
        let values = match values {
            Some(b) => b,
            None => {
                return Err(ArrayError::MissingBuffer);
            },
        };
        let validity = match nulls {
            Some((bytes, start, bits)) => {
                match Bitmap::try_from_parts(MutableBuffer::from_vec(bytes), start, bits) {
                    Some(b) => Some(b),
                    None => {
                        return Err(ArrayError::ValidityMismatch);
                    },
                }
            },
            None => None,
        };
        Self::from_buffers(data_type, len, offset, offsets.as_slice(), values, validity)
    }

    /// The array of type `data_type` that an `ArrayData` of that type holds:
    /// its rows from the slice offset on.
    ///
    /// To hand over data of another type is a mistake of the caller, which
    /// `requires` rules out; [`BinaryArray::try_from_data`] looks at the type
    /// first. The parts are read from the `ArrayData` and handed to
    /// [`BinaryArray::from_parts`]; the buffers are not read where the length
    /// has decided the result.
    pub fn from_data(data: &ArrayData, data_type: DataType) -> (r: Result<Self, ArrayError>)
        requires
            array_data_type(*data) == Some(data_type),
        ensures
            import_result(
                data_type,
                array_data_len(*data),
                array_data_offset(*data),
                buffer_at(array_data_buffers(*data), 0),
                buffer_at(array_data_buffers(*data), 1),
                array_data_nulls(*data),
                r,
            ),
    {
        let len = data_len(data);
        if len == 0 {
            return Self::from_parts(data_type, len, 0, None, None, None);
        }
        Self::from_parts(
            data_type,
            len,
            data_offset(data),
            data_buffer(data, 0),
            data_buffer(data, 1),
            data_nulls(data),
        )
    }

    /// The array of type `data_type` that an `ArrayData` holds, or `None`
    /// where the data is of another type.
    pub fn try_from_data(data: &ArrayData, data_type: DataType) -> (r: Option<
        Result<Self, ArrayError>,
    >)
        ensures
            r is Some <==> array_data_type(*data) == Some(data_type),
            r matches Some(a) ==> import_result(
                data_type,
                array_data_len(*data),
                array_data_offset(*data),
                buffer_at(array_data_buffers(*data), 0),
                buffer_at(array_data_buffers(*data), 1),
                array_data_nulls(*data),
                a,
            ),
    {
        match data_type_of(data) {
            Some(found) => {
                if found == data_type {
                    Some(Self::from_data(data, data_type))
                } else {
                    None
                }
            },
            None => None,
        }
    }
}

/// The number of null rows that an `ArrayData` reports.
pub fn null_count(data: &ArrayData) -> (r: usize)
    ensures
        r == array_data_null_count(*data),
{
    data_null_count(data)
}

/// An array that is exported and then imported as its own type comes back
/// with its rows. (A validity bitmap without a zero bit does not come back:
/// it says of no row that it is missing.)
pub proof fn lemma_export_import(a: BinaryArray, d: ArrayData, r: Result<BinaryArray, ArrayError>)
    requires
        a.wf(),
        exported(a, d),
        import_result(
            a.spec_data_type(),
            array_data_len(d),
            array_data_offset(d),
            buffer_at(array_data_buffers(d), 0),
            buffer_at(array_data_buffers(d), 1),
            array_data_nulls(d),
            r,
        ),
    ensures
        array_data_type(d) == Some(a.spec_data_type()),
        r matches Ok(b) && b.spec_data_type() == a.spec_data_type() && b@ == a@,
{
    a.lemma_wf();
    let t = a.spec_data_type();
    let offsets = a.spec_offsets();
    let len = (offsets.len() - 1) as nat;
    if len == 0 {
        assert(r matches Ok(b) && b@ =~= a@);
    } else {
        assert forall|k: int| 0 <= k < offsets.len() implies 0 <= #[trigger] offsets[k]
            <= t.max_offset() by {
            assert(offsets[0] <= offsets[k] <= offsets.last());
        }
        lemma_decode_encoded(t, offsets);
        assert(array_data_buffers(d)[0] == encode_offsets(t, offsets));
        assert(array_data_buffers(d)[1] == a.spec_values());
        match r {
            Ok(b) => {
                assert(b.spec_offsets() == offsets);
                assert(b.spec_values() == a.spec_values());
                assert forall|i: int| 0 <= i < len implies b@[i] == a@[i] by {
                    if let Some(v) = a.spec_validity() {
                        if !v.contains(false) {
                            assert(v[i] != false);
                        }
                    }
                }
                assert(b@ =~= a@);
            },
            Err(_) => {},
        }
    }
}

} // verus!
