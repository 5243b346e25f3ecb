//! Variable-length binary arrays: a values buffer, the offsets that cut it into
//! rows, and an optional validity bitmap.

use crate::bitmap::Bitmap;
use crate::datatypes::DataType;
use vstd::prelude::*;

pub mod data;

verus! {

/// Why a binary array could not be made from the parts offered.
#[derive(Clone, Copy, Debug, PartialEq, Eq, Structural)]
pub enum ArrayError {
    /// The offsets or the values buffer is missing.
    MissingBuffer,
    /// The offsets buffer ends before the last offset that the array needs.
    OffsetsTooShort,
    /// The offsets do not start at or above zero, decrease somewhere, run past
    /// the end of the values, or do not fit the type's offset width.
    InvalidOffsets,
    /// The validity bitmap has another length than the array, or its window
    /// does not lie inside its buffer.
    ValidityMismatch,
}

/// Offsets that cut `values_len` bytes into rows for an array of type
/// `data_type`: at least one offset, none below zero, never decreasing, the
/// last one inside the values and inside the type's offset range.
pub open spec fn valid_offsets(data_type: DataType, offsets: Seq<i64>, values_len: nat) -> bool {
    &&& offsets.len() >= 1
    &&& 0 <= offsets[0]
    &&& forall|i: int, j: int| 0 <= i <= j < offsets.len() ==> offsets[i] <= offsets[j]
    &&& offsets.last() <= values_len
    &&& offsets.last() <= data_type.max_offset()
}

/// The rows that offsets, values and validity stand for: row `i` is null
/// where the validity has a zero bit at `i`, and otherwise the bytes of
/// `values` from offset `i` up to offset `i + 1`.
pub open spec fn rows(offsets: Seq<i64>, values: Seq<u8>, validity: Option<Seq<bool>>) -> Seq<
    Option<Seq<u8>>,
> {
    Seq::new(
        (offsets.len() - 1) as nat,
        |i: int|
            if validity matches Some(v) && !v[i] {
                None
            } else {
                Some(values.subrange(offsets[i] as int, offsets[i + 1] as int))
            },
    )
}

/// Whether `offsets` are valid offsets into `values_len` bytes for
/// `data_type`.
pub fn check_offsets(data_type: DataType, offsets: &[i64], values_len: usize) -> (r: bool)
    ensures
        r == valid_offsets(data_type, offsets@, values_len as nat),
{
    let n = offsets.len();
    if n == 0 {
        return false;
    }
    if offsets[0] < 0 {
        return false;
    }
    let mut i: usize = 1;
    while i < n
        invariant
            1 <= i <= n,
            n == offsets@.len(),
            forall|p: int, q: int| 0 <= p <= q < i ==> offsets@[p] <= offsets@[q],
        decreases n - i,
    {
        if offsets[i] < offsets[i - 1] {
            return false;
        }
        i = i + 1;
    }
    let last = offsets[n - 1];
    if last as u64 > values_len as u64 {
        return false;
    }
    match data_type {
        DataType::Binary => last <= 0x7fff_ffff,
        DataType::LargeBinary => true,
    }
}

/// An array of byte strings, some of which may be null.
///
/// Row `i` is the stretch of `values` between offsets `i` and `i + 1`; the
/// validity bitmap, where there is one, says for each row whether it is
/// there.
#[derive(Debug)]
pub struct BinaryArray {
    data_type: DataType,
    offsets: Vec<i64>,
    values: Vec<u8>,
    validity: Option<Bitmap>,
}

impl View for BinaryArray {
    type V = Seq<Option<Seq<u8>>>;

    /// The rows of the array.
    open spec fn view(&self) -> Seq<Option<Seq<u8>>> {
        rows(self.spec_offsets(), self.spec_values(), self.spec_validity())
    }
}

impl BinaryArray {
    /// The offsets are valid for the values and the type, and the validity has
    /// one bit for each row.
    #[verifier::type_invariant]
    pub closed spec fn wf(&self) -> bool {
        &&& valid_offsets(self.data_type, self.offsets@, self.values@.len())
        &&& self.validity matches Some(v) ==> v@.len() == self.offsets@.len() - 1
    }

    /// The type of the array.
    pub closed spec fn spec_data_type(&self) -> DataType {
        self.data_type
    }

    /// The offsets: one more than there are rows.
    pub closed spec fn spec_offsets(&self) -> Seq<i64> {
        self.offsets@
    }

    /// The bytes of all rows, one after the other.
    pub closed spec fn spec_values(&self) -> Seq<u8> {
        self.values@
    }

    /// The bits of the validity bitmap, where the array has one.
    pub closed spec fn spec_validity(&self) -> Option<Seq<bool>> {
        match self.validity {
            Some(v) => Some(v@),
            None => None,
        }
    }

    /// What the invariant says, over the public model.
    pub proof fn lemma_wf(&self)
        requires
            self.wf(),
        ensures
            valid_offsets(self.spec_data_type(), self.spec_offsets(), self.spec_values().len()),
            self.spec_validity() matches Some(v) ==> v.len() == self.spec_offsets().len() - 1,
            self@.len() == self.spec_offsets().len() - 1,
    {
    }

    /// The array without rows: one offset, zero, and no values.
    pub fn new_empty(data_type: DataType) -> (r: Self)
        ensures
            r.spec_data_type() == data_type,
            r.spec_offsets() == seq![0i64],
            r.spec_values() == Seq::<u8>::empty(),
            r.spec_validity() is None,
            r@ == Seq::<Option<Seq<u8>>>::empty(),
    {
        let mut offsets: Vec<i64> = Vec::new();
        offsets.push(0);
        let r = BinaryArray { data_type, offsets, values: Vec::new(), validity: None };
        assert(r.spec_offsets() =~= seq![0i64]);
        assert(r@ =~= Seq::<Option<Seq<u8>>>::empty());
        r
    }

    /// The array with these offsets, values and validity, where they fit
    /// together.
    pub fn try_new(
        data_type: DataType,
        offsets: Vec<i64>,
        values: Vec<u8>,
        validity: Option<Bitmap>,
    ) -> (r: Result<Self, ArrayError>)
        ensures
            !valid_offsets(data_type, offsets@, values@.len()) ==> r == Err::<Self, ArrayError>(
                ArrayError::InvalidOffsets,
            ),
            valid_offsets(data_type, offsets@, values@.len()) && (validity matches Some(v)
                && v@.len() != offsets@.len() - 1) ==> r == Err::<Self, ArrayError>(
                ArrayError::ValidityMismatch,
            ),
            valid_offsets(data_type, offsets@, values@.len()) && (validity matches Some(v)
                ==> v@.len() == offsets@.len() - 1) ==> r is Ok,
            r matches Ok(a) ==> {
                &&& a.spec_data_type() == data_type
                &&& a.spec_offsets() == offsets@
                &&& a.spec_values() == values@
                &&& a.spec_validity() == match validity {
                    Some(v) => Some(v@),
                    None => None,
                }
            },
    {
        if !check_offsets(data_type, offsets.as_slice(), values.len()) {
            return Err(ArrayError::InvalidOffsets);
        }
        match &validity {
            Some(v) => {
                if v.len() != offsets.len() - 1 {
                    return Err(ArrayError::ValidityMismatch);
                }
            },
            None => {},
        }
        Ok(BinaryArray { data_type, offsets, values, validity })
    }

    /// The type of the array.
    pub fn data_type(&self) -> (r: DataType)
        ensures
            r == self.spec_data_type(),
    {
        self.data_type
    }

    /// The number of rows.
    pub fn len(&self) -> (r: usize)
        ensures
            r == self@.len(),
            r == self.spec_offsets().len() - 1,
    {
        proof {
            use_type_invariant(self);
        }
        self.offsets.len() - 1
    }

    /// Whether the array has no row.
    pub fn is_empty(&self) -> (r: bool)
        ensures
            r == (self@.len() == 0),
    {
        proof {
            use_type_invariant(self);
        }
        self.offsets.len() == 1
    }

    /// The offsets.
    pub fn offsets(&self) -> (r: &[i64])
        ensures
            r@ == self.spec_offsets(),
    {
        self.offsets.as_slice()
    }

    /// The values of all rows, one after the other.
    pub fn values(&self) -> (r: &[u8])
        ensures
            r@ == self.spec_values(),
    {
        self.values.as_slice()
    }

    /// The validity bitmap, where the array has one.
    pub fn validity(&self) -> (r: Option<&Bitmap>)
        ensures
            self.spec_validity() == match r {
                Some(v) => Some(v@),
                None => None,
            },
    {
        self.validity.as_ref()
    }

    /// Whether row `i` is there.
    pub fn is_valid(&self, i: usize) -> (r: bool)
        requires
            i < self@.len(),
        ensures
            r == self@[i as int].is_some(),
    {
        proof {
            use_type_invariant(self);
        }
        match &self.validity {
            Some(v) => v.get_bit(i),
            None => true,
        }
    }

    /// The bytes between offsets `i` and `i + 1`: the value of row `i` where
    /// the row is there.
    pub fn value(&self, i: usize) -> (r: &[u8])
        requires
            i < self@.len(),
        ensures
            r@ == self.spec_values().subrange(
                self.spec_offsets()[i as int] as int,
                self.spec_offsets()[i + 1] as int,
            ),
            self@[i as int] matches Some(v) ==> r@ == v,
    {
        proof {
            use_type_invariant(self);
            assert(self.offsets@.len() == self.offsets.len());
            assert(self.values@.len() == self.values.len());
            assert(0 <= self.offsets@[0] <= self.offsets@[i as int]);
            assert(self.offsets@[i as int] <= self.offsets@[i + 1]);
            assert(self.offsets@[i + 1] <= self.offsets@.last() <= self.values@.len());
        }
        let start = self.offsets[i] as usize;
        let end = self.offsets[i + 1] as usize;
        vstd::slice::slice_subrange(self.values.as_slice(), start, end)
    }
}

} // verus!
