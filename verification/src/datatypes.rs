//! The logical types of the arrays in this crate.

use vstd::prelude::*;

verus! {

/// The type of a variable-length binary array: what width its offsets have.
#[derive(Clone, Copy, Debug, PartialEq, Eq, Structural)]
pub enum DataType {
    /// Byte strings with 32-bit offsets.
    Binary,
    /// Byte strings with 64-bit offsets.
    LargeBinary,
}

impl DataType {
    /// The largest offset that the type's offsets can hold.
    pub open spec fn max_offset(self) -> int {
        match self {
            DataType::Binary => i32::MAX as int,
            DataType::LargeBinary => i64::MAX as int,
        }
    }

    /// The number of bytes that one offset takes in a raw offsets buffer.
    pub open spec fn offset_width(self) -> int {
        match self {
            DataType::Binary => 4,
            DataType::LargeBinary => 8,
        }
    }

    /// The number of bytes that one offset takes in a raw offsets buffer.
    pub fn width(self) -> (r: usize)
        ensures
            r == self.offset_width(),
    {
        match self {
            DataType::Binary => 4,
            DataType::LargeBinary => 8,
        }
    }

    /// Whether the offsets are 64 bits wide.
    pub fn is_large(self) -> (r: bool)
        ensures
            r == (self == DataType::LargeBinary),
    {
        match self {
            DataType::Binary => false,
            DataType::LargeBinary => true,
        }
    }
}

} // verus!
