//! Validity bitmaps for columnar data.
//!
//! A [`bitmap::Bitmap`] is a shared, immutable sequence of bits with zero-copy
//! slicing. [`bitmap::chunks`] reads it as 64-bit words whatever bit it starts
//! at, and [`bitmap::bitmap_ops`] builds on that the kernels that apply a word
//! operator to one to four bitmaps, with AND, OR, NOT and equality.
//! [`bitmap::laws`] states what holds of them for all inputs.
//!
//! [`array::binary`] pairs a bitmap with offsets and values into an array of
//! byte strings, and [`array::binary::data`] takes such an array to and from
//! the interchange format of the arrow crates.

pub mod array;
pub mod bitmap;
pub mod bits;
pub mod buffer;
pub mod datatypes;
pub mod offset;
