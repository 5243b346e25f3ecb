//! A growable byte buffer that kernels fill and then hand over to a bitmap.

use crate::bits::{word_bytes, word_to_bytes};
use vstd::prelude::*;

verus! {

/// An append-only byte container.
pub struct MutableBuffer {
    data: Vec<u8>,
}

impl View for MutableBuffer {
    type V = Seq<u8>;

    closed spec fn view(&self) -> Seq<u8> {
        self.data@
    }
}

impl MutableBuffer {
    /// An empty buffer.
    pub fn new() -> (r: Self)
        ensures
            r@ == Seq::<u8>::empty(),
    {
        MutableBuffer { data: Vec::new() }
    }

    /// An empty buffer with room for `capacity` bytes, so that filling it up to
    /// that size allocates only here.
    pub fn with_capacity(capacity: usize) -> (r: Self)
        ensures
            r@ == Seq::<u8>::empty(),
    {
        MutableBuffer { data: Vec::with_capacity(capacity) }
    }

    /// A buffer that holds a copy of `bytes`.
    pub fn from_slice(bytes: &[u8]) -> (r: Self)
        ensures
            r@ == bytes@,
    {
        let mut data: Vec<u8> = Vec::with_capacity(bytes.len());
        data.extend_from_slice(bytes);
        MutableBuffer { data }
    }

    /// A buffer that takes over the bytes of `bytes`.
    pub fn from_vec(bytes: Vec<u8>) -> (r: Self)
        ensures
            r@ == bytes@,
    {
        MutableBuffer { data: bytes }
    }

    /// The number of bytes held.
    pub fn len(&self) -> (r: usize)
        ensures
            r == self@.len(),
    {
        self.data.len()
    }

    /// Whether the buffer holds no byte.
    pub fn is_empty(&self) -> (r: bool)
        ensures
            r == (self@.len() == 0),
    {
        self.data.len() == 0
    }

    /// The bytes held.
    pub fn as_slice(&self) -> (r: &[u8])
        ensures
            r@ == self@,
    {
        self.data.as_slice()
    }

    /// Appends one byte.
    pub fn push(&mut self, byte: u8)
        ensures
            final(self)@ == old(self)@.push(byte),
    {
        self.data.push(byte);
    }

    /// Appends the bytes of `bytes`.
    pub fn extend_from_slice(&mut self, bytes: &[u8])
        ensures
            final(self)@ == old(self)@ + bytes@,
    {
        self.data.extend_from_slice(bytes);
    }

    /// Appends the eight bytes of `word`, least significant first.
    pub fn push_word(&mut self, word: u64)
        ensures
            final(self)@ == old(self)@ + word_bytes(word),
    {
        let bytes = word_to_bytes(word);
        self.data.extend_from_slice(bytes.as_slice());
    }

    /// Gives up the buffer for its bytes.
    pub fn into_vec(self) -> (r: Vec<u8>)
        ensures
            r@ == self@,
    {
        self.data
    }
}

} // verus!
