//! The bitmap type: an immutable window of bits over a shared byte buffer.

use crate::bits::{bit_at, bits_of, get_bit};
use crate::bitmap::chunks::BitChunks;
use crate::buffer::MutableBuffer;
use std::sync::Arc;
use vstd::prelude::*;

pub mod bitmap_ops;
pub mod chunks;
pub mod laws;

verus! {

/// Another handle on the same shared bytes.
///
/// Trusted: `Arc::clone` returns a pointer to the allocation that its argument
/// points to, so both hold the same value.
#[verifier::external_body]
fn share(bytes: &Arc<Vec<u8>>) -> (r: Arc<Vec<u8>>)
    ensures
        r == *bytes,
{
    Arc::clone(bytes)
}

/// A sequence of `len` bits that starts `offset` bits into a shared, immutable
/// byte buffer. Bit `i` of the bitmap is bit `offset + i` of the buffer, least
/// significant bit of each byte first.
///
/// The buffer may hold more bits than the window shows, before it and after
/// it. Those bits belong to nobody: no operation on the bitmap depends on
/// them, and none may be taken to be zero.
#[derive(Debug)]
pub struct Bitmap {
    bytes: Arc<Vec<u8>>,
    offset: usize,
    length: usize,
}

impl View for Bitmap {
    type V = Seq<bool>;

    /// The bits of the window, in order.
    open spec fn view(&self) -> Seq<bool> {
        bits_of(self.spec_bytes(), self.spec_offset() as int, self.spec_len())
    }
}

impl Clone for Bitmap {
    /// A second bitmap over the same buffer; no byte is copied.
    fn clone(&self) -> (r: Self)
        ensures
            r == *self,
    {
        proof {
            use_type_invariant(self);
        }
        Bitmap { bytes: share(&self.bytes), offset: self.offset, length: self.length }
    }
}

impl Bitmap {
    /// The window lies inside the buffer, and its end is a `usize`.
    #[verifier::type_invariant]
    pub closed spec fn wf(&self) -> bool {
        &&& self.offset + self.length <= self.bytes@.len() * 8
        &&& self.offset + self.length <= usize::MAX
    }

    /// The bytes of the underlying buffer, all of them.
    pub closed spec fn spec_bytes(&self) -> Seq<u8> {
        self.bytes@
    }

    /// The position in the buffer, in bits, of the first bit of the window.
    pub closed spec fn spec_offset(&self) -> nat {
        self.offset as nat
    }

    /// The number of bits in the window.
    pub closed spec fn spec_len(&self) -> nat {
        self.length as nat
    }

    /// What the invariant says, over the public model.
    pub proof fn lemma_wf(&self)
        requires
            self.wf(),
        ensures
            self.spec_offset() + self.spec_len() <= self.spec_bytes().len() * 8,
            self.spec_offset() + self.spec_len() <= usize::MAX,
            self@.len() == self.spec_len(),
    {
    }

    /// The empty bitmap.
    pub fn new() -> (r: Self)
        ensures
            r@ == Seq::<bool>::empty(),
            r.spec_offset() == 0,
            r.spec_bytes() == Seq::<u8>::empty(),
    {
        let r = Bitmap { bytes: Arc::new(Vec::new()), offset: 0, length: 0 };
        assert(r@ =~= Seq::<bool>::empty());
        r
    }

    /// The first `length` bits of `buffer`. The buffer is taken over as it is.
    pub fn from_buffer(buffer: MutableBuffer, length: usize) -> (r: Self)
        requires
            length <= buffer@.len() * 8,
        ensures
            r.spec_bytes() == buffer@,
            r.spec_offset() == 0,
            r.spec_len() == length,
            r@ == bits_of(buffer@, 0, length as nat),
    {
        Bitmap { bytes: Arc::new(buffer.into_vec()), offset: 0, length }
    }

    /// The first `length` bits of `buffer`, or `None` where the buffer holds
    /// fewer bits than that.
    pub fn try_new(buffer: MutableBuffer, length: usize) -> (r: Option<Self>)
        ensures
            r is Some <==> length <= buffer@.len() * 8,
            r matches Some(b) ==> {
                &&& b.spec_bytes() == buffer@
                &&& b.spec_offset() == 0
                &&& b.spec_len() == length
            },
    {
        let n = buffer.len();
        if length / 8 < n || (length / 8 == n && length % 8 == 0) {
            Some(Self::from_buffer(buffer, length))
        } else {
            None
        }
    }

    /// The `length` bits of `buffer` from bit `offset` on, or `None` where that
    /// window does not lie inside the buffer or ends past the largest `usize`.
    pub fn try_from_parts(buffer: MutableBuffer, offset: usize, length: usize) -> (r: Option<Self>)
        ensures
            r is Some <==> offset + length <= buffer@.len() * 8 && offset + length <= usize::MAX,
            r matches Some(b) ==> {
                &&& b.spec_bytes() == buffer@
                &&& b.spec_offset() == offset
                &&& b.spec_len() == length
            },
    {
        if length > usize::MAX - offset {
            return None;
        }
        match Self::try_new(buffer, offset + length) {
            Some(whole) => Some(whole.slice(offset, length)),
            None => None,
        }
    }

    /// The number of bits.
    pub fn len(&self) -> (r: usize)
        ensures
            r == self@.len(),
            r == self.spec_len(),
    {
        self.length
    }

    /// Whether the bitmap has no bit.
    pub fn is_empty(&self) -> (r: bool)
        ensures
            r == (self@.len() == 0),
    {
        self.length == 0
    }

    /// Where the window starts in the buffer, in bits.
    pub fn offset(&self) -> (r: usize)
        ensures
            r == self.spec_offset(),
    {
        self.offset
    }

    /// The whole underlying buffer, the bytes outside the window included.
    pub fn as_slice(&self) -> (r: &[u8])
        ensures
            r@ == self.spec_bytes(),
    {
        self.bytes.as_slice()
    }

    /// Bit `i` of the bitmap.
    pub fn get_bit(&self, i: usize) -> (r: bool)
        requires
            i < self@.len(),
        ensures
            r == self@[i as int],
            r == bit_at(self.spec_bytes(), self.spec_offset() + i),
    {
        proof {
            use_type_invariant(self);
        }
        get_bit(self.bytes.as_slice(), self.offset + i)
    }

    /// The `len` bits from bit `start` on, as a bitmap over the same buffer: no
    /// byte is copied, only the window moves.
    pub fn slice(&self, start: usize, len: usize) -> (r: Self)
        requires
            start + len <= self@.len(),
        ensures
            r@ == self@.subrange(start as int, start + len),
            r.spec_bytes() == self.spec_bytes(),
            r.spec_offset() == self.spec_offset() + start,
            r.spec_len() == len,
    {
        proof {
            use_type_invariant(self);
        }
        let r = Bitmap { bytes: share(&self.bytes), offset: self.offset + start, length: len };
        assert(r@ =~= self@.subrange(start as int, start + len));
        r
    }

    /// The decomposition of the bitmap into 64-bit chunks.
    pub fn chunks(&self) -> (r: BitChunks<'_>)
        ensures
            r.bits() == self@,
            r.position() == 0,
    {
        proof {
            use_type_invariant(self);
        }
        BitChunks::new(self.bytes.as_slice(), self.offset, self.length)
    }
}

} // verus!
