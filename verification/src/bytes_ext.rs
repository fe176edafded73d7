//! The rolling decode buffer: every byte received so far that no parser has
//! consumed yet.

use bytes::Bytes;
use vstd::prelude::*;

verus! {

/// `bytes::Bytes`, taken as it is: a shared, immutable run of bytes of which
/// only what [`bytes_view`] names is known here.
#[verifier::external_type_specification]
#[verifier::external_body]
pub struct ExBytes(bytes::Bytes);

/// The bytes that a `Bytes` value holds, in order.
pub uninterp spec fn bytes_view(b: Bytes) -> Seq<u8>;

/// `Bytes::new`: a buffer that holds nothing.
#[verifier::external_body]
pub(crate) fn bytes_new() -> (b: Bytes)
    ensures
        bytes_view(b) == Seq::<u8>::empty(),
{
    Bytes::new()
}

/// `Bytes::len`: the number of bytes held.
#[verifier::external_body]
pub(crate) fn bytes_len(b: &Bytes) -> (n: usize)
    ensures
        n == bytes_view(*b).len(),
{
    b.len()
}

/// `Bytes::as_ref`: the held bytes as a slice, unchanged and in order.
#[verifier::external_body]
pub(crate) fn bytes_as_slice(b: &Bytes) -> (s: &[u8])
    ensures
        s@ == bytes_view(*b),
{
    b.as_ref()
}

/// `Bytes::from(Vec<u8>)`: a buffer that holds exactly the vector's bytes.
#[verifier::external_body]
pub(crate) fn bytes_from_vec(v: Vec<u8>) -> (b: Bytes)
    ensures
        bytes_view(b) == v@,
{
    Bytes::from(v)
}

/// An append-only byte buffer with a cursor. Its view is the unconsumed
/// suffix; consumed bytes are never seen again.
pub struct BytesExt {
    bytes: Bytes,
    cursor: usize,
}

impl View for BytesExt {
    type V = Seq<u8>;

    closed spec fn view(&self) -> Seq<u8> {
        bytes_view(self.bytes).skip(self.cursor as int)
    }
}

impl BytesExt {
    #[verifier::type_invariant]
    spec fn inv(self) -> bool {
        self.cursor <= bytes_view(self.bytes).len()
    }

    /// An empty buffer.
    pub fn new() -> (buffer: Self)
        ensures
            buffer@ == Seq::<u8>::empty(),
    {
        BytesExt { bytes: bytes_new(), cursor: 0 }
    }

    /// The unconsumed bytes.
    pub fn slice(&self) -> (s: &[u8])
        ensures
            s@ == self@,
    {
        proof {
            use_type_invariant(self);
        }
        let all = bytes_as_slice(&self.bytes);
        vstd::slice::slice_subrange(all, self.cursor, all.len())
    }

    /// How many bytes are unconsumed.
    pub fn remaining(&self) -> (n: usize)
        ensures
            n == self@.len(),
    {
        proof {
            use_type_invariant(self);
        }
        bytes_len(&self.bytes) - self.cursor
    }

    /// Keeps only the last `n` unconsumed bytes; the ones before them are
    /// consumed.
    pub fn set_remaining(&mut self, n: usize)
        requires
            n <= old(self)@.len(),
        ensures
            final(self)@ == old(self)@.skip(old(self)@.len() - n),
    {
        proof {
            use_type_invariant(&*self);
        }
        self.cursor = bytes_len(&self.bytes) - n;
    }

    /// Consumes the first `n` unconsumed bytes.
    pub fn advance(&mut self, n: usize)
        requires
            n <= old(self)@.len(),
        ensures
            final(self)@ == old(self)@.skip(n as int),
    {
        proof {
            use_type_invariant(&*self);
        }
        self.cursor = bytes_len(&self.bytes) - (self.remaining() - n);
    }

    /// Appends a chunk behind the unconsumed bytes. Nothing unconsumed is
    /// lost or reordered; consumed bytes are dropped for good.
    pub fn extend(&mut self, chunk: Bytes)
        ensures
            final(self)@ == old(self)@ + bytes_view(chunk),
    {
        if self.remaining() == 0 {
            *self = BytesExt { bytes: chunk, cursor: 0 };
        } else {
            let mut merged: Vec<u8> = Vec::new();
            merged.extend_from_slice(self.slice());
            merged.extend_from_slice(bytes_as_slice(&chunk));
            *self = BytesExt { bytes: bytes_from_vec(merged), cursor: 0 };
        }
    }
}

} // verus!
