//! Reference-counted byte buffers.
//!
//! [`bytes::Bytes`] stays opaque and is described by the bytes it holds.

use bytes::Bytes;
use vstd::prelude::*;

verus! {

/// [`bytes::Bytes`], opaque.
#[verifier::external_type_specification]
#[verifier::external_body]
pub struct ExBytes(bytes::Bytes);

/// The bytes that a buffer holds.
pub uninterp spec fn buffer_bytes(b: Bytes) -> Seq<u8>;

/// `bytes::Bytes::len` gives the number of bytes.
pub assume_specification[ Bytes::len ](b: &Bytes) -> (r: usize)
    ensures
        r == buffer_bytes(*b).len(),
;

/// Cloning a `bytes::Bytes` keeps its bytes.
pub assume_specification[ <Bytes as Clone>::clone ](b: &Bytes) -> (r: Bytes)
    ensures
        buffer_bytes(r) == buffer_bytes(*b),
;

/// Turns a vector into a buffer of the same bytes, by the `From<Vec<u8>>` of
/// `bytes::Bytes`.
#[verifier::external_body]
pub(crate) fn buffer_from_vec(v: Vec<u8>) -> (r: Bytes)
    ensures
        buffer_bytes(r) == v@,
{
    Bytes::from(v)
}

/// Turns constant bytes into a buffer with `bytes::Bytes::from_static`.
#[verifier::external_body]
pub(crate) fn buffer_from_static(bytes: &'static [u8]) -> (r: Bytes)
    ensures
        buffer_bytes(r) == bytes@,
{
    Bytes::from_static(bytes)
}

/// Takes a part of a buffer with `bytes::Bytes::slice`, which panics unless the
/// part lies within the buffer.
#[verifier::external_body]
pub(crate) fn buffer_slice(b: &Bytes, start: usize, end: usize) -> (r: Bytes)
    requires
        start <= end <= buffer_bytes(*b).len(),
    ensures
        buffer_bytes(r) == buffer_bytes(*b).subrange(start as int, end as int),
{
    b.slice(start..end)
}

/// Borrows the bytes of a buffer with `bytes::Bytes::deref`.
#[verifier::external_body]
pub(crate) fn buffer_slice_ref(b: &Bytes) -> (r: &[u8])
    ensures
        r@ == buffer_bytes(*b),
{
    std::ops::Deref::deref(b)
}

} // verus!
