//! Contracts for the byte containers of the `bytes` crate.

use bytes::{Buf, Bytes, BytesMut};
use vstd::prelude::*;

verus! {

/// `bytes::Bytes`, taken as it is: what a handle refers to is told by
/// `bytes_view` alone.
#[verifier::external_type_specification]
#[verifier::external_body]
pub struct ExBytes(bytes::Bytes);

/// The bytes that a `Bytes` handle refers to.
pub uninterp spec fn bytes_view(b: Bytes) -> Seq<u8>;

/// `Bytes::copy_from_slice`: a fresh handle holding a copy of `data`.
#[verifier::external_body]
pub(crate) fn bytes_copy_from_slice(data: &[u8]) -> (b: Bytes)
    ensures
        bytes_view(b) == data@,
{
    Bytes::copy_from_slice(data)
}

/// `Bytes::as_ref`: the bytes of the handle as a slice.
#[verifier::external_body]
pub(crate) fn bytes_as_slice(b: &Bytes) -> (s: &[u8])
    ensures
        s@ == bytes_view(*b),
{
    b.as_ref()
}

/// `Bytes::clone`: a second handle to the same bytes.
#[verifier::external_body]
pub(crate) fn bytes_clone(b: &Bytes) -> (c: Bytes)
    ensures
        bytes_view(c) == bytes_view(*b),
{
    b.clone()
}

/// `bytes::BytesMut`, taken as it is: what a buffer holds is told by
/// `bytes_mut_view` alone.
#[verifier::external_type_specification]
#[verifier::external_body]
pub struct ExBytesMut(bytes::BytesMut);

/// The bytes that a `BytesMut` buffer holds, oldest first.
pub uninterp spec fn bytes_mut_view(b: BytesMut) -> Seq<u8>;

/// `BytesMut::with_capacity`: an empty buffer.
#[verifier::external_body]
pub(crate) fn bytes_mut_with_capacity(capacity: usize) -> (b: BytesMut)
    ensures
        bytes_mut_view(b) == Seq::<u8>::empty(),
{
    BytesMut::with_capacity(capacity)
}

/// `BytesMut::extend_from_slice`: `data` is appended to the buffer.
#[verifier::external_body]
pub(crate) fn bytes_mut_extend(b: &mut BytesMut, data: &[u8])
    ensures
        bytes_mut_view(*final(b)) == bytes_mut_view(*old(b)) + data@,
{
    b.extend_from_slice(data)
}

/// `BytesMut::as_ref`: the bytes of the buffer as a slice.
#[verifier::external_body]
pub(crate) fn bytes_mut_as_slice(b: &BytesMut) -> (s: &[u8])
    ensures
        s@ == bytes_mut_view(*b),
{
    b.as_ref()
}

/// `BytesMut::is_empty`: whether the buffer holds no byte.
#[verifier::external_body]
pub(crate) fn bytes_mut_is_empty(b: &BytesMut) -> (r: bool)
    ensures
        r == (bytes_mut_view(*b).len() == 0),
{
    b.is_empty()
}

/// `Buf::advance` on `BytesMut`: the first `cnt` bytes leave the buffer.
/// It panics where the buffer holds fewer.
#[verifier::external_body]
pub(crate) fn bytes_mut_advance(b: &mut BytesMut, cnt: usize)
    requires
        cnt <= bytes_mut_view(*old(b)).len(),
    ensures
        bytes_mut_view(*final(b)) == bytes_mut_view(*old(b)).skip(cnt as int),
{
    b.advance(cnt)
}

} // verus!
