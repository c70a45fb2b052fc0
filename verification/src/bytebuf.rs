//! The byte buffers of the `bytes` crate, as the verified code sees them.
//!
//! `Bytes` and `BytesMut` are opaque to the verifier. What a buffer holds is
//! named by [`frozen`] and [`pending`]; every function below makes one call
//! into `bytes` and states, without proof, what that call does to the
//! contents.

use bytes::{BufMut, Bytes, BytesMut};
use vstd::prelude::*;

verus! {

/// `bytes::Bytes`, an immutable, cheaply cloned handle to a run of bytes.
#[verifier::external_type_specification]
#[verifier::external_body]
pub struct ExBytes(bytes::Bytes);

/// `bytes::BytesMut`, a growable buffer of bytes.
#[verifier::external_type_specification]
#[verifier::external_body]
pub struct ExBytesMut(bytes::BytesMut);

/// The bytes that an immutable `Bytes` handle gives access to, in order.
pub uninterp spec fn frozen(b: Bytes) -> Seq<u8>;

/// The bytes written so far to a `BytesMut`, in order.
pub uninterp spec fn pending(b: BytesMut) -> Seq<u8>;

/// The four bytes of `n`, most significant first.
pub open spec fn be32(n: u32) -> Seq<u8> {
    seq![
        (n as int / 0x100_0000) as u8,
        (n as int / 0x1_0000 % 0x100) as u8,
        (n as int / 0x100 % 0x100) as u8,
        (n as int % 0x100) as u8,
    ]
}

/// `BytesMut::with_capacity`: a buffer that holds no bytes yet. The capacity
/// is a hint to the allocator and is not part of what the buffer holds; one
/// beyond the largest allocation is left out, on which the call panics.
#[verifier::external_body]
pub(crate) fn buf_with_capacity(capacity: usize) -> (buf: BytesMut)
    requires
        capacity <= isize::MAX,
    ensures
        pending(buf) == Seq::<u8>::empty(),
{
    BytesMut::with_capacity(capacity)
}

/// `BufMut::put_u8` on a `BytesMut`: appends the one byte.
#[verifier::external_body]
pub(crate) fn buf_put_u8(buf: &mut BytesMut, n: u8)
    ensures
        pending(*final(buf)) == pending(*old(buf)).push(n),
{
    buf.put_u8(n)
}

/// `BufMut::put_slice` on a `BytesMut`: appends the bytes of `src` in order.
#[verifier::external_body]
pub(crate) fn buf_put_slice(buf: &mut BytesMut, src: &[u8])
    ensures
        pending(*final(buf)) == pending(*old(buf)) + src@,
{
    buf.put_slice(src)
}

/// `BufMut::put_u32` on a `BytesMut`: appends `n` as four big-endian bytes.
#[verifier::external_body]
pub(crate) fn buf_put_u32(buf: &mut BytesMut, n: u32)
    ensures
        pending(*final(buf)) == pending(*old(buf)) + be32(n),
{
    buf.put_u32(n)
}

/// `BytesMut::clear`: the buffer holds nothing afterwards.
#[verifier::external_body]
pub(crate) fn buf_clear(buf: &mut BytesMut)
    ensures
        pending(*final(buf)) == Seq::<u8>::empty(),
{
    buf.clear()
}

/// `BytesMut::split`: hands out everything written so far as a buffer of its
/// own and leaves this one empty.
#[verifier::external_body]
pub(crate) fn buf_split(buf: &mut BytesMut) -> (taken: BytesMut)
    ensures
        pending(taken) == pending(*old(buf)),
        pending(*final(buf)) == Seq::<u8>::empty(),
{
    buf.split()
}

/// `BytesMut::freeze`: the immutable handle holds exactly the bytes written.
#[verifier::external_body]
pub(crate) fn buf_freeze(buf: BytesMut) -> (b: Bytes)
    ensures
        frozen(b) == pending(buf),
{
    buf.freeze()
}

/// `Bytes::len`: the number of bytes held.
#[verifier::external_body]
pub(crate) fn bytes_len(b: &Bytes) -> (n: usize)
    ensures
        n == frozen(*b).len(),
{
    b.len()
}

/// `Deref` of `Bytes` to a slice: the slice is the contents.
#[verifier::external_body]
pub(crate) fn bytes_as_slice(b: &Bytes) -> (s: &[u8])
    ensures
        s@ == frozen(*b),
{
    b
}

/// `Clone` of `Bytes`: a second handle to the same contents.
#[verifier::external_body]
pub(crate) fn bytes_clone(b: &Bytes) -> (c: Bytes)
    ensures
        frozen(c) == frozen(*b),
{
    b.clone()
}

} // verus!
