//! The byte buffers of the `bytes` crate, as the wire code sees them.

use bytes::{Buf, BufMut, Bytes, BytesMut};
use vstd::bytes::{spec_u16_to_le_bytes, spec_u32_to_le_bytes, spec_u64_to_le_bytes};
use vstd::prelude::*;

verus! {

#[verifier::external_type_specification]
#[verifier::external_body]
pub struct ExBytes(Bytes);

#[verifier::external_type_specification]
#[verifier::external_body]
pub struct ExBytesMut(BytesMut);

/// The bytes that a `Bytes` value holds, in order.
pub uninterp spec fn bytes_contents(b: Bytes) -> Seq<u8>;

/// The bytes that a `BytesMut` value holds, in order.
pub uninterp spec fn bytes_mut_contents(b: BytesMut) -> Seq<u8>;

/// `Bytes::len`: the number of bytes held.
#[verifier::external_body]
pub fn bytes_len(b: &Bytes) -> (r: usize)
    ensures
        r == bytes_contents(*b).len(),
{
    b.len()
}

/// `Buf::get_u8` on `Bytes`: returns the first byte and drops it from the buffer.
#[verifier::external_body]
pub(crate) fn bytes_get_u8(b: &mut Bytes) -> (r: u8)
    requires
        bytes_contents(*old(b)).len() >= 1,
    ensures
        r == bytes_contents(*old(b))[0],
        bytes_contents(*final(b)) == bytes_contents(*old(b)).skip(1),
{
    b.get_u8()
}

/// `Buf::get_u16_le` on `Bytes`: the first two bytes, read little-endian, are
/// returned and dropped from the buffer.
#[verifier::external_body]
pub(crate) fn bytes_get_u16_le(b: &mut Bytes) -> (r: u16)
    requires
        bytes_contents(*old(b)).len() >= 2,
    ensures
        spec_u16_to_le_bytes(r) == bytes_contents(*old(b)).take(2),
        bytes_contents(*final(b)) == bytes_contents(*old(b)).skip(2),
{
    b.get_u16_le()
}

/// `Buf::get_u32_le` on `Bytes`: the first four bytes, read little-endian,
/// are returned and dropped from the buffer.
#[verifier::external_body]
pub(crate) fn bytes_get_u32_le(b: &mut Bytes) -> (r: u32)
    requires
        bytes_contents(*old(b)).len() >= 4,
    ensures
        spec_u32_to_le_bytes(r) == bytes_contents(*old(b)).take(4),
        bytes_contents(*final(b)) == bytes_contents(*old(b)).skip(4),
{
    b.get_u32_le()
}

/// `Buf::get_u64_le` on `Bytes`: the first eight bytes, read little-endian,
/// are returned and dropped from the buffer.
#[verifier::external_body]
pub(crate) fn bytes_get_u64_le(b: &mut Bytes) -> (r: u64)
    requires
        bytes_contents(*old(b)).len() >= 8,
    ensures
        spec_u64_to_le_bytes(r) == bytes_contents(*old(b)).take(8),
        bytes_contents(*final(b)) == bytes_contents(*old(b)).skip(8),
{
    b.get_u64_le()
}

/// `Bytes::split_to`: returns the first `at` bytes and keeps the rest.
#[verifier::external_body]
pub(crate) fn bytes_split_to(b: &mut Bytes, at: usize) -> (r: Bytes)
    requires
        at <= bytes_contents(*old(b)).len(),
    ensures
        bytes_contents(r) == bytes_contents(*old(b)).take(at as int),
        bytes_contents(*final(b)) == bytes_contents(*old(b)).skip(at as int),
{
    b.split_to(at)
}

/// `BytesMut::new`: an empty buffer.
#[verifier::external_body]
pub(crate) fn bytes_mut_new() -> (r: BytesMut)
    ensures
        bytes_mut_contents(r) == Seq::<u8>::empty(),
{
    BytesMut::new()
}

/// `BytesMut::len`: the number of bytes held.
#[verifier::external_body]
pub(crate) fn bytes_mut_len(b: &BytesMut) -> (r: usize)
    ensures
        r == bytes_mut_contents(*b).len(),
{
    b.len()
}

/// `BufMut::put_u8` on `BytesMut`: appends one byte.
#[verifier::external_body]
pub(crate) fn bytes_mut_put_u8(b: &mut BytesMut, v: u8)
    ensures
        bytes_mut_contents(*final(b)) == bytes_mut_contents(*old(b)).push(v),
{
    b.put_u8(v)
}

/// `BufMut::put_u16_le` on `BytesMut`: appends the two little-endian bytes of `v`.
#[verifier::external_body]
pub(crate) fn bytes_mut_put_u16_le(b: &mut BytesMut, v: u16)
    ensures
        bytes_mut_contents(*final(b)) == bytes_mut_contents(*old(b)) + spec_u16_to_le_bytes(v),
{
    b.put_u16_le(v)
}

/// `BufMut::put_u32_le` on `BytesMut`: appends the four little-endian bytes of `v`.
#[verifier::external_body]
pub(crate) fn bytes_mut_put_u32_le(b: &mut BytesMut, v: u32)
    ensures
        bytes_mut_contents(*final(b)) == bytes_mut_contents(*old(b)) + spec_u32_to_le_bytes(v),
{
    b.put_u32_le(v)
}

/// `BufMut::put_u64_le` on `BytesMut`: appends the eight little-endian bytes of `v`.
#[verifier::external_body]
pub(crate) fn bytes_mut_put_u64_le(b: &mut BytesMut, v: u64)
    ensures
        bytes_mut_contents(*final(b)) == bytes_mut_contents(*old(b)) + spec_u64_to_le_bytes(v),
{
    b.put_u64_le(v)
}

/// `BufMut::put_slice` on `BytesMut`, given the bytes of a `Bytes`: appends them.
#[verifier::external_body]
pub(crate) fn bytes_mut_put_bytes(b: &mut BytesMut, src: &Bytes)
    ensures
        bytes_mut_contents(*final(b)) == bytes_mut_contents(*old(b)) + bytes_contents(*src),
{
    b.put_slice(src)
}

/// Writing through `BytesMut`'s `DerefMut` with `copy_from_slice`: the
/// bytes from `offset` on are replaced by those of `src`, the rest is kept.
#[verifier::external_body]
pub(crate) fn bytes_mut_write_at(b: &mut BytesMut, offset: usize, src: &[u8])
    requires
        offset + src@.len() <= bytes_mut_contents(*old(b)).len(),
    ensures
        bytes_mut_contents(*final(b)) == bytes_mut_contents(*old(b)).take(offset as int) + src@
            + bytes_mut_contents(*old(b)).skip(offset + src@.len()),
{
    b[offset..][..src.len()].copy_from_slice(src)
}

/// `BytesMut::freeze`: the same bytes, as an immutable `Bytes`.
#[verifier::external_body]
pub(crate) fn bytes_mut_freeze(b: BytesMut) -> (r: Bytes)
    ensures
        bytes_contents(r) == bytes_mut_contents(b),
{
    b.freeze()
}

} // verus!
