//! Byte buffers of the `bytes` crate, seen through their contents.

use bytes::{Buf, BufMut, BytesMut};
use std::collections::VecDeque;
use vstd::prelude::*;

use crate::wire::{be16, be16_value, be32, be32_signed, be32_signed_value, be32_value};

verus! {

#[verifier::external_type_specification]
#[verifier::external_body]
pub struct ExBytesMut(BytesMut);

/// The bytes that a `BytesMut` holds, first to last.
pub uninterp spec fn bytes_of(b: BytesMut) -> Seq<u8>;

/// Calls `<VecDeque<u8> as bytes::Buf>::get_u32`: it reads the first four
/// bytes as a big-endian number and removes them. It panics on fewer than
/// four bytes, which `requires` leaves out.
#[verifier::external_body]
pub(crate) fn deque_get_u32(d: &mut VecDeque<u8>) -> (r: u32)
    requires
        old(d)@.len() >= 4,
    ensures
        r as int == be32_value(old(d)@),
        final(d)@ == old(d)@.subrange(4, old(d)@.len() as int),
{
    d.get_u32()
}

/// Calls `BytesMut::with_capacity`: an empty buffer.
#[verifier::external_body]
pub(crate) fn bm_with_capacity(capacity: usize) -> (r: BytesMut)
    ensures
        bytes_of(r) == Seq::<u8>::empty(),
{
    BytesMut::with_capacity(capacity)
}

/// Calls `BytesMut::len`: the number of bytes held.
#[verifier::external_body]
pub(crate) fn bm_len(b: &BytesMut) -> (r: usize)
    ensures
        r == bytes_of(*b).len(),
{
    b.len()
}

/// Calls `BytesMut::capacity`. What the allocator gave is not claimed.
#[verifier::external_body]
pub(crate) fn bm_capacity(b: &BytesMut) -> usize {
    b.capacity()
}

/// Calls `BytesMut::reserve`: the contents stay as they are.
#[verifier::external_body]
pub(crate) fn bm_reserve(b: &mut BytesMut, additional: usize)
    ensures
        bytes_of(*final(b)) == bytes_of(*old(b)),
{
    b.reserve(additional)
}

/// Calls `<BytesMut as Extend<&u8>>::extend` with a slice: the slice's bytes
/// are appended.
#[verifier::external_body]
pub(crate) fn bm_extend(b: &mut BytesMut, s: &[u8])
    ensures
        bytes_of(*final(b)) == bytes_of(*old(b)) + s@,
{
    b.extend(s)
}

/// Calls `BytesMut::split_to`: the first `at` bytes are returned and removed.
/// It panics when `at` exceeds the length, which `requires` leaves out.
#[verifier::external_body]
pub(crate) fn bm_split_to(b: &mut BytesMut, at: usize) -> (r: BytesMut)
    requires
        at <= bytes_of(*old(b)).len(),
    ensures
        bytes_of(r) == bytes_of(*old(b)).subrange(0, at as int),
        bytes_of(*final(b)) == bytes_of(*old(b)).subrange(at as int, bytes_of(*old(b)).len() as int),
{
    b.split_to(at)
}

/// Calls `BytesMut::split`: all bytes are returned and the buffer is left empty.
#[verifier::external_body]
pub(crate) fn bm_split(b: &mut BytesMut) -> (r: BytesMut)
    ensures
        bytes_of(r) == bytes_of(*old(b)),
        bytes_of(*final(b)) == Seq::<u8>::empty(),
{
    b.split()
}

/// Calls `BytesMut::clear`: the buffer is left empty.
#[verifier::external_body]
pub(crate) fn bm_clear(b: &mut BytesMut)
    ensures
        bytes_of(*final(b)) == Seq::<u8>::empty(),
{
    b.clear()
}

/// Calls `<BytesMut as Clone>::clone`: a buffer with the same bytes.
#[verifier::external_body]
pub(crate) fn bm_clone(b: &BytesMut) -> (r: BytesMut)
    ensures
        bytes_of(r) == bytes_of(*b),
{
    b.clone()
}

/// Calls `<BytesMut as AsRef<[u8]>>::as_ref`: the bytes held, as a slice.
#[verifier::external_body]
pub(crate) fn bm_as_slice(b: &BytesMut) -> (r: &[u8])
    ensures
        r@ == bytes_of(*b),
{
    b.as_ref()
}

/// Calls `<BytesMut as Buf>::get_u8`: the first byte, removed. It panics on
/// an empty buffer, which `requires` leaves out.
#[verifier::external_body]
pub(crate) fn bm_get_u8(b: &mut BytesMut) -> (r: u8)
    requires
        bytes_of(*old(b)).len() >= 1,
    ensures
        r == bytes_of(*old(b))[0],
        bytes_of(*final(b)) == bytes_of(*old(b)).subrange(1, bytes_of(*old(b)).len() as int),
{
    b.get_u8()
}

/// Calls `<BytesMut as Buf>::get_u16`: the first two bytes read big-endian,
/// removed. It panics on fewer than two bytes, which `requires` leaves out.
#[verifier::external_body]
pub(crate) fn bm_get_u16(b: &mut BytesMut) -> (r: u16)
    requires
        bytes_of(*old(b)).len() >= 2,
    ensures
        r as int == be16_value(bytes_of(*old(b))),
        bytes_of(*final(b)) == bytes_of(*old(b)).subrange(2, bytes_of(*old(b)).len() as int),
{
    b.get_u16()
}

/// Calls `<BytesMut as Buf>::get_u32`: the first four bytes read big-endian,
/// removed. It panics on fewer than four bytes, which `requires` leaves out.
#[verifier::external_body]
pub(crate) fn bm_get_u32(b: &mut BytesMut) -> (r: u32)
    requires
        bytes_of(*old(b)).len() >= 4,
    ensures
        r as int == be32_value(bytes_of(*old(b))),
        bytes_of(*final(b)) == bytes_of(*old(b)).subrange(4, bytes_of(*old(b)).len() as int),
{
    b.get_u32()
}

/// Calls `<BytesMut as Buf>::get_i32`: the first four bytes read as a
/// big-endian two's complement number, removed. It panics on fewer than four
/// bytes, which `requires` leaves out.
#[verifier::external_body]
pub(crate) fn bm_get_i32(b: &mut BytesMut) -> (r: i32)
    requires
        bytes_of(*old(b)).len() >= 4,
    ensures
        r as int == be32_signed_value(bytes_of(*old(b))),
        bytes_of(*final(b)) == bytes_of(*old(b)).subrange(4, bytes_of(*old(b)).len() as int),
{
    b.get_i32()
}

/// Calls `<BytesMut as BufMut>::put_u8`: the byte is appended.
#[verifier::external_body]
pub(crate) fn bm_put_u8(b: &mut BytesMut, x: u8)
    ensures
        bytes_of(*final(b)) == bytes_of(*old(b)).push(x),
{
    b.put_u8(x)
}

/// Calls `<BytesMut as BufMut>::put_u16`: the big-endian bytes are appended.
#[verifier::external_body]
pub(crate) fn bm_put_u16(b: &mut BytesMut, x: u16)
    ensures
        bytes_of(*final(b)) == bytes_of(*old(b)) + be16(x),
{
    b.put_u16(x)
}

/// Calls `<BytesMut as BufMut>::put_u32`: the big-endian bytes are appended.
#[verifier::external_body]
pub(crate) fn bm_put_u32(b: &mut BytesMut, x: u32)
    ensures
        bytes_of(*final(b)) == bytes_of(*old(b)) + be32(x),
{
    b.put_u32(x)
}

/// Calls `<BytesMut as BufMut>::put_i32`: the big-endian two's complement
/// bytes are appended.
#[verifier::external_body]
pub(crate) fn bm_put_i32(b: &mut BytesMut, x: i32)
    ensures
        bytes_of(*final(b)) == bytes_of(*old(b)) + be32_signed(x),
{
    b.put_i32(x)
}

/// Calls `<BytesMut as BufMut>::put_slice`: the slice's bytes are appended.
#[verifier::external_body]
pub(crate) fn bm_put_slice(b: &mut BytesMut, s: &[u8])
    ensures
        bytes_of(*final(b)) == bytes_of(*old(b)) + s@,
{
    b.put_slice(s)
}

/// Calls `<BytesMut as BufMut>::put` with a `BytesMut` source: the source's
/// bytes are appended.
#[verifier::external_body]
pub(crate) fn bm_put(b: &mut BytesMut, src: BytesMut)
    ensures
        bytes_of(*final(b)) == bytes_of(*old(b)) + bytes_of(src),
{
    b.put(src)
}

} // verus!
