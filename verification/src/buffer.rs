//! The byte buffers that messages are written to and read from.
//!
//! `bytes::BytesMut` is the growable buffer of the `bytes` crate. What it
//! holds is named by [`bytes_mut_contents`]; each operation the messages
//! use is a wrapper whose contract says what it does to those contents.
use vstd::prelude::*;
use vstd::bytes::{spec_u32_from_le_bytes, spec_u32_to_le_bytes, spec_u64_from_le_bytes, spec_u64_to_le_bytes};
use bytes::BytesMut;

verus! {

#[verifier::external_type_specification]
#[verifier::external_body]
pub struct ExBytesMut(bytes::BytesMut);

/// The bytes a `BytesMut` holds, from its read position to its end.
pub uninterp spec fn bytes_mut_contents(buf: BytesMut) -> Seq<u8>;

/// The longest buffer whose growth by `extra` bytes stays within the
/// allocation limit of `BytesMut` (`isize::MAX` bytes).
pub open spec fn can_grow(buf: BytesMut, extra: int) -> bool {
    bytes_mut_contents(buf).len() + extra <= isize::MAX
}

/// `BytesMut::from(&[u8])`: a new buffer holding a copy of the slice.
#[verifier::external_body]
pub(crate) fn bytes_mut_from_slice(src: &[u8]) -> (buf: BytesMut)
    ensures
        bytes_mut_contents(buf) == src@,
{
    BytesMut::from(src)
}

/// `BytesMut::with_capacity`: a new, empty buffer with room for
/// `capacity` bytes. It panics when that passes the allocation limit,
/// which `requires` leaves out.
#[verifier::external_body]
fn bytes_mut_with_capacity(capacity: usize) -> (buf: BytesMut)
    requires
        capacity <= isize::MAX,
    ensures
        bytes_mut_contents(buf) == Seq::<u8>::empty(),
{
    BytesMut::with_capacity(capacity)
}

/// A new, empty buffer with room for `capacity` bytes, to encode messages
/// into.
pub fn buffer_with_capacity(capacity: usize) -> (buf: BytesMut)
    requires
        capacity <= isize::MAX,
    ensures
        bytes_mut_contents(buf) == Seq::<u8>::empty(),
{
    bytes_mut_with_capacity(capacity)
}

/// A new buffer holding a copy of `src`, to decode messages from.
pub fn buffer_from_bytes(src: &[u8]) -> (buf: BytesMut)
    ensures
        bytes_mut_contents(buf) == src@,
{
    bytes_mut_from_slice(src)
}

/// `BytesMut::len`: the number of bytes the buffer holds.
#[verifier::external_body]
pub(crate) fn buf_len(buf: &BytesMut) -> (n: usize)
    ensures
        n == bytes_mut_contents(*buf).len(),
{
    buf.len()
}

/// `BytesMut::capacity`: how many bytes fit before the buffer reallocates.
/// The value depends on what the allocator handed out, so nothing is
/// promised of it.
#[verifier::external_body]
pub(crate) fn buf_capacity(buf: &BytesMut) -> (n: usize) {
    buf.capacity()
}

/// `BytesMut::reserve`: makes room for `additional` more bytes and keeps
/// the contents. It panics when the new capacity passes the allocation
/// limit; `requires` leaves out buffers that come near it (the limit also
/// counts bytes already read off the front, which the contents do not show).
#[verifier::external_body]
pub(crate) fn buf_reserve(buf: &mut BytesMut, additional: usize)
    requires
        can_grow(*old(buf), additional as int),
    ensures
        bytes_mut_contents(*final(buf)) == bytes_mut_contents(*old(buf)),
{
    buf.reserve(additional)
}

/// `BufMut::put_u8` on a `BytesMut`: appends one byte.
#[verifier::external_body]
pub(crate) fn buf_put_u8(buf: &mut BytesMut, n: u8)
    requires
        can_grow(*old(buf), 1),
    ensures
        bytes_mut_contents(*final(buf)) == bytes_mut_contents(*old(buf)).push(n),
{
    bytes::BufMut::put_u8(buf, n)
}

/// `BufMut::put_u32_le` on a `BytesMut`: appends the four little-endian
/// bytes of `n`.
#[verifier::external_body]
pub(crate) fn buf_put_u32_le(buf: &mut BytesMut, n: u32)
    requires
        can_grow(*old(buf), 4),
    ensures
        bytes_mut_contents(*final(buf)) == bytes_mut_contents(*old(buf)) + spec_u32_to_le_bytes(n),
{
    bytes::BufMut::put_u32_le(buf, n)
}

/// `BufMut::put_u64_le` on a `BytesMut`: appends the eight little-endian
/// bytes of `n`.
#[verifier::external_body]
pub(crate) fn buf_put_u64_le(buf: &mut BytesMut, n: u64)
    requires
        can_grow(*old(buf), 8),
    ensures
        bytes_mut_contents(*final(buf)) == bytes_mut_contents(*old(buf)) + spec_u64_to_le_bytes(n),
{
    bytes::BufMut::put_u64_le(buf, n)
}

/// `Buf::get_u8` on a `BytesMut`: takes the first byte off the front. It
/// panics on an empty buffer, which `requires` leaves out.
#[verifier::external_body]
pub(crate) fn buf_get_u8(buf: &mut BytesMut) -> (n: u8)
    requires
        bytes_mut_contents(*old(buf)).len() >= 1,
    ensures
        n == bytes_mut_contents(*old(buf))[0],
        bytes_mut_contents(*final(buf)) == bytes_mut_contents(*old(buf)).skip(1),
{
    bytes::Buf::get_u8(buf)
}

/// `Buf::get_u32_le` on a `BytesMut`: takes the first four bytes off the
/// front and reads them as a little-endian integer. It panics on fewer than
/// four bytes, which `requires` leaves out.
#[verifier::external_body]
pub(crate) fn buf_get_u32_le(buf: &mut BytesMut) -> (n: u32)
    requires
        bytes_mut_contents(*old(buf)).len() >= 4,
    ensures
        n == spec_u32_from_le_bytes(bytes_mut_contents(*old(buf)).take(4)),
        bytes_mut_contents(*final(buf)) == bytes_mut_contents(*old(buf)).skip(4),
{
    bytes::Buf::get_u32_le(buf)
}

/// `Buf::get_u64_le` on a `BytesMut`: takes the first eight bytes off the
/// front and reads them as a little-endian integer. It panics on fewer than
/// eight bytes, which `requires` leaves out.
#[verifier::external_body]
pub(crate) fn buf_get_u64_le(buf: &mut BytesMut) -> (n: u64)
    requires
        bytes_mut_contents(*old(buf)).len() >= 8,
    ensures
        n == spec_u64_from_le_bytes(bytes_mut_contents(*old(buf)).take(8)),
        bytes_mut_contents(*final(buf)) == bytes_mut_contents(*old(buf)).skip(8),
{
    bytes::Buf::get_u64_le(buf)
}

/// `Buf::get_u64_le` on a byte slice: reads the first eight bytes as a
/// little-endian integer and moves the slice past them. It panics on fewer
/// than eight bytes, which `requires` leaves out.
#[verifier::external_body]
pub(crate) fn slice_get_u64_le(buf: &mut &[u8]) -> (n: u64)
    requires
        old(buf)@.len() >= 8,
    ensures
        n == spec_u64_from_le_bytes(old(buf)@.take(8)),
        final(buf)@ == old(buf)@.skip(8),
{
    bytes::Buf::get_u64_le(buf)
}

} // verus!
