//! The byte buffer of the `bytes` crate, as the codec uses it.
//!
//! Nothing in this file is proved. Each function hands one call on to
//! `bytes::BytesMut` and states what that call does to the bytes the buffer
//! holds; the codec is verified against these statements.

use crate::bigendian::{i64_be_bytes, i64_from_be_bytes, u64_be_bytes, u64_from_be_bytes};
use bytes::{Buf, BufMut, BytesMut};
use vstd::prelude::*;

verus! {

/// `bytes::BytesMut`, a growable buffer of bytes that is read from its front
/// and written at its end. Its fields are hidden.
#[verifier::external_type_specification]
#[verifier::external_body]
pub struct ExBytesMut(BytesMut);

/// The bytes that a buffer holds, from the read position to the end: what
/// `Deref` to `[u8]` shows of it.
pub uninterp spec fn buf_bytes(buf: &BytesMut) -> Seq<u8>;

/// Whether `count` more bytes can be written to a buffer that holds `held`.
/// `BytesMut::remaining_mut` is `isize::MAX` less the length held, and the
/// writing methods of `BufMut` are documented to panic beyond it.
pub open spec fn has_room(held: nat, count: nat) -> bool {
    held + count <= isize::MAX
}

/// `BytesMut::new`: a buffer of length 0.
#[verifier::external_body]
pub(crate) fn buffer_new() -> (buf: BytesMut)
    ensures
        buf_bytes(&buf) == Seq::<u8>::empty(),
{
    BytesMut::new()
}

/// `BytesMut::from` on a byte slice: a buffer that holds a copy of the slice.
#[verifier::external_body]
pub(crate) fn buffer_from(bytes: &[u8]) -> (buf: BytesMut)
    ensures
        buf_bytes(&buf) == bytes@,
{
    BytesMut::from(bytes)
}

/// `BytesMut::len`: the number of bytes held.
#[verifier::external_body]
pub(crate) fn buffer_len(buf: &BytesMut) -> (len: usize)
    ensures
        len == buf_bytes(buf).len(),
{
    buf.len()
}

/// The slice method `to_vec`, reached through `BytesMut`'s `Deref`: a copy of
/// all the bytes held.
#[verifier::external_body]
pub(crate) fn buffer_to_vec(buf: &BytesMut) -> (bytes: Vec<u8>)
    ensures
        bytes@ == buf_bytes(buf),
{
    buf.to_vec()
}

/// Indexing by a range through `BytesMut`'s `Deref`, then `to_vec`: a copy of
/// the first `count` bytes held. The buffer is left as it was. Indexing
/// panics past the end, so `count` is at most the length held.
#[verifier::external_body]
pub(crate) fn buffer_front(buf: &BytesMut, count: usize) -> (bytes: Vec<u8>)
    requires
        count <= buf_bytes(buf).len(),
    ensures
        bytes@ == buf_bytes(buf).take(count as int),
{
    buf[..count].to_vec()
}

/// `Buf::advance` of `BytesMut`: drops the first `count` bytes. It panics
/// where `count` is more than what remains.
#[verifier::external_body]
pub(crate) fn buffer_advance(buf: &mut BytesMut, count: usize)
    requires
        count <= buf_bytes(old(buf)).len(),
    ensures
        buf_bytes(final(buf)) == buf_bytes(old(buf)).skip(count as int),
{
    buf.advance(count)
}

/// `Buf::get_u8`: takes the first byte. It panics on an empty buffer.
#[verifier::external_body]
pub(crate) fn buffer_get_u8(buf: &mut BytesMut) -> (value: u8)
    requires
        buf_bytes(old(buf)).len() >= 1,
    ensures
        value == buf_bytes(old(buf))[0],
        buf_bytes(final(buf)) == buf_bytes(old(buf)).skip(1),
{
    buf.get_u8()
}

/// `Buf::get_u64`: takes the first eight bytes as an unsigned integer in
/// big-endian order. It panics where fewer than eight bytes remain.
#[verifier::external_body]
pub(crate) fn buffer_get_u64(buf: &mut BytesMut) -> (value: u64)
    requires
        buf_bytes(old(buf)).len() >= 8,
    ensures
        value == u64_from_be_bytes(buf_bytes(old(buf))),
        buf_bytes(final(buf)) == buf_bytes(old(buf)).skip(8),
{
    buf.get_u64()
}

/// `Buf::get_i64`: takes the first eight bytes as a signed integer in
/// big-endian order. It panics where fewer than eight bytes remain.
#[verifier::external_body]
pub(crate) fn buffer_get_i64(buf: &mut BytesMut) -> (value: i64)
    requires
        buf_bytes(old(buf)).len() >= 8,
    ensures
        value == i64_from_be_bytes(buf_bytes(old(buf))),
        buf_bytes(final(buf)) == buf_bytes(old(buf)).skip(8),
{
    buf.get_i64()
}

/// `BufMut::put_u8`: appends one byte.
#[verifier::external_body]
pub(crate) fn buffer_put_u8(buf: &mut BytesMut, value: u8)
    requires
        has_room(buf_bytes(old(buf)).len(), 1),
    ensures
        buf_bytes(final(buf)) == buf_bytes(old(buf)).push(value),
{
    buf.put_u8(value)
}

/// `BufMut::put_u64`: appends the eight bytes of an unsigned integer in
/// big-endian order.
#[verifier::external_body]
pub(crate) fn buffer_put_u64(buf: &mut BytesMut, value: u64)
    requires
        has_room(buf_bytes(old(buf)).len(), 8),
    ensures
        buf_bytes(final(buf)) == buf_bytes(old(buf)) + u64_be_bytes(value),
{
    buf.put_u64(value)
}

/// `BufMut::put_i64`: appends the eight bytes of a signed integer in
/// big-endian order.
#[verifier::external_body]
pub(crate) fn buffer_put_i64(buf: &mut BytesMut, value: i64)
    requires
        has_room(buf_bytes(old(buf)).len(), 8),
    ensures
        buf_bytes(final(buf)) == buf_bytes(old(buf)) + i64_be_bytes(value),
{
    buf.put_i64(value)
}

/// `BufMut::put_slice`: appends a copy of the slice.
#[verifier::external_body]
pub(crate) fn buffer_put_slice(buf: &mut BytesMut, bytes: &[u8])
    requires
        has_room(buf_bytes(old(buf)).len(), bytes@.len()),
    ensures
        buf_bytes(final(buf)) == buf_bytes(old(buf)) + bytes@,
{
    buf.put_slice(bytes)
}

} // verus!
