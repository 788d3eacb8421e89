use vstd::prelude::*;
use bytes::BufMut;
use bytes::BytesMut;

verus! {

/// `bytes::BytesMut`, a buffer of bytes that grows. Nothing is known of a value of it but
/// through the functions below.
#[verifier::external_type_specification]
#[verifier::external_body]
pub struct ExBytesMut(bytes::BytesMut);

/// The bytes that a `bytes::BytesMut` holds, first to last.
pub uninterp spec fn buffer_bytes(buf: BytesMut) -> Seq<u8>;

/// Calls `BytesMut::new`, which gives an empty buffer.
#[verifier::external_body]
pub(crate) fn buffer_new() -> (buf: BytesMut)
    ensures
        buffer_bytes(buf) == Seq::<u8>::empty(),
{
    BytesMut::new()
}

/// Calls `BytesMut::len`: the number of bytes held.
#[verifier::external_body]
pub(crate) fn buffer_len(buf: &BytesMut) -> (len: usize)
    ensures
        len == buffer_bytes(*buf).len(),
{
    buf.len()
}

/// Calls `BufMut::put_u8` on a `BytesMut`, which grows the buffer as needed and appends the
/// byte. (It gives up only where the allocation cannot be had.)
#[verifier::external_body]
pub(crate) fn buffer_put_u8(buf: &mut BytesMut, byte: u8)
    ensures
        buffer_bytes(*final(buf)) == buffer_bytes(*old(buf)).push(byte),
{
    buf.put_u8(byte)
}

/// Calls `BytesMut::extend_from_slice`, which appends a copy of `bytes` to the buffer.
#[verifier::external_body]
pub(crate) fn buffer_extend(buf: &mut BytesMut, bytes: &[u8])
    ensures
        buffer_bytes(*final(buf)) == buffer_bytes(*old(buf)) + bytes@,
{
    buf.extend_from_slice(bytes)
}

/// Writes through `BytesMut`'s `DerefMut` to `[u8]`: the byte at `index` is replaced, the
/// others stay. Indexing past the end panics, hence the `requires`.
#[verifier::external_body]
pub(crate) fn buffer_set(buf: &mut BytesMut, index: usize, byte: u8)
    requires
        index < buffer_bytes(*old(buf)).len(),
    ensures
        buffer_bytes(*final(buf)) == buffer_bytes(*old(buf)).update(index as int, byte),
{
    buf[index] = byte;
}

/// Reads through `BytesMut`'s `Deref` to `[u8]`: the byte at `index`. Indexing past the end
/// panics, hence the `requires`.
#[verifier::external_body]
pub(crate) fn buffer_get(buf: &BytesMut, index: usize) -> (byte: u8)
    requires
        index < buffer_bytes(*buf).len(),
    ensures
        byte == buffer_bytes(*buf)[index as int],
{
    buf[index]
}

/// Reads through `BytesMut`'s `Deref` to `[u8]` and copies the bytes out with `to_vec`.
#[verifier::external_body]
pub(crate) fn buffer_to_vec(buf: &BytesMut) -> (bytes: Vec<u8>)
    ensures
        bytes@ == buffer_bytes(*buf),
{
    buf.to_vec()
}

} // verus!
