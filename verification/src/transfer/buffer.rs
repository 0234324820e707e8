//! Bytes that wait to be written.
use crate::transfer::copy::PART_BYTES;
use bytes::BytesMut;
use vstd::prelude::*;

verus! {

/// `bytes::BytesMut`: a buffer that grows at its end.
#[verifier::external_type_specification]
#[verifier::external_body]
pub struct ExBytesMut(bytes::BytesMut);

/// The bytes that a buffer holds.
pub uninterp spec fn buffered(buffer: bytes::BytesMut) -> Seq<u8>;

/// `BytesMut::with_capacity`: a buffer that holds nothing.
#[verifier::external_body]
pub(crate) fn new_buffer(capacity: usize) -> (buffer: BytesMut)
    requires
        capacity <= PART_BYTES,
    ensures
        buffered(buffer) == Seq::<u8>::empty(),
{
    BytesMut::with_capacity(capacity)
}

/// `BytesMut::len`: how many bytes the buffer holds.
#[verifier::external_body]
pub(crate) fn buffer_len(buffer: &BytesMut) -> (length: usize)
    ensures
        length == buffered(*buffer).len(),
{
    buffer.len()
}

/// `BytesMut::extend_from_slice`: the bytes from `from` up to `to` come behind those
/// that the buffer holds.
#[verifier::external_body]
pub(crate) fn extend_buffer(buffer: &mut BytesMut, bytes: &Vec<u8>, from: usize, to: usize)
    requires
        from <= to <= bytes@.len(),
        buffered(*old(buffer)).len() + to - from <= PART_BYTES,
    ensures
        buffered(*final(buffer)) == buffered(*old(buffer)) + bytes@.subrange(
            from as int,
            to as int,
        ),
{
    buffer.extend_from_slice(&bytes[from..to])
}

/// `BytesMut::split`: hands out what the buffer holds, and leaves it empty.
#[verifier::external_body]
pub(crate) fn split_buffer(buffer: &mut BytesMut) -> (bytes: Vec<u8>)
    ensures
        bytes@ == buffered(*old(buffer)),
        buffered(*final(buffer)) == Seq::<u8>::empty(),
{
    Vec::from(buffer.split())
}

} // verus!
