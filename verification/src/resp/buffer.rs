//! The growable byte buffer that a connection reads into and writes from.
use vstd::prelude::*;
use bytes::{Buf, BufMut, BytesMut};

verus! {

/// `BytesMut` of the crate bytes, known here by its name alone.
#[verifier::external_type_specification]
#[verifier::external_body]
pub struct ExBytesMut(bytes::BytesMut);

/// The bytes that a buffer holds, first to last.
pub uninterp spec fn buffer_bytes(buf: BytesMut) -> Seq<u8>;

/// `BytesMut::new` of the crate bytes: a buffer that holds nothing.
#[verifier::external_body]
pub(crate) fn buffer_new() -> (buf: BytesMut)
    ensures
        buffer_bytes(buf) == Seq::<u8>::empty(),
{
    BytesMut::new()
}

/// `BufMut::put_slice` of the crate bytes, on a `BytesMut`: the bytes of
/// `src` go behind those that the buffer holds. Like `Vec`, the buffer gives
/// up where the machine has no room for them.
#[verifier::external_body]
pub(crate) fn buffer_put(buf: &mut BytesMut, src: &[u8])
    ensures
        buffer_bytes(*final(buf)) == buffer_bytes(*old(buf)) + src@,
{
    buf.put_slice(src)
}

/// `AsRef<[u8]>::as_ref` of the crate bytes, on a `BytesMut`: the bytes that
/// the buffer holds, as a slice.
#[verifier::external_body]
pub(crate) fn buffer_as_slice(buf: &BytesMut) -> (s: &[u8])
    ensures
        s@ == buffer_bytes(*buf),
{
    buf.as_ref()
}

/// `Buf::advance` of the crate bytes, on a `BytesMut`: the first `count`
/// bytes leave the buffer. It panics where the buffer holds fewer.
#[verifier::external_body]
pub(crate) fn buffer_advance(buf: &mut BytesMut, count: usize)
    requires
        count <= buffer_bytes(*old(buf)).len(),
    ensures
        buffer_bytes(*final(buf)) == buffer_bytes(*old(buf)).skip(count as int),
{
    buf.advance(count)
}

} // verus!
