//! The byte buffers of the `bytes` crate, as the codecs see them.
//!
//! `Bytes` and `BytesMut` are opaque to the verifier.  Each gets a name for
//! the bytes it currently holds, and the few methods the codecs call are
//! given contracts over those names.  Nothing in this file is proved: it
//! states what the `bytes` crate is relied upon to do.

use vstd::prelude::*;

verus! {

#[verifier::external_type_specification]
#[verifier::external_body]
pub struct ExBytes(bytes::Bytes);

#[verifier::external_type_specification]
#[verifier::external_body]
pub struct ExBytesMut(bytes::BytesMut);

/// The bytes that a `Bytes` holds, from its current position to its end.
pub uninterp spec fn bytes_content(b: bytes::Bytes) -> Seq<u8>;

/// The bytes written to a `BytesMut` so far.
pub uninterp spec fn bytes_mut_content(b: bytes::BytesMut) -> Seq<u8>;

/// `Clone` for `Bytes`: a second handle on the same bytes.
pub assume_specification[ <bytes::Bytes as Clone>::clone ](b: &bytes::Bytes) -> (res: bytes::Bytes)
    ensures
        bytes_content(res) == bytes_content(*b),
;

/// `BufMut::put_slice` on a `BytesMut`: the buffer grows as needed and the
/// bytes of `src` are appended to what it held.
#[verifier::external_body]
pub(crate) fn put_slice(buf: &mut bytes::BytesMut, src: &[u8])
    ensures
        bytes_mut_content(*final(buf)) == bytes_mut_content(*old(buf)) + src@,
{
    bytes::BufMut::put_slice(buf, src)
}

/// `Buf::chunk` on a `Bytes`: a `Bytes` is contiguous, so the chunk is the
/// whole of what remains.
#[verifier::external_body]
pub(crate) fn chunk(buf: &bytes::Bytes) -> (s: &[u8])
    ensures
        s@ == bytes_content(*buf),
{
    bytes::Buf::chunk(buf)
}

/// `Buf::advance` on a `Bytes`: drops the first `cnt` bytes.  The method
/// panics when `cnt` exceeds what remains, so that case is excluded.
#[verifier::external_body]
pub(crate) fn advance(buf: &mut bytes::Bytes, cnt: usize)
    requires
        cnt <= bytes_content(*old(buf)).len(),
    ensures
        bytes_content(*final(buf)) == bytes_content(*old(buf)).skip(cnt as int),
{
    bytes::Buf::advance(buf, cnt)
}

/// `Bytes::copy_from_slice`: a new `Bytes` holding a copy of `data`.
#[verifier::external_body]
pub(crate) fn copy_from_slice(data: &[u8]) -> (b: bytes::Bytes)
    ensures
        bytes_content(b) == data@,
{
    bytes::Bytes::copy_from_slice(data)
}

} // verus!
