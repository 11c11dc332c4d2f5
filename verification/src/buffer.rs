//! The growable byte buffer of the `bytes` crate, as the message codecs use it.

use bytes::BytesMut;
use vstd::prelude::*;

verus! {

#[verifier::external_type_specification]
#[verifier::external_body]
pub struct ExBytesMut(BytesMut);

/// The bytes that a `BytesMut` currently holds, in order.
pub uninterp spec fn bytes_mut_contents(b: BytesMut) -> Seq<u8>;

/// `BytesMut::from(&[u8])`: a new buffer that holds a copy of `data`.
#[verifier::external_body]
pub(crate) fn bytes_mut_from_slice(data: &[u8]) -> (r: BytesMut)
    ensures
        bytes_mut_contents(r) == data@,
{
    BytesMut::from(data)
}

/// `BytesMut::extend_from_slice`: appends a copy of `data` after the current contents.
#[verifier::external_body]
pub(crate) fn bytes_mut_extend(buf: &mut BytesMut, data: &[u8])
    ensures
        bytes_mut_contents(*final(buf)) == bytes_mut_contents(*old(buf)) + data@,
{
    buf.extend_from_slice(data)
}

/// `BytesMut::as_ref`: the current contents as a slice.
#[verifier::external_body]
pub(crate) fn bytes_mut_as_slice(buf: &BytesMut) -> (r: &[u8])
    ensures
        r@ == bytes_mut_contents(*buf),
{
    buf.as_ref()
}

/// `Buf::advance` on a `BytesMut`: drops the first `cnt` bytes. It panics when
/// `cnt` exceeds the length, which `requires` rules out.
#[verifier::external_body]
pub(crate) fn bytes_mut_advance(buf: &mut BytesMut, cnt: usize)
    requires
        cnt <= bytes_mut_contents(*old(buf)).len(),
    ensures
        bytes_mut_contents(*final(buf)) == bytes_mut_contents(*old(buf)).skip(cnt as int),
{
    bytes::Buf::advance(buf, cnt)
}

} // verus!
