//! The byte buffer (`bytes::BytesMut`) that framing and response writing
//! fill and drain, with the operations the library uses on it.

use vstd::prelude::*;

verus! {

/// `bytes::BytesMut`, carried opaquely; its contents are [`buf_bytes`].
#[verifier::external_type_specification]
#[verifier::external_body]
pub struct ExBytesMut(bytes::BytesMut);

/// The bytes held by a `BytesMut`, first to last.
pub uninterp spec fn buf_bytes(b: bytes::BytesMut) -> Seq<u8>;

/// `BytesMut::new`: an empty buffer.
#[verifier::external_body]
pub(crate) fn buf_new() -> (b: bytes::BytesMut)
    ensures
        buf_bytes(b) == Seq::<u8>::empty(),
{
    bytes::BytesMut::new()
}

/// `BytesMut::len`: the number of bytes held.
#[verifier::external_body]
pub(crate) fn buf_len(b: &bytes::BytesMut) -> (n: usize)
    ensures
        n == buf_bytes(*b).len(),
{
    b.len()
}

/// `<BytesMut as Deref>::deref`: the held bytes as a slice.
#[verifier::external_body]
pub(crate) fn buf_as_slice(b: &bytes::BytesMut) -> (s: &[u8])
    ensures
        s@ == buf_bytes(*b),
{
    b
}

/// `<BytesMut as BufMut>::put_slice`: append `s` at the end. The crate
/// panics when the new length would overflow `usize`, so that is excluded.
#[verifier::external_body]
pub(crate) fn buf_put_slice(b: &mut bytes::BytesMut, s: &[u8])
    requires
        buf_bytes(*old(b)).len() + s@.len() <= usize::MAX,
    ensures
        buf_bytes(*final(b)) == buf_bytes(*old(b)) + s@,
{
    bytes::BufMut::put_slice(b, s)
}

/// `BytesMut::split_to`: detach and return the first `at` bytes, leaving
/// the rest in `b`. The crate panics when `at` exceeds the length.
#[verifier::external_body]
pub(crate) fn buf_split_to(b: &mut bytes::BytesMut, at: usize) -> (head: bytes::BytesMut)
    requires
        at <= buf_bytes(*old(b)).len(),
    ensures
        buf_bytes(head) == buf_bytes(*old(b)).take(at as int),
        buf_bytes(*final(b)) == buf_bytes(*old(b)).skip(at as int),
{
    b.split_to(at)
}

} // verus!
