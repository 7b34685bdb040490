use vstd::prelude::*;

use bytes::BufMut;
use bytes::BytesMut;

verus! {

/// Declares bytes::BytesMut, the growable byte buffer behind every
/// connection; its contents are reached only through `bytes_view` and the
/// wrappers below.
#[verifier::external_type_specification]
#[verifier::external_body]
pub struct ExBytesMut(BytesMut);

/// The byte contents of a `bytes::BytesMut` buffer, front to back.
pub uninterp spec fn bytes_view(b: BytesMut) -> Seq<u8>;

/// Relies on bytes::BytesMut::with_capacity: the new buffer holds no bytes.
#[verifier::external_body]
pub(crate) fn buf_with_capacity(capacity: usize) -> (r: BytesMut)
    ensures
        bytes_view(r) == Seq::<u8>::empty(),
{
    BytesMut::with_capacity(capacity)
}

/// Relies on bytes::BytesMut::len: the number of bytes held.
#[verifier::external_body]
pub(crate) fn buf_len(b: &BytesMut) -> (r: usize)
    ensures
        r == bytes_view(*b).len(),
{
    b.len()
}

/// Relies on indexing through bytes::BytesMut's deref to a byte slice.
#[verifier::external_body]
pub(crate) fn buf_byte(b: &BytesMut, i: usize) -> (r: u8)
    requires
        i < bytes_view(*b).len(),
    ensures
        r == bytes_view(*b)[i as int],
{
    b[i]
}

/// Relies on bytes::BytesMut::split_to: the first `at` bytes move into the
/// returned buffer and the rest stay behind, in order.
#[verifier::external_body]
pub(crate) fn buf_split_to(b: &mut BytesMut, at: usize) -> (r: BytesMut)
    requires
        at <= bytes_view(*old(b)).len(),
    ensures
        bytes_view(r) == bytes_view(*old(b)).take(at as int),
        bytes_view(*final(b)) == bytes_view(*old(b)).skip(at as int),
{
    b.split_to(at)
}

/// Relies on bytes::BytesMut::extend_from_slice: the slice is appended.
#[verifier::external_body]
pub(crate) fn buf_extend(b: &mut BytesMut, data: &[u8])
    ensures
        bytes_view(*final(b)) == bytes_view(*old(b)) + data@,
{
    b.extend_from_slice(data)
}

/// Relies on bytes::BufMut::put_u8 for BytesMut: the byte is appended.
#[verifier::external_body]
pub(crate) fn buf_put_u8(b: &mut BytesMut, n: u8)
    ensures
        bytes_view(*final(b)) == bytes_view(*old(b)).push(n),
{
    b.put_u8(n)
}

/// Relies on bytes::BufMut::put_u16 for BytesMut: the two big-endian bytes
/// of the integer are appended.
#[verifier::external_body]
pub(crate) fn buf_put_u16_be(b: &mut BytesMut, n: u16)
    ensures
        bytes_view(*final(b)) == bytes_view(*old(b)).push((n / 256) as u8).push((n % 256) as u8),
{
    b.put_u16(n)
}

/// Relies on slice::to_vec through bytes::BytesMut's deref to a byte slice.
#[verifier::external_body]
pub(crate) fn buf_to_vec(b: &BytesMut) -> (r: Vec<u8>)
    ensures
        r@ == bytes_view(*b),
{
    b.as_ref().to_vec()
}

} // verus!
