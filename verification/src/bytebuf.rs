//! Trusted boundary around `bytes::BytesMut`, the growable byte buffer that
//! backs the codec's receive and send sides. Each wrapper states over
//! `buf_bytes` what the crate's source shows of the one method it calls.
use vstd::prelude::*;

verus! {

#[verifier::external_type_specification]
#[verifier::external_body]
pub struct ExBytesMut(bytes::BytesMut);

/// The bytes a `bytes::BytesMut` holds, front to back.
pub uninterp spec fn buf_bytes(b: bytes::BytesMut) -> Seq<u8>;

/// Relies on `bytes::BytesMut::new`: a fresh buffer holds no bytes.
#[verifier::external_body]
pub(crate) fn buf_new() -> (b: bytes::BytesMut)
    ensures
        buf_bytes(b) == Seq::<u8>::empty(),
{
    bytes::BytesMut::new()
}

/// Relies on `bytes::BytesMut::len`: the number of bytes held.
#[verifier::external_body]
pub(crate) fn buf_len(b: &bytes::BytesMut) -> (n: usize)
    ensures
        n == buf_bytes(*b).len(),
{
    b.len()
}

/// Relies on `BytesMut`'s `Deref` to `[u8]`: a view of all bytes held.
#[verifier::external_body]
pub(crate) fn buf_slice(b: &bytes::BytesMut) -> (s: &[u8])
    ensures
        s@ == buf_bytes(*b),
{
    &b[..]
}

/// Relies on `bytes::BytesMut::extend_from_slice`: appends the slice at the
/// back of the buffer.
#[verifier::external_body]
pub(crate) fn buf_extend(b: &mut bytes::BytesMut, data: &[u8])
    ensures
        buf_bytes(*final(b)) == buf_bytes(*old(b)) + data@,
{
    b.extend_from_slice(data)
}

/// Relies on `bytes::BytesMut::split_to`: removes the first `at` bytes and
/// returns them (panics when `at` exceeds the length, so that case is ruled
/// out). The split-off front is handed back as a plain vector.
#[verifier::external_body]
pub(crate) fn buf_split_to(b: &mut bytes::BytesMut, at: usize) -> (front: Vec<u8>)
    requires
        at <= buf_bytes(*old(b)).len(),
    ensures
        front@ == buf_bytes(*old(b)).take(at as int),
        buf_bytes(*final(b)) == buf_bytes(*old(b)).skip(at as int),
{
    b.split_to(at).to_vec()
}

} // verus!
