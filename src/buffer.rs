//! The byte buffer that the transport fills and drains: `bytes::BytesMut`,
//! seen through what it holds.
use vstd::prelude::*;

verus! {

#[verifier::external_type_specification]
#[verifier::external_body]
pub struct ExBytesMut(bytes::BytesMut);

/// The bytes that a buffer holds, front first.
pub uninterp spec fn bytes_held(b: bytes::BytesMut) -> Seq<u8>;

/// Relies on `BytesMut::len`: the number of bytes held.
#[verifier::external_body]
pub(crate) fn held_len(b: &bytes::BytesMut) -> (r: usize)
    ensures
        r == bytes_held(*b).len(),
{
    b.len()
}

/// Relies on `BytesMut::split_to`: the first `n` bytes leave the buffer and
/// are returned; it panics past the end, which `requires` rules out.
#[verifier::external_body]
pub(crate) fn take_front(b: &mut bytes::BytesMut, n: usize) -> (r: Vec<u8>)
    requires
        n <= bytes_held(*old(b)).len(),
    ensures
        r@ == bytes_held(*old(b)).subrange(0, n as int),
        bytes_held(*final(b)) == bytes_held(*old(b)).subrange(n as int, bytes_held(*old(b)).len() as int),
{
    b.split_to(n).to_vec()
}

/// Relies on `BytesMut::extend_from_slice`: `data` is added at the back. It
/// reserves room first, which may double the capacity that the buffer has;
/// keeping the new length to half of `isize::MAX` keeps that allocation
/// within what `Vec::with_capacity` accepts.
#[verifier::external_body]
pub(crate) fn append(b: &mut bytes::BytesMut, data: &[u8])
    requires
        bytes_held(*old(b)).len() + data@.len() <= isize::MAX / 2,
    ensures
        bytes_held(*final(b)) == bytes_held(*old(b)) + data@,
{
    b.extend_from_slice(data)
}

} // verus!
