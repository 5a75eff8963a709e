//! Trusted view of `bytes::BytesMut`, the receive buffer the decoder
//! consumes. Each wrapper states, over `bytes_of`, what the corresponding
//! method of the `bytes` crate does to the buffer's contents.

use vstd::prelude::*;

verus! {

#[verifier::external_type_specification]
#[verifier::external_body]
pub struct ExBytesMut(bytes::BytesMut);

/// The sequence of bytes a `BytesMut` currently holds.
pub uninterp spec fn bytes_of(b: bytes::BytesMut) -> Seq<u8>;

/// Relies on `BytesMut::len`: the number of bytes the buffer holds.
#[verifier::external_body]
pub(crate) fn buf_len(b: &bytes::BytesMut) -> (n: usize)
    ensures
        n == bytes_of(*b).len(),
{
    b.len()
}

/// Relies on `BytesMut`'s `Deref` to `[u8]`: indexing reads the byte at `i`.
#[verifier::external_body]
pub(crate) fn buf_byte(b: &bytes::BytesMut, i: usize) -> (r: u8)
    requires
        i < bytes_of(*b).len(),
    ensures
        r == bytes_of(*b)[i as int],
{
    b[i]
}

/// Relies on `Buf::advance` for `BytesMut`: drops the first `n` bytes and
/// keeps the rest. Panics when `n` exceeds the length, hence the `requires`.
#[verifier::external_body]
pub(crate) fn buf_advance(b: &mut bytes::BytesMut, n: usize)
    requires
        n <= bytes_of(*old(b)).len(),
    ensures
        bytes_of(*final(b)) == bytes_of(*old(b)).skip(n as int),
{
    bytes::Buf::advance(b, n)
}

/// Relies on `BytesMut::split_to`: returns the bytes `[0, n)` and keeps
/// `[n, len)`. Panics when `n` exceeds the length, hence the `requires`.
#[verifier::external_body]
pub(crate) fn buf_split_to(b: &mut bytes::BytesMut, n: usize) -> (r: bytes::BytesMut)
    requires
        n <= bytes_of(*old(b)).len(),
    ensures
        bytes_of(r) == bytes_of(*old(b)).take(n as int),
        bytes_of(*final(b)) == bytes_of(*old(b)).skip(n as int),
{
    b.split_to(n)
}

} // verus!
