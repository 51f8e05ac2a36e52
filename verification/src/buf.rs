//! Reference-counted byte buffers.
//!
//! Datagram payloads are carried in [`bytes::Bytes`], which clones and
//! splits without copying.  The buffer type is opaque to the verifier;
//! [`bytes_data`] names the byte sequence a buffer holds, and each
//! operation the library relies on is declared below with its effect on
//! that sequence, as the crate's documentation states it.

use vstd::prelude::*;

verus! {

#[verifier::external_type_specification]
#[verifier::external_body]
pub struct ExBytes(bytes::Bytes);

/// The sequence of bytes a [`bytes::Bytes`] buffer holds.
pub uninterp spec fn bytes_data(b: bytes::Bytes) -> Seq<u8>;

/// Relies on bytes::Bytes::len: the number of bytes the buffer holds.
#[verifier::external_body]
pub fn bytes_len(b: &bytes::Bytes) -> (r: usize)
    ensures
        r == bytes_data(*b).len(),
{
    b.len()
}

/// Relies on the Index impl of bytes::Bytes (through its Deref to a byte
/// slice): the byte at position `i`.
#[verifier::external_body]
pub fn bytes_at(b: &bytes::Bytes, i: usize) -> (r: u8)
    requires
        i < bytes_data(*b).len(),
    ensures
        r == bytes_data(*b)[i as int],
{
    b[i]
}

/// Relies on bytes::Bytes::split_to: afterwards the buffer holds the
/// bytes from `at` on, and the returned buffer holds the first `at`
/// bytes.  Panics if `at` is past the end, so that case is excluded.
#[verifier::external_body]
pub fn bytes_split_to(b: &mut bytes::Bytes, at: usize) -> (r: bytes::Bytes)
    requires
        at <= bytes_data(*old(b)).len(),
    ensures
        bytes_data(r) == bytes_data(*old(b)).subrange(0, at as int),
        bytes_data(*final(b)) == bytes_data(*old(b)).subrange(
            at as int,
            bytes_data(*old(b)).len() as int,
        ),
{
    b.split_to(at)
}

/// Relies on bytes::Bytes::clear: removes all data.
#[verifier::external_body]
pub fn bytes_clear(b: &mut bytes::Bytes)
    ensures
        bytes_data(*final(b)).len() == 0,
{
    b.clear()
}

/// Relies on slice::to_vec (through the Deref of bytes::Bytes to a byte
/// slice): copies the buffer's bytes out unchanged.
#[verifier::external_body]
pub fn bytes_to_vec(b: &bytes::Bytes) -> (r: Vec<u8>)
    ensures
        r@ == bytes_data(*b),
{
    b.to_vec()
}

/// Relies on the Clone impl of bytes::Bytes: a cheap copy holding the
/// same bytes.
#[verifier::external_body]
pub fn bytes_clone(b: &bytes::Bytes) -> (r: bytes::Bytes)
    ensures
        bytes_data(r) == bytes_data(*b),
{
    b.clone()
}

} // verus!
