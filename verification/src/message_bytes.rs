use bytes::Bytes;
use vstd::prelude::*;

verus! {

/// Cheaply cloneable immutable byte buffers from the `bytes` crate, carried as opaque values.
#[verifier::external_type_specification]
#[verifier::external_body]
pub struct ExBytes(Bytes);

/// The bytes a `Bytes` buffer holds.
pub uninterp spec fn bytes_content(bytes: Bytes) -> Seq<u8>;

/// Calls `Bytes::from(Vec<u8>)`: the buffer holds the vector's bytes.
#[verifier::external_body]
pub(crate) fn bytes_from_vec(vec: Vec<u8>) -> (bytes: Bytes)
    ensures
        bytes_content(bytes) == vec@,
{
    Bytes::from(vec)
}

/// Calls `Bytes::clone`: the clone holds the same bytes.
#[verifier::external_body]
pub(crate) fn bytes_clone(bytes: &Bytes) -> (clone: Bytes)
    ensures
        bytes_content(clone) == bytes_content(*bytes),
{
    bytes.clone()
}

/// Calls `Bytes::slice(start..)`: the bytes from `start` to the end.
///
/// `Bytes::slice` panics when `start` is past the end, which `requires` rules out.
#[verifier::external_body]
pub(crate) fn bytes_slice_from(bytes: &Bytes, start: usize) -> (slice: Bytes)
    requires
        start <= bytes_content(*bytes).len(),
    ensures
        bytes_content(slice) == bytes_content(*bytes).subrange(start as int, bytes_content(*bytes).len() as int),
{
    bytes.slice(start..)
}

/// Views a `Bytes` buffer as a slice (`&bytes[..]`).
#[verifier::external_body]
pub(crate) fn bytes_as_slice(bytes: &Bytes) -> (slice: &[u8])
    ensures
        slice@ == bytes_content(*bytes),
{
    &bytes[..]
}

/// Copies the bytes from `start` to the end into a vector (`bytes[start..].to_vec()`).
#[verifier::external_body]
pub(crate) fn bytes_tail_to_vec(bytes: &Bytes, start: usize) -> (tail: Vec<u8>)
    requires
        start <= bytes_content(*bytes).len(),
    ensures
        tail@ == bytes_content(*bytes).subrange(start as int, bytes_content(*bytes).len() as int),
{
    bytes[start..].to_vec()
}

} // verus!
