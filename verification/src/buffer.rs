//! Byte buffers as the transport hands them over.

use bytes::BytesMut;
use vstd::prelude::*;

verus! {

/// `bytes::BytesMut`, the growable byte buffer that frames travel in.
#[verifier::external_type_specification]
#[verifier::external_body]
pub struct ExBytesMut(BytesMut);

/// The bytes that a buffer holds, in order.
pub uninterp spec fn bytes_of(buffer: BytesMut) -> Seq<u8>;

/// Borrows the contents of a buffer as a slice.
///
/// Calls `<BytesMut as AsRef<[u8]>>::as_ref`. Trusted: the slice is what the
/// buffer holds, byte for byte.
#[verifier::external_body]
pub(crate) fn as_bytes(buffer: &BytesMut) -> (slice: &[u8])
    ensures
        slice@ == bytes_of(*buffer),
{
    buffer.as_ref()
}

} // verus!
