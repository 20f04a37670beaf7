//! Byte frames of the process-wide arena, and shared byte buffers.
use brz_ds::{EphemeralBytes, EphemeralBytesArena, EphemeralBytesMut};
use bytes::Bytes;

use vstd::prelude::*;

verus! {

/// The allocator of `brz_ds` for short-lived frames.
#[verifier::external_type_specification]
#[verifier::external_body]
pub struct ExEphemeralBytesArena(EphemeralBytesArena);

/// A frame of `brz_ds` that is being written.
#[verifier::external_type_specification]
#[verifier::external_body]
pub struct ExEphemeralBytesMut(EphemeralBytesMut);

/// A frame of `brz_ds` that is complete.
#[verifier::external_type_specification]
#[verifier::external_body]
pub struct ExEphemeralBytes(EphemeralBytes);

/// What was written into a frame so far.
pub uninterp spec fn frame_bytes(frame: EphemeralBytesMut) -> Seq<u8>;

/// How many bytes the frame was requested to hold.
pub uninterp spec fn frame_capacity(frame: EphemeralBytesMut) -> nat;

/// The bytes of a complete frame.
pub uninterp spec fn frozen_bytes(bytes: EphemeralBytes) -> Seq<u8>;

/// `EphemeralBytesArena::alloc`: an empty frame with room for `capacity` bytes.
/// A request beyond the largest possible allocation is left out.
pub assume_specification[ EphemeralBytesArena::alloc ](
    arena: &EphemeralBytesArena,
    capacity: usize,
) -> (frame: EphemeralBytesMut)
    requires
        capacity <= isize::MAX,
    ensures
        frame_bytes(frame) == Seq::<u8>::empty(),
        frame_capacity(frame) == capacity,
;

/// `EphemeralBytesMut::extend_from_slice`: appends the bytes, for which there
/// has to be room in what was requested.
pub assume_specification[ EphemeralBytesMut::extend_from_slice ](
    frame: &mut EphemeralBytesMut,
    bytes: &[u8],
)
    requires
        frame_bytes(*old(frame)).len() + bytes@.len() <= frame_capacity(*old(frame)),
    ensures
        frame_bytes(*final(frame)) == frame_bytes(*old(frame)) + bytes@,
        frame_capacity(*final(frame)) == frame_capacity(*old(frame)),
;

/// `EphemeralBytesMut::as_slice`: what was written so far.
pub assume_specification[ EphemeralBytesMut::as_slice ](frame: &EphemeralBytesMut) -> (bytes: &[u8])
    ensures
        bytes@ == frame_bytes(*frame),
;

/// `EphemeralBytesMut::freeze`: keeps what was written.
pub assume_specification[ EphemeralBytesMut::freeze ](frame: EphemeralBytesMut) -> (bytes:
    EphemeralBytes)
    ensures
        frozen_bytes(bytes) == frame_bytes(frame),
;

/// `EphemeralBytes::as_slice`: all bytes of the frame.
pub assume_specification[ EphemeralBytes::as_slice ](frame: &EphemeralBytes) -> (bytes: &[u8])
    ensures
        bytes@ == frozen_bytes(*frame),
;

/// A shared buffer of the crate `bytes`.
#[verifier::external_type_specification]
#[verifier::external_body]
pub struct ExBytes(Bytes);

/// What a shared buffer holds.
pub uninterp spec fn shared_bytes(bytes: Bytes) -> Seq<u8>;

/// `Bytes::as_ref`: everything that the buffer holds.
#[verifier::external_body]
pub(crate) fn shared_slice(shared: &Bytes) -> (bytes: &[u8])
    ensures
        bytes@ == shared_bytes(*shared),
{
    shared.as_ref()
}

/// `Bytes::from` on a string: its UTF-8 bytes.
#[verifier::external_body]
pub(crate) fn shared_text(text: String) -> (shared: Bytes)
    ensures
        shared_bytes(shared) == vstd::utf8::encode_utf8(text@),
{
    Bytes::from(text)
}

} // verus!
