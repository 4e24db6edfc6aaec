//! The fixed-capacity byte buffers of the `heapless` crate: the 64-byte one
//! in which a USB report is assembled, and the 11-byte one that carries the
//! input report.
//!
//! The buffer types are the crate's own; Verus sees them only through the
//! trusted items below, whose contracts restate what heapless 0.7.17 does.
use vstd::prelude::*;

verus! {

/// Makes `heapless::Vec` usable in verified signatures; its contents are seen
/// only through [`frame_bytes`].
#[verifier::external_type_specification]
#[verifier::external_body]
#[verifier::reject_recursive_types(T)]
pub struct ExHeaplessVec<T, const N: usize>(heapless::Vec<T, N>);

/// A report buffer of the size of one USB HID report (64 bytes).
pub type Frame = heapless::Vec<u8, 64>;

/// The capacity of a [`Frame`].
pub const FRAME_CAPACITY: usize = 64;

/// The bytes that a [`Frame`] holds, in order.
pub uninterp spec fn frame_bytes(v: Frame) -> Seq<u8>;

/// `heapless::Vec::new`: an empty buffer.
#[verifier::external_body]
pub(crate) fn frame_new() -> (v: Frame)
    ensures
        frame_bytes(v) == Seq::<u8>::empty(),
{
    heapless::Vec::new()
}

/// `heapless::Vec::push`: appends `b` when fewer than 64 bytes are held and
/// returns `Ok`; otherwise leaves the buffer as it was and hands `b` back.
#[verifier::external_body]
pub(crate) fn frame_push(v: &mut Frame, b: u8) -> (r: Result<(), u8>)
    ensures
        r is Ok <==> frame_bytes(*old(v)).len() < FRAME_CAPACITY,
        frame_bytes(*final(v)) == if frame_bytes(*old(v)).len() < FRAME_CAPACITY {
            frame_bytes(*old(v)).push(b)
        } else {
            frame_bytes(*old(v))
        },
{
    v.push(b)
}

/// `heapless::Vec::extend_from_slice`: appends all of `other` when it fits in
/// the remaining capacity and returns `Ok`; otherwise changes nothing and
/// returns `Err`.
#[verifier::external_body]
pub(crate) fn frame_extend(v: &mut Frame, other: &[u8]) -> (r: Result<(), ()>)
    ensures
        r is Ok <==> frame_bytes(*old(v)).len() + other@.len() <= FRAME_CAPACITY,
        frame_bytes(*final(v)) == if frame_bytes(*old(v)).len() + other@.len()
            <= FRAME_CAPACITY {
            frame_bytes(*old(v)) + other@
        } else {
            frame_bytes(*old(v))
        },
{
    v.extend_from_slice(other)
}

/// `heapless::Vec::as_slice`: the held bytes as a slice.
#[verifier::external_body]
pub(crate) fn frame_as_slice(v: &Frame) -> (s: &[u8])
    ensures
        s@ == frame_bytes(*v),
{
    v.as_slice()
}

/// The 11-byte input report buffer.
pub type InputReport = heapless::Vec<u8, 11>;

/// The bytes that an [`InputReport`] holds, in order.
pub uninterp spec fn input_report_bytes(v: InputReport) -> Seq<u8>;

/// `heapless::Vec::from_slice`: a buffer holding `bytes` when they fit in 11
/// bytes, `Err` otherwise.
#[verifier::external_body]
pub(crate) fn input_report_from_slice(bytes: &[u8]) -> (r: Result<InputReport, ()>)
    ensures
        r is Ok <==> bytes@.len() <= 11,
        r matches Ok(v) ==> input_report_bytes(v) == bytes@,
{
    heapless::Vec::from_slice(bytes)
}

/// `heapless::Vec::as_slice`: the held bytes of an input report as a slice.
#[verifier::external_body]
pub(crate) fn input_report_as_slice(v: &InputReport) -> (s: &[u8])
    ensures
        s@ == input_report_bytes(*v),
{
    v.as_slice()
}

} // verus!
