//! Framing of the input state sent over UART: each frame is `0xA2`, seven
//! payload bytes (three button bytes, two stick byte pairs) and `0xA3`. When a
//! frame is out of step, bytes are read one at a time until the end marker
//! has been seen, and framing starts again after it.
use vstd::prelude::*;

verus! {

/// The byte that starts a frame.
pub const STX: [u8; 1] = [0xA2];

/// The byte that ends a frame.
pub const ETX: [u8; 1] = [0xA3];

/// The number of payload bytes in a frame.
pub const BUFFER_LENGTH: usize = 7;

/// The number of bytes in a frame.
pub const FRAME_LENGTH: usize = 9;

/// `rx` starts with [`STX`] and ends with [`ETX`].
pub open spec fn is_aligned(rx: Seq<u8>) -> bool {
    &&& forall|i: int| 0 <= i < STX@.len() ==> rx[i] == STX@[i]
    &&& forall|i: int| 0 <= i < ETX@.len() ==> rx[rx.len() - ETX@.len() + i] == ETX@[i]
}

/// The payload of a received frame, or `None` where the frame is out of step
/// (it does not start with [`STX`] or does not end with [`ETX`]).
pub fn frame_payload(rx_buf: &[u8; 9]) -> (r: Option<[u8; 7]>)
    ensures
        r is Some <==> is_aligned(rx_buf@),
        r matches Some(p) ==> p@ == rx_buf@.subrange(1, 8),
{
    let mut misalignment = false;
    if rx_buf[0] != STX[0] {
        misalignment = true;
    }
    if rx_buf[FRAME_LENGTH - 1] != ETX[0] {
        misalignment = true;
    }
    if misalignment {
        return None;
    }
    let p = [rx_buf[1], rx_buf[2], rx_buf[3], rx_buf[4], rx_buf[5], rx_buf[6], rx_buf[7]];
    assert(p@ =~= rx_buf@.subrange(1, 8));
    Some(p)
}

/// One byte of resynchronisation: `etx_index` end-marker bytes have been
/// matched so far, and `read` is the byte read (`None` on a read error).
/// Returns the new count and whether the whole end marker has been seen.
pub fn resync_step(etx_index: usize, read: Option<u8>) -> (r: (usize, bool))
    requires
        etx_index < ETX@.len(),
    ensures
        r.0 == if read == Some(ETX@[etx_index as int]) {
            etx_index + 1
        } else {
            0
        },
        r.1 == (r.0 == ETX@.len()),
        r.0 <= ETX@.len(),
{
    let next = match read {
        Some(v) => if v == ETX[etx_index] {
            etx_index + 1
        } else {
            0
        },
        None => 0,
    };
    (next, next == ETX.len())
}

} // verus!
