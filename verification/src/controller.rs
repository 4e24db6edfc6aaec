//! The controller's state and its two duties: answering the Switch's output
//! reports, and sending the periodic input report (`0x30`) once connected.
//!
//! The USB plumbing around these (polling the device, reading output
//! reports, sending input reports, the timer) lives outside the library;
//! what is decided here is which bytes go out and how the state changes.
use vstd::prelude::*;

use crate::frame::{frame_as_slice, frame_extend, frame_new, frame_push, input_report_as_slice};
use crate::input::{kept_line, report_of, ProControllerInput};
use crate::response::{get_response, response_for, Error};

verus! {

/// The size of a USB HID report.
pub const REPORT_LEN: usize = 64;

/// The controller: what it currently reports, and whether the Switch has
/// completed the USB handshake.
pub struct ControllerState {
    pub input: ProControllerInput,
    pub connected: bool,
}

/// `bytes` padded with zeros to a whole 64-byte report.
pub open spec fn padded_report(bytes: Seq<u8>) -> Seq<u8> {
    bytes + Seq::new((REPORT_LEN - bytes.len()) as nat, |i: int| 0u8)
}

/// The timer byte that goes into reports: milliseconds, from a microsecond
/// tick count, modulo 255.
pub fn counter_from_ticks(ticks: u64) -> (c: u8)
    ensures
        c == (ticks / 1000) % 255,
{
    ((ticks / 1000) % 255) as u8
}

/// The controller as it starts: nothing pressed (an empty action line) and
/// not connected.
pub fn init() -> (s: ControllerState)
    ensures
        s.input.spec_action_line() == Some(Seq::<char>::empty()),
        s.input.spec_uart_buffer() is None,
        !s.connected,
{
    proof {
        reveal_strlit("");
    }
    let input = ProControllerInput::create_by_action("");
    assert(crate::text::trim(Seq::<char>::empty()) =~= Seq::<char>::empty());
    ControllerState { input, connected: false }
}

/// Makes the controller report the action line `input_line`.
pub fn set_input(state: &mut ControllerState, input_line: &str)
    ensures
        final(state).input.spec_action_line() == Some(kept_line(input_line@)),
        final(state).input.spec_uart_buffer() is None,
        final(state).connected == old(state).connected,
{
    state.input = ProControllerInput::create_by_action(input_line);
}

/// Makes the controller report the action line `input_line` (see
/// [`set_input`]).
pub fn set_input_line(state: &mut ControllerState, input_line: &str)
    ensures
        final(state).input.spec_action_line() == Some(kept_line(input_line@)),
        final(state).input.spec_uart_buffer() is None,
        final(state).connected == old(state).connected,
{
    set_input(state, input_line);
}

/// Makes the controller report the UART frame `uart_buffer`, whose stick
/// byte pairs project onto the stick's circle at `left_point` and
/// `right_point`.
pub fn set_input_uart_buffer(
    state: &mut ControllerState,
    uart_buffer: [u8; 7],
    left_point: (i32, i32),
    right_point: (i32, i32),
)
    ensures
        final(state).input.spec_action_line() is None,
        final(state).input.spec_uart_buffer() == Some(uart_buffer),
        final(state).input.spec_uart_points() == (left_point, right_point),
        final(state).connected == old(state).connected,
{
    state.input = ProControllerInput::create_by_uart_buffer(uart_buffer, left_point, right_point);
}

/// Copies `bytes` into a fresh 64-byte report, zero-padded.
fn pad_report(bytes: &[u8]) -> (r: Vec<u8>)
    requires
        bytes@.len() <= REPORT_LEN,
    ensures
        r@ == padded_report(bytes@),
{
    let mut r: Vec<u8> = Vec::new();
    let mut i: usize = 0;
    while i < REPORT_LEN
        invariant
            0 <= i <= REPORT_LEN,
            bytes@.len() <= REPORT_LEN,
            r@.len() == i,
            forall|k: int| 0 <= k < i ==> r@[k] == padded_report(bytes@)[k],
        decreases REPORT_LEN - i,
    {
        if i < bytes.len() {
            r.push(bytes[i]);
        } else {
            r.push(0);
        }
        i = i + 1;
    }
    assert(r@ =~= padded_report(bytes@));
    r
}

/// The periodic input report: `0x30`, the timer byte and the 11-byte input
/// report, padded to 64 bytes.
pub open spec fn standard_report(state: &ControllerState, counter: u8) -> Seq<u8> {
    padded_report(seq![0x30u8, counter] + report_of(state.input.state()))
}

/// One pass of the report loop: the input report to send now, which exists
/// only once the Switch has connected.
pub fn start(state: &ControllerState, counter: u8) -> (r: Option<Vec<u8>>)
    requires
        state.input.report_defined(),
    ensures
        match r {
            Some(report) => state.connected && report@ == standard_report(state, counter),
            None => !state.connected,
        },
{
    if !state.connected {
        return None;
    }
    let mut frame = frame_new();
    let _ = frame_push(&mut frame, 0x30);
    let _ = frame_push(&mut frame, counter);
    let input = state.input.buffer();
    let _ = frame_extend(&mut frame, input_report_as_slice(&input));
    let bytes = frame_as_slice(&frame);
    assert(bytes@ =~= seq![0x30u8, counter] + report_of(state.input.state()));
    Some(pad_report(bytes))
}

/// The connection state after an answer with `status` (1: the host
/// connected, 2: the host disconnected; both leave the controller sending).
pub open spec fn connected_after(connected: bool, status: u8) -> bool {
    connected || status == 1 || status == 2
}

/// Once connected, the controller stays connected.
pub proof fn lemma_connection_kept(connected: bool, status: u8)
    ensures
        connected ==> connected_after(connected, status),
{
}

/// The handshake commands `0x80 0x04` and `0x80 0x05` are answered with
/// status 1 and 2 and no bytes, and leave the controller connected.
pub proof fn lemma_handshake_connects(recv: Seq<u8>, input: Seq<u8>, counter: u8, connected: bool)
    requires
        recv.len() >= 2,
        recv[0] == 0x80,
        recv[1] == 0x04 || recv[1] == 0x05,
    ensures
        response_for(recv, input, counter) matches Ok((status, bytes)) && bytes.len() == 0
            && status == recv[1] - 3 && connected_after(connected, status),
{
}

/// Handles the output report `recv` (one whole 64-byte report): updates the
/// connection state and returns the answer's status (0 where the report is
/// not answered) and the reply to send, if any.
pub fn on_output_report(state: &mut ControllerState, recv: &[u8; 64], counter: u8) -> (r: (
    u8,
    Option<Vec<u8>>,
))
    requires
        old(state).input.report_defined(),
    ensures
        final(state).input == old(state).input,
        match response_for(recv@, report_of(old(state).input.state()), counter) {
            Ok((status, bytes)) => {
                &&& r.0 == status
                &&& final(state).connected == connected_after(old(state).connected, status)
                &&& (r.1 is Some <==> status == 0 && bytes.len() > 0)
                &&& r.1 matches Some(reply) ==> reply@ == padded_report(bytes)
            },
            Err(_) => r.0 == 0 && final(state).connected == old(state).connected && r.1 is None,
        },
{
    let input = state.input.buffer();
    let mut response: Vec<u8> = pad_report(&[]);
    let mut status: u8 = 0;
    let mut sent_len: usize = 0;
    match get_response(recv, input_report_as_slice(&input), counter, response.as_mut_slice()) {
        Ok((st, count)) => {
            sent_len = count;
            status = st;
        },
        Err(Error::InvalidDataError) => {},
        Err(_) => {},
    }
    if status == 1 || status == 2 {
        state.connected = true;
    }
    if sent_len == 0 {
        return (status, None);
    }
    if status == 0 {
        (status, Some(response))
    } else {
        (status, None)
    }
}

} // verus!
