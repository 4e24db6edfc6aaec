//! Answers to the output reports that the Switch sends to the controller.
//!
//! An output report starting with `0x80` is a USB handshake command; one
//! starting with `0x01` carries a rumble packet and a subcommand (byte 10),
//! which is answered by an input report `0x21` that echoes the current input
//! state and then the subcommand's reply.
use vstd::prelude::*;

use crate::frame::{frame_as_slice, frame_bytes, frame_extend, frame_new, frame_push, Frame, FRAME_CAPACITY};

verus! {

/// Why an output report could not be answered.
#[derive(Clone, Debug, PartialEq, Eq, Structural)]
pub enum Error {
    /// The report is not one that this controller knows how to answer.
    InvalidDataError,
    /// Any other failure.
    UnknownError,
}

impl Default for Error {
    fn default() -> (e: Self)
        ensures
            e == Error::UnknownError,
    {
        Error::UnknownError
    }
}

/// The result of answering an output report.
pub type Result<T> = core::result::Result<T, Error>;

/// SPI flash page `0x60`, addresses `0x00..0xB0`: serial number, device type,
/// colours, factory calibration of the motion sensor and the sticks.
pub const SWITCH_PRO_SPI_MAP_0X60: [u8; 176] = [
    0x00, 0x00, 0x00, 0x00, 0x00, 0x00, 0x00, 0x00, 0x00, 0x00, 0x00, 0x00, 0x00, 0x00, 0x00, 0x01,
    0xff, 0xff, 0x03, 0xa0, 0xff, 0xff, 0xff, 0xff, 0xff, 0xff, 0xff, 0xff, 0xff, 0xff, 0xff, 0xff,
    0x09, 0x01, 0x18, 0xFF, 0xED, 0xFF, 0x00, 0x40, 0x00, 0x40, 0x00, 0x40, 0xFA, 0xFF, 0xD0, 0xFF,
    0xC7, 0xFF, 0x3B, 0x34, 0x3B, 0x34, 0x3B, 0x34, 0xff, 0xff, 0xff, 0xff, 0xff, 0xff, 0xff, 0xff,
    0xff, 0xff, 0xff, 0xff, 0xff, 0xff, 0xff, 0xff, 0xff, 0xff, 0xff, 0xff, 0xff, 0xff, 0xff, 0xff,
    0xbc, 0x11, 0x42, 0x75, 0xa9, 0x28, 0xff, 0xff, 0xff, 0xff, 0xff, 0xff, 0xff, 0xff, 0xff, 0xff,
    0xff, 0xff, 0xff, 0xff, 0xff, 0xff, 0xff, 0xff, 0xff, 0xff, 0xff, 0xff, 0xff, 0xff, 0xff, 0xff,
    0xff, 0xff, 0xff, 0xff, 0xff, 0xff, 0xff, 0xff, 0xff, 0xff, 0xff, 0xff, 0xff, 0xff, 0xff, 0xff,
    0x50, 0xFD, 0x00, 0x00, 0xC6, 0x0F, 0x00, 0x40, 0x00, 0x40, 0x00, 0x40, 0xFA, 0xFF, 0xD0, 0xFF,
    0xC7, 0xFF, 0x3B, 0x34, 0x3B, 0x34, 0x3B, 0x34, 0x00, 0x00, 0x00, 0x00, 0x00, 0x00, 0x00, 0x00,
    0x00, 0x00, 0x00, 0x00, 0x00, 0x00, 0x00, 0x00, 0x00, 0x00, 0xff, 0xff, 0xff, 0xff, 0xff, 0xff,
];

/// SPI flash page `0x80`, addresses `0x00..0x40`: user calibration (none set).
pub const SWITCH_PRO_SPI_MAP_0X80: [u8; 64] = [
    0xff, 0xff, 0xff, 0xff, 0xff, 0xff, 0xff, 0xff, 0xff, 0xff, 0xff, 0xff, 0xff, 0xff, 0xff, 0xff,
    0xff, 0xff, 0xff, 0xff, 0xff, 0xff, 0xff, 0xff, 0xff, 0xff, 0xff, 0xff, 0xff, 0xff, 0xff, 0xff,
    0xff, 0xff, 0xff, 0xff, 0xff, 0xff, 0xff, 0xff, 0xff, 0xff, 0xff, 0xff, 0xff, 0xff, 0xff, 0xff,
    0xff, 0xff, 0xff, 0xff, 0xff, 0xff, 0xff, 0xff, 0xff, 0xff, 0xff, 0xff, 0xff, 0xff, 0xff, 0xff,
];

/// Reply to subcommand `0x00` (get only controller state).
pub const SWITCH_PRO_SUBCOMMAND_0X00: [u8; 3] = [0x81, 0x00, 0x03];

/// Reply to subcommand `0x01` (Bluetooth manual pairing).
pub const SWITCH_PRO_SUBCOMMAND_0X01: [u8; 3] = [0x81, 0x01, 0x03];

/// Reply to subcommand `0x02` (request device info): firmware 4.33, Pro
/// Controller, MAC address 00:00:5e:00:53:5e, colours taken from SPI.
pub const SWITCH_PRO_SUBCOMMAND_0X02: [u8; 14] = [
    0x82, 0x02, 0x04, 0x21, 0x03, 0x02, 0x00, 0x00, 0x5e, 0x00, 0x53, 0x5e, 0x01, 0x01,
];

/// Acknowledgement byte for the subcommands that are only acknowledged.
pub const SWITCH_PRO_SUBCOMMAND_0X03: [u8; 2] = [0x80, 0x03];

/// Reply to subcommand `0x04` (trigger buttons elapsed time).
pub const SWITCH_PRO_SUBCOMMAND_0X04: [u8; 2] = [0x83, 0x04];

/// Reply to subcommand `0x21` (set NFC/IR MCU configuration).
pub const SWITCH_PRO_SUBCOMMAND_0X21: [u8; 10] = [
    0xa0, 0x21, 0x01, 0x00, 0xff, 0x00, 0x08, 0x00, 0x1B, 0x01,
];

/// Reply to subcommand `0x22` (set NFC/IR MCU state).
pub const SWITCH_PRO_SUBCOMMAND_0X22: [u8; 2] = [0x80, 0x22];

/// The subcommands that are answered by a bare acknowledgement
/// `0x80, subcommand`.
pub open spec fn is_acknowledged_subcommand(sub: u8) -> bool {
    sub == 0x03 || sub == 0x33 || sub == 0x08 || sub == 0x30 || sub == 0x38 || sub == 0x40
        || sub == 0x41 || sub == 0x48
}

/// The number of bytes that an SPI flash read of `page`:`addr` returns, or 0
/// where the region is not served.
pub open spec fn spi_read_len(page: u8, addr: u8) -> int {
    if page == 0x80 {
        if addr == 0x10 {
            24
        } else {
            0
        }
    } else if page == 0x60 {
        if addr == 0x00 {
            16
        } else if addr == 0x20 {
            24
        } else if addr == 0x3d {
            18
        } else if addr == 0x50 {
            12
        } else if addr == 0x80 {
            6
        } else if addr == 0x86 {
            18
        } else if addr == 0x98 {
            18
        } else {
            0
        }
    } else {
        0
    }
}

/// The answer to an SPI flash read (subcommand `0x10`) of `page`:`addr`: the
/// length byte and the bytes stored there, or `None` where the region is not
/// served.
pub open spec fn spi_flash_read(page: u8, addr: u8) -> Option<Seq<u8>> {
    let len = spi_read_len(page, addr);
    if len == 0 {
        None
    } else if page == 0x80 {
        Some(seq![len as u8] + SWITCH_PRO_SPI_MAP_0X80@.subrange(addr as int, addr + len))
    } else {
        Some(seq![len as u8] + SWITCH_PRO_SPI_MAP_0X60@.subrange(addr as int, addr + len))
    }
}

/// The bytes that an output report `0x01` appends after the echoed input
/// state, and whether the subcommand (byte 10) is answered at all. An SPI
/// read of a region that is not served appends its header and then fails.
pub open spec fn subcommand_reply(recv: Seq<u8>) -> (Seq<u8>, bool) {
    let sub = recv[10];
    if sub == 0x00 {
        (SWITCH_PRO_SUBCOMMAND_0X00@, true)
    } else if sub == 0x01 {
        (SWITCH_PRO_SUBCOMMAND_0X01@, true)
    } else if sub == 0x02 {
        (SWITCH_PRO_SUBCOMMAND_0X02@, true)
    } else if is_acknowledged_subcommand(sub) {
        (seq![SWITCH_PRO_SUBCOMMAND_0X03@[0], sub], true)
    } else if sub == 0x04 {
        (SWITCH_PRO_SUBCOMMAND_0X04@, true)
    } else if sub == 0x21 {
        (SWITCH_PRO_SUBCOMMAND_0X21@, true)
    } else if sub == 0x22 {
        (SWITCH_PRO_SUBCOMMAND_0X22@, true)
    } else if sub == 0x10 {
        let header = seq![0x90u8, 0x10u8, recv[11], recv[12], 0x00u8, 0x00u8];
        match spi_flash_read(recv[12], recv[11]) {
            Some(data) => (header + data, true),
            None => (header, false),
        }
    } else {
        (Seq::<u8>::empty(), false)
    }
}

/// What [`get_response`] answers to the output report `recv`, given the
/// current input state `input` and the timer byte `counter`: the status
/// (0: send the bytes, 1: connected, 2: disconnected) and the bytes of the
/// reply.
pub open spec fn response_for(recv: Seq<u8>, input: Seq<u8>, counter: u8) -> Result<
    (u8, Seq<u8>),
> {
    if recv[0] == 0x80 {
        let cmd = recv[1];
        if cmd == 0x01 {
            Ok(
                (
                    0u8,
                    seq![0x81u8, cmd, 0x00u8, 0x03u8] + SWITCH_PRO_SUBCOMMAND_0X02@.subrange(6, 12),
                ),
            )
        } else if cmd == 0x02 || cmd == 0x03 {
            Ok((0u8, seq![0x81u8, cmd]))
        } else if cmd == 0x04 {
            Ok((1u8, Seq::<u8>::empty()))
        } else if cmd == 0x05 {
            Ok((2u8, Seq::<u8>::empty()))
        } else {
            Err(Error::InvalidDataError)
        }
    } else if recv[0] == 0x01 {
        let (body, ok) = subcommand_reply(recv);
        if ok {
            Ok((0u8, seq![0x21u8, counter] + input + body))
        } else {
            Err(Error::InvalidDataError)
        }
    } else {
        Err(Error::InvalidDataError)
    }
}

/// The number of bytes that answering `recv` puts in the report buffer before
/// it finishes or fails.
pub open spec fn assembled_len(recv: Seq<u8>, input: Seq<u8>) -> int {
    if recv[0] == 0x01 {
        (2 + input.len() + subcommand_reply(recv).0.len()) as int
    } else if recv[0] == 0x80 {
        match response_for(recv, input, 0) {
            Ok((_, bytes)) => bytes.len() as int,
            Err(_) => 0,
        }
    } else {
        0
    }
}

/// The inputs on which [`get_response`] runs to its end: `recv` holds the
/// bytes that its command reads, the assembled reply fits in one 64-byte
/// report, and `response` can take the reply.
pub open spec fn response_defined(recv: Seq<u8>, input: Seq<u8>, response_len: int) -> bool {
    &&& recv.len() >= 1
    &&& recv[0] == 0x80 ==> recv.len() >= 2
    &&& recv[0] == 0x01 ==> recv.len() >= 11 && (recv[10] == 0x10 ==> recv.len() >= 13)
    &&& assembled_len(recv, input) <= 64
    &&& response_for(recv, input, 0) matches Ok((_, bytes)) ==> bytes.len() <= response_len
}

/// Every answered output report `0x01` is an input report `0x21`: the timer
/// byte, then the current input state unchanged, then the subcommand's reply.
pub proof fn lemma_reply_echoes_input(recv: Seq<u8>, input: Seq<u8>, counter: u8)
    requires
        recv.len() >= 11,
        recv[0] == 0x01,
        response_for(recv, input, counter) is Ok,
    ensures
        response_for(recv, input, counter) matches Ok((status, bytes)) && status == 0
            && bytes.len() == 2 + input.len() + subcommand_reply(recv).0.len() && bytes[0] == 0x21
            && bytes[1] == counter && bytes.subrange(2, (2 + input.len()) as int) == input
            && bytes.skip((2 + input.len()) as int) == subcommand_reply(recv).0,
{
    let bytes = seq![0x21u8, counter] + input + subcommand_reply(recv).0;
    assert(bytes.subrange(2, (2 + input.len()) as int) =~= input);
    assert(bytes.skip((2 + input.len()) as int) =~= subcommand_reply(recv).0);
}

/// A served SPI flash read answers its length first and then exactly that
/// many bytes of the page, starting at the address read; it never reaches
/// past the end of the page.
pub proof fn lemma_spi_read_within_page(page: u8, addr: u8)
    ensures
        spi_flash_read(page, addr) matches Some(data) ==> {
            let len = spi_read_len(page, addr);
            let table = if page == 0x80 {
                SWITCH_PRO_SPI_MAP_0X80@
            } else {
                SWITCH_PRO_SPI_MAP_0X60@
            };
            &&& 0 < len <= 24
            &&& addr + len <= table.len()
            &&& data.len() == len + 1
            &&& data[0] == len
            &&& data.skip(1) == table.subrange(addr as int, addr + len)
        },
{
    if let Some(data) = spi_flash_read(page, addr) {
        let len = spi_read_len(page, addr);
        if page == 0x80 {
            assert(data.skip(1) =~= SWITCH_PRO_SPI_MAP_0X80@.subrange(addr as int, addr + len));
        } else {
            assert(data.skip(1) =~= SWITCH_PRO_SPI_MAP_0X60@.subrange(addr as int, addr + len));
        }
    }
}

/// The SPI flash regions that are served, each with its length: serial
/// number 0x6000 (16 bytes), motion sensor calibration 0x6020 (24), left
/// stick calibration 0x603d (18), colours 0x6050 (12), motion sensor offsets
/// 0x6080 (6), stick parameters 0x6086 and 0x6098 (18 each), user
/// calibration 0x8010 (24). No other read is served.
pub proof fn lemma_spi_served_regions(page: u8, addr: u8)
    ensures
        spi_flash_read(0x60, 0x00) == Some(
            seq![16u8] + SWITCH_PRO_SPI_MAP_0X60@.subrange(0x00, 0x10),
        ),
        spi_flash_read(0x60, 0x20) == Some(
            seq![24u8] + SWITCH_PRO_SPI_MAP_0X60@.subrange(0x20, 0x38),
        ),
        spi_flash_read(0x60, 0x3d) == Some(
            seq![18u8] + SWITCH_PRO_SPI_MAP_0X60@.subrange(0x3d, 0x4f),
        ),
        spi_flash_read(0x60, 0x50) == Some(
            seq![12u8] + SWITCH_PRO_SPI_MAP_0X60@.subrange(0x50, 0x5c),
        ),
        spi_flash_read(0x60, 0x80) == Some(
            seq![6u8] + SWITCH_PRO_SPI_MAP_0X60@.subrange(0x80, 0x86),
        ),
        spi_flash_read(0x60, 0x86) == Some(
            seq![18u8] + SWITCH_PRO_SPI_MAP_0X60@.subrange(0x86, 0x98),
        ),
        spi_flash_read(0x60, 0x98) == Some(
            seq![18u8] + SWITCH_PRO_SPI_MAP_0X60@.subrange(0x98, 0xaa),
        ),
        spi_flash_read(0x80, 0x10) == Some(
            seq![24u8] + SWITCH_PRO_SPI_MAP_0X80@.subrange(0x10, 0x28),
        ),
        spi_flash_read(page, addr) is Some ==> (page == 0x60 && (addr == 0x00 || addr == 0x20
            || addr == 0x3d || addr == 0x50 || addr == 0x80 || addr == 0x86 || addr == 0x98)) || (
        page == 0x80 && addr == 0x10),
{
}

/// A served SPI read is answered, after the echoed input, by the read's
/// header (`0x90 0x10`, address, page, two zero bytes), the length and the
/// page's bytes at the address.
pub proof fn lemma_spi_read_reply(recv: Seq<u8>, input: Seq<u8>, counter: u8)
    requires
        recv.len() >= 13,
        recv[0] == 0x01,
        recv[10] == 0x10,
        spi_flash_read(recv[12], recv[11]) is Some,
    ensures
        response_for(recv, input, counter) == Ok::<(u8, Seq<u8>), Error>(
            (
                0u8,
                seq![0x21u8, counter] + input + seq![0x90u8, 0x10u8, recv[11], recv[12], 0u8, 0u8]
                    + spi_flash_read(recv[12], recv[11])->0,
            ),
        ),
{
    let header = seq![0x90u8, 0x10u8, recv[11], recv[12], 0u8, 0u8];
    let data = spi_flash_read(recv[12], recv[11])->0;
    assert(subcommand_reply(recv).0 == header + data);
    assert(seq![0x21u8, counter] + input + (header + data) =~= seq![0x21u8, counter] + input
        + header + data);
}

/// Appends the reply to the subcommand of `recv` (byte 10) to `frame`.
/// Returns whether the subcommand is answered; `frame` then holds the reply's
/// bytes after what it held before (for an SPI read of a region that is not
/// served, only the read's header).
fn append_subcommand_reply(frame: &mut Frame, recv: &[u8]) -> (ok: bool)
    requires
        recv@.len() >= 11,
        recv@[10] == 0x10 ==> recv@.len() >= 13,
        frame_bytes(*old(frame)).len() + subcommand_reply(recv@).0.len() <= FRAME_CAPACITY,
    ensures
        ok == subcommand_reply(recv@).1,
        frame_bytes(*final(frame)) == frame_bytes(*old(frame)) + subcommand_reply(recv@).0,
{
    let sub = recv[10];
    match sub {
        0x00 => {
            let _ = frame_extend(frame, &SWITCH_PRO_SUBCOMMAND_0X00);
        },
        0x01 => {
            let _ = frame_extend(frame, &SWITCH_PRO_SUBCOMMAND_0X01);
        },
        0x02 => {
            let _ = frame_extend(frame, &SWITCH_PRO_SUBCOMMAND_0X02);
        },
        0x03 | 0x33 | 0x08 | 0x30 | 0x38 | 0x40 | 0x41 | 0x48 => {
            let _ = frame_push(frame, SWITCH_PRO_SUBCOMMAND_0X03[0]);
            let _ = frame_push(frame, sub);
        },
        0x04 => {
            let _ = frame_extend(frame, &SWITCH_PRO_SUBCOMMAND_0X04);
        },
        0x21 => {
            let _ = frame_extend(frame, &SWITCH_PRO_SUBCOMMAND_0X21);
        },
        0x22 => {
            let _ = frame_extend(frame, &SWITCH_PRO_SUBCOMMAND_0X22);
        },
        0x10 => {
            let _ = frame_extend(frame, &[0x90, 0x10]);
            let _ = frame_extend(frame, &recv[11..13]);
            let _ = frame_extend(frame, &[0x00, 0x00]);
            return append_spi_flash_read(frame, recv[12], recv[11]);
        },
        _ => {
            return false;
        },
    }
    true
}

/// Appends the answer to an SPI flash read of `page`:`addr` to `frame`;
/// returns `false`, leaving `frame` as it was, where the region is not
/// served.
fn append_spi_flash_read(frame: &mut Frame, page: u8, addr: u8) -> (ok: bool)
    requires
        spi_flash_read(page, addr) matches Some(data) ==> frame_bytes(*old(frame)).len()
            + data.len() <= FRAME_CAPACITY,
    ensures
        ok == spi_flash_read(page, addr) is Some,
        frame_bytes(*final(frame)) == match spi_flash_read(page, addr) {
            Some(data) => frame_bytes(*old(frame)) + data,
            None => frame_bytes(*old(frame)),
        },
{
    let len: u8 = if page == 0x80 {
        if addr == 0x10 {
            24
        } else {
            0
        }
    } else if page == 0x60 {
        match addr {
            0x00 => 16,
            0x20 => 24,
            0x3d => 18,
            0x50 => 12,
            0x80 => 6,
            0x86 => 18,
            0x98 => 18,
            _ => 0,
        }
    } else {
        0
    };
    if len == 0 {
        return false;
    }
    let start = addr as usize;
    let end = addr as usize + len as usize;
    let _ = frame_push(frame, len);
    if page == 0x80 {
        let _ = frame_extend(frame, &SWITCH_PRO_SPI_MAP_0X80[start..end]);
    } else {
        let _ = frame_extend(frame, &SWITCH_PRO_SPI_MAP_0X60[start..end]);
    }
    assert(frame_bytes(*frame) =~= match spi_flash_read(page, addr) {
        Some(data) => frame_bytes(*old(frame)) + data,
        None => frame_bytes(*old(frame)),
    });
    true
}

/// Answers the output report `recv`. `input` is the current input state (the
/// 11 bytes that [`crate::input::ProControllerInput::buffer`] gives) and
/// `counter` the timer byte. On `Ok((status, n))` the first `n` bytes of
/// `response` hold the reply, and `status` says whether to send it (0), or
/// that the host connected (1) or disconnected (2).
pub fn get_response(recv: &[u8], input_buffer: &[u8], counter: u8, response: &mut [u8]) -> (r:
    Result<(u8, usize)>)
    requires
        response_defined(recv@, input_buffer@, old(response)@.len() as int),
    ensures
        match response_for(recv@, input_buffer@, counter) {
            Ok((status, bytes)) => r == Ok::<(u8, usize), Error>((status, bytes.len() as usize))
                && final(response)@ == bytes + old(response)@.skip(bytes.len() as int),
            Err(e) => r == Err::<(u8, usize), Error>(e) && final(response)@ == old(response)@,
        },
{
    let mut frame = frame_new();
    let first = recv[0];
    if first == 0x80 {
        let cmd = recv[1];
        match cmd {
            0x01 => {
                let _ = frame_extend(&mut frame, &[0x81, cmd]);
                let _ = frame_extend(&mut frame, &[0x00, 0x03]);
                let _ = frame_extend(&mut frame, &SWITCH_PRO_SUBCOMMAND_0X02[6..12]);
                assert(frame_bytes(frame) =~= seq![0x81u8, cmd, 0x00u8, 0x03u8]
                    + SWITCH_PRO_SUBCOMMAND_0X02@.subrange(6, 12));
            },
            0x02 | 0x03 => {
                let _ = frame_extend(&mut frame, &[0x81, cmd]);
                assert(frame_bytes(frame) =~= seq![0x81u8, cmd]);
            },
            0x04 => {
                return Ok((1, 0));
            },
            0x05 => {
                return Ok((2, 0));
            },
            _ => {
                return Err(Error::InvalidDataError);
            },
        }
    } else if first == 0x01 {
        let _ = frame_push(&mut frame, 0x21);
        let _ = frame_push(&mut frame, counter);
        let _ = frame_extend(&mut frame, input_buffer);
        assert(frame_bytes(frame) =~= seq![0x21u8, counter] + input_buffer@);
        if !append_subcommand_reply(&mut frame, recv) {
            return Err(Error::InvalidDataError);
        }
    } else {
        return Err(Error::InvalidDataError);
    }
    let bytes = frame_as_slice(&frame);
    let n = bytes.len();
    assert(response_for(recv@, input_buffer@, counter) == Ok::<(u8, Seq<u8>), Error>((0u8, bytes@)));
    let mut i: usize = 0;
    while i < n
        invariant
            0 <= i <= n,
            n == bytes@.len(),
            n <= old(response)@.len(),
            response@.len() == old(response)@.len(),
            forall|j: int| 0 <= j < i ==> response@[j] == bytes@[j],
            forall|j: int| i <= j < response@.len() ==> response@[j] == old(response)@[j],
        decreases n - i,
    {
        response[i] = bytes[i];
        i = i + 1;
    }
    assert(response@ =~= bytes@ + old(response)@.skip(n as int));
    Ok((0, n))
}

} // verus!
