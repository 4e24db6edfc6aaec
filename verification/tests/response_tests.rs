use pro_controller::response::{
    get_response, Error, SWITCH_PRO_SPI_MAP_0X60, SWITCH_PRO_SPI_MAP_0X80,
    SWITCH_PRO_SUBCOMMAND_0X02, SWITCH_PRO_SUBCOMMAND_0X21,
};

const INPUT: [u8; 11] = [0x81, 0x08, 0x00, 0x00, 0x00, 0x08, 0x80, 0x00, 0x08, 0x80, 0x00];

fn report(prefix: &[u8]) -> [u8; 64] {
    let mut r = [0u8; 64];
    r[..prefix.len()].copy_from_slice(prefix);
    r
}

fn subcommand(sub: u8, arg0: u8, arg1: u8) -> [u8; 64] {
    let mut r = [0u8; 64];
    r[0] = 0x01;
    r[10] = sub;
    r[11] = arg0;
    r[12] = arg1;
    r
}

#[test]
fn handshake_status_reports_mac_address() {
    let mut out = [0xeeu8; 64];
    let r = get_response(&report(&[0x80, 0x01]), &INPUT, 7, &mut out);
    assert_eq!(r, Ok((0, 10)));
    assert_eq!(&out[..10], &[0x81, 0x01, 0x00, 0x03, 0x00, 0x00, 0x5e, 0x00, 0x53, 0x5e]);
    assert!(out[10..].iter().all(|b| *b == 0xee));
}

#[test]
fn handshake_baud_and_handshake_are_echoed() {
    for cmd in [0x02u8, 0x03] {
        let mut out = [0u8; 64];
        let r = get_response(&report(&[0x80, cmd]), &INPUT, 0, &mut out);
        assert_eq!(r, Ok((0, 2)));
        assert_eq!(&out[..2], &[0x81, cmd]);
    }
}

#[test]
fn handshake_connect_and_disconnect_write_nothing() {
    let mut out = [0x55u8; 64];
    assert_eq!(get_response(&report(&[0x80, 0x04]), &INPUT, 0, &mut out), Ok((1, 0)));
    assert_eq!(get_response(&report(&[0x80, 0x05]), &INPUT, 0, &mut out), Ok((2, 0)));
    assert!(out.iter().all(|b| *b == 0x55));
}

#[test]
fn unknown_handshake_is_invalid_data() {
    let mut out = [0x55u8; 64];
    let r = get_response(&report(&[0x80, 0x06]), &INPUT, 0, &mut out);
    assert_eq!(r, Err(Error::InvalidDataError));
    assert!(out.iter().all(|b| *b == 0x55));
}

#[test]
fn unknown_report_is_invalid_data() {
    let mut out = [0x55u8; 64];
    let r = get_response(&report(&[0x10]), &INPUT, 0, &mut out);
    assert_eq!(r, Err(Error::InvalidDataError));
    assert!(out.iter().all(|b| *b == 0x55));
}

#[test]
fn error_default_is_unknown_error() {
    assert_eq!(Error::default(), Error::UnknownError);
}

#[test]
fn device_info_reply_echoes_input_state() {
    let mut out = [0u8; 64];
    let r = get_response(&subcommand(0x02, 0, 0), &INPUT, 42, &mut out);
    assert_eq!(r, Ok((0, 2 + 11 + 14)));
    assert_eq!(out[0], 0x21);
    assert_eq!(out[1], 42);
    assert_eq!(&out[2..13], &INPUT);
    assert_eq!(&out[13..27], &SWITCH_PRO_SUBCOMMAND_0X02);
    assert!(out[27..].iter().all(|b| *b == 0));
}

#[test]
fn simple_subcommand_replies() {
    let cases: [(u8, &[u8]); 5] = [
        (0x00, &[0x81, 0x00, 0x03]),
        (0x01, &[0x81, 0x01, 0x03]),
        (0x04, &[0x83, 0x04]),
        (0x21, &SWITCH_PRO_SUBCOMMAND_0X21),
        (0x22, &[0x80, 0x22]),
    ];
    for (sub, reply) in cases {
        let mut out = [0u8; 64];
        let r = get_response(&subcommand(sub, 0, 0), &INPUT, 1, &mut out);
        assert_eq!(r, Ok((0, 13 + reply.len())));
        assert_eq!(&out[13..13 + reply.len()], reply);
    }
}

#[test]
fn acknowledged_subcommands_echo_their_number() {
    for sub in [0x03u8, 0x33, 0x08, 0x30, 0x38, 0x40, 0x41, 0x48] {
        let mut out = [0u8; 64];
        let r = get_response(&subcommand(sub, 0, 0), &INPUT, 1, &mut out);
        assert_eq!(r, Ok((0, 15)));
        assert_eq!(&out[13..15], &[0x80, sub]);
    }
}

#[test]
fn unknown_subcommand_is_invalid_data() {
    let mut out = [0x77u8; 64];
    let r = get_response(&subcommand(0x05, 0, 0), &INPUT, 1, &mut out);
    assert_eq!(r, Err(Error::InvalidDataError));
    assert!(out.iter().all(|b| *b == 0x77));
}

#[test]
fn spi_read_of_serial_number_region() {
    let mut out = [0u8; 64];
    let r = get_response(&subcommand(0x10, 0x00, 0x60), &INPUT, 1, &mut out);
    assert_eq!(r, Ok((0, 13 + 6 + 1 + 16)));
    assert_eq!(&out[13..19], &[0x90, 0x10, 0x00, 0x60, 0x00, 0x00]);
    assert_eq!(out[19], 16);
    assert_eq!(&out[20..36], &SWITCH_PRO_SPI_MAP_0X60[0..16]);
}

#[test]
fn spi_read_of_stick_calibration() {
    let mut out = [0u8; 64];
    let r = get_response(&subcommand(0x10, 0x3d, 0x60), &INPUT, 1, &mut out);
    assert_eq!(r, Ok((0, 13 + 6 + 1 + 18)));
    assert_eq!(out[19], 18);
    assert_eq!(&out[20..38], &SWITCH_PRO_SPI_MAP_0X60[0x3d..0x3d + 18]);
    assert!(out[20..38].iter().all(|b| *b == 0xff));
}

#[test]
fn spi_read_of_colours() {
    let mut out = [0u8; 64];
    let r = get_response(&subcommand(0x10, 0x50, 0x60), &INPUT, 1, &mut out);
    assert_eq!(r, Ok((0, 13 + 6 + 1 + 12)));
    assert_eq!(&out[20..26], &[0xbc, 0x11, 0x42, 0x75, 0xa9, 0x28]);
}

#[test]
fn spi_read_at_end_of_factory_page_stays_within_it() {
    let mut out = [0u8; 64];
    let r = get_response(&subcommand(0x10, 0x98, 0x60), &INPUT, 1, &mut out);
    assert_eq!(r, Ok((0, 13 + 6 + 1 + 18)));
    assert_eq!(&out[20..38], &SWITCH_PRO_SPI_MAP_0X60[0x98..0xaa]);
    assert!(0x98 + 18 <= SWITCH_PRO_SPI_MAP_0X60.len());
}

#[test]
fn spi_read_of_user_calibration() {
    let mut out = [0u8; 64];
    let r = get_response(&subcommand(0x10, 0x10, 0x80), &INPUT, 1, &mut out);
    assert_eq!(r, Ok((0, 13 + 6 + 1 + 24)));
    assert_eq!(out[19], 24);
    assert_eq!(&out[20..44], &SWITCH_PRO_SPI_MAP_0X80[0x10..0x28]);
}

#[test]
fn spi_read_of_unserved_region_is_invalid_data() {
    for (addr, page) in [(0x10u8, 0x60u8), (0x00, 0x80), (0x00, 0x70)] {
        let mut out = [0x33u8; 64];
        let r = get_response(&subcommand(0x10, addr, page), &INPUT, 1, &mut out);
        assert_eq!(r, Err(Error::InvalidDataError));
        assert!(out.iter().all(|b| *b == 0x33));
    }
}

#[test]
fn reply_may_fill_the_whole_report() {
    let input = [0xabu8; 31];
    let mut out = [0u8; 64];
    let r = get_response(&subcommand(0x10, 0x10, 0x80), &input, 9, &mut out);
    assert_eq!(r, Ok((0, 64)));
    assert_eq!(&out[2..33], &input);
    assert_eq!(out[39], 24);
}

#[test]
fn reply_only_needs_as_much_room_as_it_takes() {
    let mut out = [0u8; 2];
    let r = get_response(&report(&[0x80, 0x02]), &INPUT, 0, &mut out);
    assert_eq!(r, Ok((0, 2)));
    assert_eq!(out, [0x81, 0x02]);
}
