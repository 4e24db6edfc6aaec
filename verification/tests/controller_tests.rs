use pro_controller::controller::{
    counter_from_ticks, init, on_output_report, set_input, set_input_line, set_input_uart_buffer,
    start,
};

fn output_report(prefix: &[u8]) -> [u8; 64] {
    let mut r = [0u8; 64];
    r[..prefix.len()].copy_from_slice(prefix);
    r
}

#[test]
fn counter_is_milliseconds_modulo_255() {
    assert_eq!(counter_from_ticks(0), 0);
    assert_eq!(counter_from_ticks(999), 0);
    assert_eq!(counter_from_ticks(254_999), 254);
    assert_eq!(counter_from_ticks(255_000), 0);
    assert_eq!(counter_from_ticks(1_000_000), 235);
}

#[test]
fn nothing_is_sent_before_the_handshake() {
    let state = init();
    assert!(!state.connected);
    assert!(start(&state, 3).is_none());
}

#[test]
fn handshake_connects_and_reports_start() {
    let mut state = init();
    assert_eq!(on_output_report(&mut state, &output_report(&[0x80, 0x04]), 0), (1, None));
    assert!(state.connected);
    set_input_line(&mut state, "A|LSTICK@127,127");
    let report = start(&state, 9).unwrap();
    assert_eq!(report.len(), 64);
    assert_eq!(&report[..6], &[0x30, 9, 0x81, 0x08, 0x00, 0x00]);
    assert_eq!(&report[6..9], &[0xf0, 0x0f, 0x01]);
    assert!(report[13..].iter().all(|b| *b == 0));
}

#[test]
fn disconnect_command_also_leaves_the_controller_sending() {
    let mut state = init();
    assert_eq!(on_output_report(&mut state, &output_report(&[0x80, 0x05]), 0), (2, None));
    assert!(state.connected);
}

#[test]
fn connection_is_kept_after_invalid_reports() {
    let mut state = init();
    on_output_report(&mut state, &output_report(&[0x80, 0x04]), 0);
    assert_eq!(on_output_report(&mut state, &output_report(&[0x42]), 0), (0, None));
    assert!(state.connected);
}

#[test]
fn subcommand_reply_is_sent_with_current_input() {
    let mut state = init();
    set_input(&mut state, "b");
    let mut recv = [0u8; 64];
    recv[0] = 0x01;
    recv[10] = 0x04;
    let (status, reply) = on_output_report(&mut state, &recv, 17);
    assert_eq!(status, 0);
    let reply = reply.unwrap();
    assert_eq!(reply.len(), 64);
    assert_eq!(&reply[..3], &[0x21, 17, 0x81]);
    assert_eq!(reply[3], 0x04);
    assert_eq!(&reply[13..15], &[0x83, 0x04]);
    assert!(reply[15..].iter().all(|b| *b == 0));
    assert!(!state.connected);
}

#[test]
fn handshake_reply_is_sent() {
    let mut state = init();
    let reply = on_output_report(&mut state, &output_report(&[0x80, 0x02]), 0).1.unwrap();
    assert_eq!(&reply[..3], &[0x81, 0x02, 0x00]);
    assert!(!state.connected);
}

#[test]
fn uart_input_replaces_the_action_line() {
    let mut state = init();
    on_output_report(&mut state, &output_report(&[0x80, 0x04]), 0);
    set_input_line(&mut state, "A");
    set_input_uart_buffer(&mut state, [0, 0x10, 0, 0x80, 0x80, 0x80, 0x80], (0, 0), (0, 0));
    let report = start(&state, 0).unwrap();
    assert_eq!(&report[2..13], &[0x81, 0x00, 0x10, 0x00, 0x00, 0x08, 0x80, 0x00, 0x08, 0x80, 0x00]);
}
