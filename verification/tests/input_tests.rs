use pro_controller::input::{uart_stick_offsets, ProControllerInput, INPUT0_A, INPUT0_B};

const RELEASED: [u8; 11] = [0x81, 0, 0, 0, 0x00, 0x08, 0x80, 0x00, 0x08, 0x80, 0x00];

fn report_of_line(line: &str) -> Vec<u8> {
    let input = ProControllerInput::create_by_action(line);
    assert!(input.is_reportable());
    input.buffer().to_vec()
}

fn unpack(b0: u8, b1: u8, b2: u8) -> (u32, u32) {
    ((b0 as u32) | (((b1 & 0x0f) as u32) << 8), ((b1 >> 4) as u32) | ((b2 as u32) << 4))
}

#[test]
fn empty_line_reports_nothing_pressed() {
    assert_eq!(report_of_line(""), RELEASED.to_vec());
}

#[test]
fn buttons_accumulate_in_their_bytes() {
    let r = report_of_line("  A|b|HOME|zl|Top ");
    assert_eq!(r.len(), 11);
    assert_eq!(r[0], 0x81);
    assert_eq!(r[1], INPUT0_A | INPUT0_B);
    assert_eq!(r[2], 0b10000);
    assert_eq!(r[3], 0b10000000 | 0b10);
    assert_eq!(&r[4..], &RELEASED[4..]);
}

#[test]
fn every_button_name_sets_its_bit() {
    let names = [
        ("Y", 1, 0x01), ("X", 1, 0x02), ("B", 1, 0x04), ("A", 1, 0x08), ("JCL_SR", 1, 0x10),
        ("JCL_SL", 1, 0x20), ("R", 1, 0x40), ("ZR", 1, 0x80), ("MINUS", 2, 0x01),
        ("PLUS", 2, 0x02), ("LPRESS", 2, 0x04), ("RPRESS", 2, 0x08), ("HOME", 2, 0x10),
        ("CAPTURE", 2, 0x20), ("BOTTOM", 3, 0x01), ("TOP", 3, 0x02), ("RIGHT", 3, 0x04),
        ("LEFT", 3, 0x08), ("JCR_SR", 3, 0x10), ("JCR_SL", 3, 0x20), ("L", 3, 0x40),
        ("ZL", 3, 0x80),
    ];
    for (name, byte, bit) in names {
        let r = report_of_line(name);
        let mut want = RELEASED;
        want[byte] = bit;
        assert_eq!(r, want.to_vec(), "{}", name);
    }
}

#[test]
fn case_does_not_matter() {
    assert_eq!(report_of_line("jcl_sr|lstick@3,-4"), report_of_line("JCL_SR|LSTICK@3,-4"));
}

#[test]
fn button_order_does_not_matter() {
    assert_eq!(report_of_line("A|B|L"), report_of_line("L|B|A"));
}

#[test]
fn repeating_a_button_keeps_it_pressed() {
    assert_eq!(report_of_line("A|A|LSTICK@1,1|A"), report_of_line("A|LSTICK@1,1"));
}

#[test]
fn unknown_actions_and_spaces_inside_are_ignored() {
    assert_eq!(report_of_line("jump| A|A |"), RELEASED.to_vec());
}

#[test]
fn left_stick_extremes() {
    let r = report_of_line("LSTICK@127,127");
    assert_eq!(unpack(r[4], r[5], r[6]), (0xff0, 0x010));
    assert_eq!(&r[7..10], &RELEASED[7..10]);
    let r = report_of_line("LSTICK@-128,0");
    assert_eq!(unpack(r[4], r[5], r[6]), (0x000, 0x800));
}

#[test]
fn stick_values_are_clamped() {
    assert_eq!(report_of_line("RSTICK@500,-500"), report_of_line("RSTICK@127,-128"));
    let r = report_of_line("RSTICK@500,100");
    assert_eq!(unpack(r[7], r[8], r[9]), (0xff0, 28 * 16));
}

#[test]
fn full_down_wraps_to_zero_in_the_report() {
    // y = 0x1000 does not fit in 12 bits.
    let r = report_of_line("LSTICK@0,-128");
    assert_eq!(unpack(r[4], r[5], r[6]), (0x800, 0x000));
}

#[test]
fn malformed_stick_text_gives_centre_or_zero_axis() {
    let r = report_of_line("LSTICK@12");
    assert_eq!(unpack(r[4], r[5], r[6]), (0x800, 0x800));
    let r = report_of_line("LSTICK@1,2,3");
    assert_eq!(unpack(r[4], r[5], r[6]), (0x800, 0x800));
    let r = report_of_line("LSTICK@x,-1");
    assert_eq!(unpack(r[4], r[5], r[6]), (0x800, 0x810));
    let r = report_of_line("LSTICK@99999999999,1");
    assert_eq!(unpack(r[4], r[5], r[6]), (0x800, 0x7f0));
}

#[test]
fn last_stick_action_wins() {
    assert_eq!(report_of_line("LSTICK@1,1|LSTICK@5,5"), report_of_line("LSTICK@5,5"));
}

#[test]
fn overlong_line_is_dropped() {
    let line = "A|".repeat(600);
    assert_eq!(report_of_line(&line), RELEASED.to_vec());
    let line = "A|".repeat(512);
    assert_eq!(report_of_line(&line)[1], INPUT0_A);
}

#[test]
fn unicode_whitespace_is_trimmed() {
    assert_eq!(report_of_line("\u{3000}a\u{2028}"), report_of_line("A"));
}

#[test]
fn trimmed_line_gives_same_input() {
    assert_eq!(report_of_line("  a|lstick@1,2 "), report_of_line("a|lstick@1,2"));
}

#[test]
fn overlong_action_cannot_be_reported() {
    let line = format!("A|{}", "x".repeat(101));
    assert!(!ProControllerInput::create_by_action(&line).is_reportable());
    let line = format!("A|{}", "x".repeat(100));
    assert!(ProControllerInput::create_by_action(&line).is_reportable());
}

#[test]
fn uart_frame_sets_buttons_and_sticks() {
    let frame = [0x01, 0x02, 0x04, 0x80, 0x80, 0xff, 0x00];
    let (l, r) = uart_stick_offsets(&frame);
    assert_eq!(l, (0, 0));
    assert_eq!(r, (127, -128));
    let input = ProControllerInput::create_by_uart_buffer(frame, (0, 0), (90, -90));
    assert!(input.is_reportable());
    let b = input.buffer();
    assert_eq!(&b[..4], &[0x81, 0x01, 0x02, 0x04]);
    assert_eq!(unpack(b[4], b[5], b[6]), (0x800, 0x800));
    assert_eq!(unpack(b[7], b[8], b[9]), ((90 + 128) * 16, (90 + 128) * 16));
    assert_eq!(b[10], 0);
}

#[test]
fn uart_points_that_overflow_cannot_be_reported() {
    let frame = [0; 7];
    assert!(!ProControllerInput::create_by_uart_buffer(frame, (i32::MAX, 0), (0, 0)).is_reportable());
    assert!(!ProControllerInput::create_by_uart_buffer(frame, (0, 0), (0, i32::MIN)).is_reportable());
}

#[test]
fn packed_sticks_decode_back() {
    for (x, y) in [(0i32, 0i32), (127, -127), (-128, 127), (-5, 77)] {
        let input = ProControllerInput::create_by_uart_buffer([0; 7], (x, y), (y, x));
        let b = input.buffer();
        assert_eq!(unpack(b[4], b[5], b[6]), (((x + 128) * 16) as u32, ((-y + 128) * 16) as u32));
    }
}

#[test]
fn reordering_actions_keeping_each_sticks_order_keeps_the_report() {
    let a = report_of_line("a|LSTICK@1,2|zr|RSTICK@3,4|LSTICK@-5,6|home");
    let b = report_of_line("RSTICK@3,4|Home|lstick@1,2|A|LSTICK@-5,6|ZR");
    assert_eq!(a, b);
    let c = report_of_line("LSTICK@-5,6|a|LSTICK@1,2|zr|RSTICK@3,4|home");
    assert_ne!(a, c);
}

#[test]
fn repeating_a_button_anywhere_keeps_the_report() {
    assert_eq!(report_of_line("x|L|LSTICK@9,9"), report_of_line("L|x|L|LSTICK@9,9|x"));
}

#[test]
fn adding_an_action_that_names_nothing_keeps_the_report() {
    assert_eq!(report_of_line("a|rstick@1,1"), report_of_line("a|wait:0.1|rstick@1,1|"));
}
