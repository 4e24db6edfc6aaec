//! The controller's input state and the 11-byte input report built from it.
//!
//! Input comes either from an action line such as `"A|B|LSTICK@-128,127"`
//! (buttons and stick positions separated by `|`, names case-insensitive) or
//! from a 7-byte UART frame (three button bytes and two stick byte pairs).
use vstd::prelude::*;

use crate::frame::{input_report_bytes, input_report_from_slice, InputReport};
use crate::text::{
    ascii_lower_all, ascii_upper_all, chars_ascii_upper, lemma_upper_of_lower, chars_eq_str, chars_starts_with, has_prefix,
    lemma_trim_idempotent, parse_i32, parse_i32_chars, split_chars,
    split_fields, str_chars, trim, trim_chars, trim_end, trim_start, utf8_len, utf8_len_at_most,
};

verus! {

pub const INPUT0_Y: u8 = 0b1;
pub const INPUT0_X: u8 = 0b10;
pub const INPUT0_B: u8 = 0b100;
pub const INPUT0_A: u8 = 0b1000;
pub const INPUT0_JCL_SR: u8 = 0b10000;
pub const INPUT0_JCL_SL: u8 = 0b100000;
pub const INPUT0_R: u8 = 0b1000000;
pub const INPUT0_ZR: u8 = 0b10000000;

pub const INPUT1_MINUS: u8 = 0b1;
pub const INPUT1_PLUS: u8 = 0b10;
pub const INPUT1_RPRESS: u8 = 0b100;
pub const INPUT1_LPRESS: u8 = 0b1000;
pub const INPUT1_HOME: u8 = 0b10000;
pub const INPUT1_CAPTURE: u8 = 0b100000;

pub const INPUT2_BOTTOM: u8 = 0b1;
pub const INPUT2_TOP: u8 = 0b10;
pub const INPUT2_RIGHT: u8 = 0b100;
pub const INPUT2_LEFT: u8 = 0b1000;
pub const INPUT2_JCR_SR: u8 = 0b10000;
pub const INPUT2_JCR_SL: u8 = 0b100000;
pub const INPUT2_L: u8 = 0b1000000;
pub const INPUT2_ZL: u8 = 0b10000000;

/// The stick coordinate of the centre position (12-bit, 0x000..0xfff).
pub const STICK_CENTER: u32 = 0x800;

/// The longest action line, in UTF-8 bytes, that is kept.
pub const ACTION_LINE_CAPACITY: u64 = 1024;

/// The longest single action, in UTF-8 bytes, that a report can be built from.
pub const ACTION_CAPACITY: u64 = 100;

/// The action line that [`ProControllerInput::create_by_action`] keeps for
/// `line`: `line` without leading and trailing whitespace, or nothing where
/// that takes more than 1024 UTF-8 bytes.
pub open spec fn kept_line(line: Seq<char>) -> Seq<char> {
    if utf8_len(trim(line)) <= ACTION_LINE_CAPACITY {
        trim(line)
    } else {
        Seq::<char>::empty()
    }
}

/// Keeping a line that was already kept changes nothing: an action line is
/// kept trimmed and within 1024 bytes.
pub proof fn lemma_kept_line_idempotent(line: Seq<char>)
    ensures
        kept_line(kept_line(line)) == kept_line(line),
{
    lemma_trim_idempotent(line);
    let e = Seq::<char>::empty();
    assert(trim_start(e) == e);
    assert(trim_end(e) == e);
    assert(utf8_len(e) == 0);
}

/// Button bytes and stick positions, as an action line leaves them.
#[derive(Clone, Copy, Debug, PartialEq, Eq, Structural)]
pub struct ActionState {
    pub input0: u8,
    pub input1: u8,
    pub input2: u8,
    pub lx: u32,
    pub ly: u32,
    pub rx: u32,
    pub ry: u32,
}

/// No button pressed, both sticks centred.
pub open spec fn released() -> ActionState {
    ActionState {
        input0: 0,
        input1: 0,
        input2: 0,
        lx: STICK_CENTER as u32,
        ly: STICK_CENTER as u32,
        rx: STICK_CENTER as u32,
        ry: STICK_CENTER as u32,
    }
}

/// The button that an upper-cased action names: the button byte (0, 1 or 2)
/// and its bit. `LPRESS` and `RPRESS` set each other's bit.
pub open spec fn button_for(action: Seq<char>) -> Option<(u8, u8)> {
    if action == "Y"@ {
        Some((0u8, INPUT0_Y))
    } else if action == "X"@ {
        Some((0u8, INPUT0_X))
    } else if action == "B"@ {
        Some((0u8, INPUT0_B))
    } else if action == "A"@ {
        Some((0u8, INPUT0_A))
    } else if action == "JCL_SR"@ {
        Some((0u8, INPUT0_JCL_SR))
    } else if action == "JCL_SL"@ {
        Some((0u8, INPUT0_JCL_SL))
    } else if action == "R"@ {
        Some((0u8, INPUT0_R))
    } else if action == "ZR"@ {
        Some((0u8, INPUT0_ZR))
    } else if action == "MINUS"@ {
        Some((1u8, INPUT1_MINUS))
    } else if action == "PLUS"@ {
        Some((1u8, INPUT1_PLUS))
    } else if action == "LPRESS"@ {
        Some((1u8, INPUT1_RPRESS))
    } else if action == "RPRESS"@ {
        Some((1u8, INPUT1_LPRESS))
    } else if action == "HOME"@ {
        Some((1u8, INPUT1_HOME))
    } else if action == "CAPTURE"@ {
        Some((1u8, INPUT1_CAPTURE))
    } else if action == "BOTTOM"@ {
        Some((2u8, INPUT2_BOTTOM))
    } else if action == "TOP"@ {
        Some((2u8, INPUT2_TOP))
    } else if action == "RIGHT"@ {
        Some((2u8, INPUT2_RIGHT))
    } else if action == "LEFT"@ {
        Some((2u8, INPUT2_LEFT))
    } else if action == "JCR_SR"@ {
        Some((2u8, INPUT2_JCR_SR))
    } else if action == "JCR_SL"@ {
        Some((2u8, INPUT2_JCR_SL))
    } else if action == "L"@ {
        Some((2u8, INPUT2_L))
    } else if action == "ZL"@ {
        Some((2u8, INPUT2_ZL))
    } else {
        None
    }
}

/// A stick axis as written in an action: the parsed value kept within
/// `-128..=127`, or 0 where it is not a number.
pub open spec fn axis_value(parsed: Option<i32>) -> int {
    match parsed {
        Some(v) => if v > 127 {
            127
        } else if v < -128 {
            -128
        } else {
            v as int
        },
        None => 0,
    }
}

/// The stick position that `x,y` (after `LSTICK@` or `RSTICK@`) sets: x grows
/// to the right and y upwards, each unit 16 steps of the 12-bit coordinate;
/// the centre where the text is not two comma-separated fields.
pub open spec fn coordinate_from_text(text: Seq<char>) -> (u32, u32) {
    let f = split_fields(text, ',');
    if f.len() != 2 {
        (STICK_CENTER as u32, STICK_CENTER as u32)
    } else {
        let x = axis_value(parse_i32(f[0]));
        let y = axis_value(parse_i32(f[1]));
        (((x + 128) * 16) as u32, ((-y + 128) * 16) as u32)
    }
}

/// Sets bit `mask` of button byte `group`.
pub open spec fn press(st: ActionState, group: u8, mask: u8) -> ActionState {
    if group == 0 {
        ActionState { input0: st.input0 | mask, ..st }
    } else if group == 1 {
        ActionState { input1: st.input1 | mask, ..st }
    } else {
        ActionState { input2: st.input2 | mask, ..st }
    }
}

/// The state after one action of a line: a button name (any case) presses
/// that button, `LSTICK@x,y` / `RSTICK@x,y` move a stick, anything else
/// changes nothing.
pub open spec fn apply_action(st: ActionState, action: Seq<char>) -> ActionState {
    let up = ascii_upper_all(action);
    match button_for(up) {
        Some((group, mask)) => press(st, group, mask),
        None => if has_prefix(up, "LSTICK@"@) {
            let (x, y) = coordinate_from_text(up.skip("LSTICK@"@.len() as int));
            ActionState { lx: x, ly: y, ..st }
        } else if has_prefix(up, "RSTICK@"@) {
            let (x, y) = coordinate_from_text(up.skip("RSTICK@"@.len() as int));
            ActionState { rx: x, ry: y, ..st }
        } else {
            st
        },
    }
}

/// The state after the actions of `actions`, in order, from [`released`].
pub open spec fn apply_actions(actions: Seq<Seq<char>>) -> ActionState
    decreases actions.len(),
{
    if actions.len() == 0 {
        released()
    } else {
        apply_action(apply_actions(actions.drop_last()), actions.last())
    }
}

/// The state that an action line leaves: its `|`-separated actions applied
/// in order.
pub open spec fn line_state(line: Seq<char>) -> ActionState {
    apply_actions(split_fields(line, '|'))
}

/// A stick point (as projected onto the stick's circle) can be turned into a
/// stick coordinate without overflowing `i32`.
pub open spec fn point_fits(p: (i32, i32)) -> bool {
    &&& i32::MIN <= (p.0 + 128) * 16 <= i32::MAX
    &&& i32::MIN <= (-p.1 + 128) * 16 <= i32::MAX
}

/// The stick coordinate of a point on the stick's circle (x to the right, y
/// upwards, both centred on 0).
pub open spec fn stick_from_point(p: (i32, i32)) -> (u32, u32) {
    (((p.0 + 128) * 16) as u32, ((-p.1 + 128) * 16) as u32)
}

/// The state that a UART frame gives: its three button bytes and the stick
/// coordinates of the two projected points.
pub open spec fn uart_state(uart: [u8; 7], left: (i32, i32), right: (i32, i32)) -> ActionState {
    let (lx, ly) = stick_from_point(left);
    let (rx, ry) = stick_from_point(right);
    ActionState { input0: uart[0], input1: uart[1], input2: uart[2], lx, ly, rx, ry }
}

/// A UART frame's two sticks are mapped alike: the right point gives the
/// right stick exactly what the same point, given as the left point, gives
/// the left stick; so swapping the two points swaps the two sticks.
pub proof fn lemma_uart_sticks_alike(uart: [u8; 7], left: (i32, i32), right: (i32, i32))
    ensures
        uart_state(uart, left, right).rx == uart_state(uart, right, left).lx,
        uart_state(uart, left, right).ry == uart_state(uart, right, left).ly,
        uart_state(uart, left, right).lx == uart_state(uart, right, left).rx,
        uart_state(uart, left, right).ly == uart_state(uart, right, left).ry,
{
}

/// The stick coordinates of a UART frame: each point `(x, y)` becomes
/// `((x + 128) * 16, (128 - y) * 16)`, so pushing a stick to the right raises
/// its x coordinate and pushing it up lowers its y coordinate; the button
/// bytes are the frame's first three bytes. (Below x = -128 or above y = 128
/// the coordinate would be negative and wraps as a `u32` does.)
pub proof fn lemma_uart_state_coordinates(uart: [u8; 7], left: (i32, i32), right: (i32, i32))
    requires
        point_fits(left),
        point_fits(right),
        left.0 >= -128,
        left.1 <= 128,
        right.0 >= -128,
        right.1 <= 128,
    ensures
        uart_state(uart, left, right).lx as int == (left.0 + 128) * 16,
        uart_state(uart, left, right).ly as int == (128 - left.1) * 16,
        uart_state(uart, left, right).rx as int == (right.0 + 128) * 16,
        uart_state(uart, left, right).ry as int == (128 - right.1) * 16,
        uart_state(uart, left, right).input0 == uart[0],
        uart_state(uart, left, right).input1 == uart[1],
        uart_state(uart, left, right).input2 == uart[2],
{
}

/// The three bytes that carry a stick's 12-bit x and y coordinates.
pub open spec fn pack_stick(x: u32, y: u32) -> Seq<u8> {
    seq![x as u8, ((x >> 8) as u8 & 0x0f) | ((y as u8 & 0x0f) << 4), (y >> 4) as u8]
}

/// The 11-byte input report of a state: `0x81`, the three button bytes, the
/// left stick, the right stick, and `0x00`.
pub open spec fn report_of(st: ActionState) -> Seq<u8> {
    seq![0x81u8, st.input0, st.input1, st.input2] + pack_stick(st.lx, st.ly) + pack_stick(
        st.rx,
        st.ry,
    ) + seq![0x00u8]
}

/// The 12-bit x and y coordinates carried by the three bytes of a stick.
pub open spec fn unpack_stick(b0: u8, b1: u8, b2: u8) -> (u32, u32) {
    ((b0 as u32) | (((b1 & 0x0f) as u32) << 8), ((b1 >> 4) as u32) | ((b2 as u32) << 4))
}

/// A stick's coordinates below 0x1000 come back unchanged from the bytes
/// that carry them.
pub proof fn lemma_stick_packing_lossless(x: u32, y: u32)
    requires
        x < 0x1000,
        y < 0x1000,
    ensures
        unpack_stick(pack_stick(x, y)[0], pack_stick(x, y)[1], pack_stick(x, y)[2]) == (x, y),
{
    let b0 = x as u8;
    let b1 = ((x >> 8) as u8 & 0x0f) | ((y as u8 & 0x0f) << 4);
    let b2 = (y >> 4) as u8;
    assert((b0 as u32) | (((b1 & 0x0f) as u32) << 8) == x) by (bit_vector)
        requires
            x < 0x1000,
            b0 == x as u8,
            b1 == ((x >> 8) as u8 & 0x0f) | ((y as u8 & 0x0f) << 4),
    ;
    assert(((b1 >> 4) as u32) | ((b2 as u32) << 4) == y) by (bit_vector)
        requires
            y < 0x1000,
            b2 == (y >> 4) as u8,
            b1 == ((x >> 8) as u8 & 0x0f) | ((y as u8 & 0x0f) << 4),
    ;
}

/// A stick position written in an action line is a multiple of 16 with x in
/// `0..=0xff0` and y in `0x10..=0x1000` (the centre 0x800 where the text is
/// not a pair of numbers).
pub proof fn lemma_text_coordinates_in_range(text: Seq<char>)
    ensures
        coordinate_from_text(text).0 <= 0xff0,
        coordinate_from_text(text).0 % 16 == 0,
        0x10 <= coordinate_from_text(text).1 <= 0x1000,
        coordinate_from_text(text).1 % 16 == 0,
{
    let f = split_fields(text, ',');
    if f.len() == 2 {
        let x = axis_value(parse_i32(f[0]));
        let y = axis_value(parse_i32(f[1]));
        assert(-128 <= x <= 127 && -128 <= y <= 127);
        assert(0 <= (x + 128) * 16 <= 0xff0);
        assert(0x10 <= (-y + 128) * 16 <= 0x1000);
    }
}

/// Button names and the stick prefixes are matched regardless of the case
/// of ASCII letters.
pub proof fn lemma_action_case_insensitive(st: ActionState, action: Seq<char>)
    ensures
        apply_action(st, ascii_upper_all(action)) == apply_action(st, action),
{
    assert(ascii_upper_all(ascii_upper_all(action)) =~= ascii_upper_all(action));
}

/// An action spelt in lower case (or any mix of cases) does what the same
/// action spelt in capitals does: `"y"` presses Y as `"Y"` does, and
/// `"lstick@1,2"` moves the left stick as `"LSTICK@1,2"` does.
pub proof fn lemma_action_any_case(st: ActionState, action: Seq<char>)
    ensures
        apply_action(st, ascii_lower_all(action)) == apply_action(st, action),
        apply_action(st, ascii_lower_all(action)) == apply_action(st, ascii_upper_all(action)),
{
    lemma_upper_of_lower(action);
    lemma_action_case_insensitive(st, action);
}

/// No action releases a button that is already pressed.
pub proof fn lemma_action_keeps_buttons(st: ActionState, action: Seq<char>)
    ensures
        apply_action(st, action).input0 & st.input0 == st.input0,
        apply_action(st, action).input1 & st.input1 == st.input1,
        apply_action(st, action).input2 & st.input2 == st.input2,
{
    let r = apply_action(st, action);
    let (a, b, c) = (st.input0, st.input1, st.input2);
    assert(forall|x: u8, m: u8| #[trigger] ((x | m) & x) == x) by (bit_vector);
    assert(a & a == a && b & b == b && c & c == c) by (bit_vector);
}

/// Two button presses give the same state in either order.
pub proof fn lemma_button_presses_commute(st: ActionState, a: Seq<char>, b: Seq<char>)
    requires
        button_for(ascii_upper_all(a)) is Some,
        button_for(ascii_upper_all(b)) is Some,
    ensures
        apply_action(apply_action(st, a), b) == apply_action(apply_action(st, b), a),
{
    assert(forall|x: u8, m: u8, n: u8| #[trigger] ((x | m) | n) == (x | n) | m) by (bit_vector);
}

/// What the controller currently reports: an action line, a UART frame (with
/// its two stick bytes pairs already projected onto the stick's circle), or
/// both.
#[derive(Debug)]
pub struct ProControllerInput {
    action_line: Option<Vec<char>>,
    uart_action_buffer: Option<[u8; 7]>,
    uart_points: ((i32, i32), (i32, i32)),
}

impl ProControllerInput {
    /// The kept action line, if any.
    pub closed spec fn spec_action_line(&self) -> Option<Seq<char>> {
        match &self.action_line {
            Some(line) => Some(line@),
            None => None,
        }
    }

    /// The UART frame, if any.
    pub closed spec fn spec_uart_buffer(&self) -> Option<[u8; 7]> {
        self.uart_action_buffer
    }

    /// The projected left and right stick points of the UART frame.
    pub closed spec fn spec_uart_points(&self) -> ((i32, i32), (i32, i32)) {
        self.uart_points
    }

    /// The state this input reports.
    pub open spec fn state(&self) -> ActionState {
        let a = match self.spec_action_line() {
            Some(line) => line_state(line),
            None => released(),
        };
        match self.spec_uart_buffer() {
            Some(uart) => uart_state(uart, self.spec_uart_points().0, self.spec_uart_points().1),
            None => a,
        }
    }

    /// The inputs on which [`ProControllerInput::buffer`] runs to its end:
    /// every action of the line takes at most 100 UTF-8 bytes, and the UART
    /// points fit.
    pub open spec fn report_defined(&self) -> bool {
        &&& self.spec_action_line() matches Some(line) ==> forall|i: int|
            0 <= i < split_fields(line, '|').len() ==> utf8_len(#[trigger] split_fields(
                line,
                '|',
            )[i]) <= ACTION_CAPACITY
        &&& self.spec_uart_buffer() is Some ==> point_fits(self.spec_uart_points().0)
            && point_fits(self.spec_uart_points().1)
    }

    /// An input from an action line: the line without leading and trailing
    /// whitespace, or an empty line where that takes more than 1024 UTF-8
    /// bytes.
    pub fn create_by_action(action_line: &str) -> (r: Self)
        ensures
            r.spec_action_line() == Some(kept_line(action_line@)),
            r.spec_uart_buffer() is None,
    {
        let chars = str_chars(action_line);
        let trimmed = trim_chars(&chars);
        let line = if utf8_len_at_most(trimmed.as_slice(), ACTION_LINE_CAPACITY) {
            trimmed
        } else {
            Vec::new()
        };
        ProControllerInput { action_line: Some(line), uart_action_buffer: None, uart_points: ((0, 0), (0, 0)) }
    }

    /// An input from a UART frame. `left_point` and `right_point` are the
    /// stick byte pairs 3–4 and 5–6, taken as offsets from 0x80 (see
    /// [`uart_stick_offsets`]), projected onto the stick's circle.
    pub fn create_by_uart_buffer(
        uart_buffer: [u8; 7],
        left_point: (i32, i32),
        right_point: (i32, i32),
    ) -> (r: Self)
        ensures
            r.spec_action_line() is None,
            r.spec_uart_buffer() == Some(uart_buffer),
            r.spec_uart_points() == (left_point, right_point),
    {
        ProControllerInput {
            action_line: None,
            uart_action_buffer: Some(uart_buffer),
            uart_points: (left_point, right_point),
        }
    }
}

/// The stick byte pairs 3–4 and 5–6 of a UART frame as offsets from the
/// centre byte 0x80 (x, y for each stick); these are what is projected onto
/// the stick's circle.
pub fn uart_stick_offsets(uart_buffer: &[u8; 7]) -> (r: ((i32, i32), (i32, i32)))
    ensures
        r.0.0 == uart_buffer[3] - 0x80,
        r.0.1 == uart_buffer[4] - 0x80,
        r.1.0 == uart_buffer[5] - 0x80,
        r.1.1 == uart_buffer[6] - 0x80,
{
    (
        (uart_buffer[3] as i32 - 0x80, uart_buffer[4] as i32 - 0x80),
        (uart_buffer[5] as i32 - 0x80, uart_buffer[6] as i32 - 0x80),
    )
}

/// Decides [`point_fits`].
pub fn point_fits_exec(p: (i32, i32)) -> (b: bool)
    ensures
        b == point_fits(p),
{
    let x = p.0 as i64;
    let y = p.1 as i64;
    let sx = (x + 128) * 16;
    let sy = (-y + 128) * 16;
    -0x8000_0000 <= sx && sx <= 0x7fff_ffff && -0x8000_0000 <= sy && sy <= 0x7fff_ffff
}

/// Computes [`stick_from_point`].
fn coordinate_from_point(p: (i32, i32)) -> (r: (u32, u32))
    requires
        point_fits(p),
    ensures
        r == stick_from_point(p),
{
    assert(p.1 * (-1) == -p.1) by (nonlinear_arith);
    let x = ((p.0 + 0x80) * 16) as u32;
    let y = ((p.1 * (-1) + 0x80) * 16) as u32;
    (x, y)
}

/// Computes [`button_for`].
fn button_for_exec(action: &[char]) -> (r: Option<(u8, u8)>)
    ensures
        r == button_for(action@),
{
    if chars_eq_str(action, "Y") {
        Some((0, INPUT0_Y))
    } else if chars_eq_str(action, "X") {
        Some((0, INPUT0_X))
    } else if chars_eq_str(action, "B") {
        Some((0, INPUT0_B))
    } else if chars_eq_str(action, "A") {
        Some((0, INPUT0_A))
    } else if chars_eq_str(action, "JCL_SR") {
        Some((0, INPUT0_JCL_SR))
    } else if chars_eq_str(action, "JCL_SL") {
        Some((0, INPUT0_JCL_SL))
    } else if chars_eq_str(action, "R") {
        Some((0, INPUT0_R))
    } else if chars_eq_str(action, "ZR") {
        Some((0, INPUT0_ZR))
    } else if chars_eq_str(action, "MINUS") {
        Some((1, INPUT1_MINUS))
    } else if chars_eq_str(action, "PLUS") {
        Some((1, INPUT1_PLUS))
    } else if chars_eq_str(action, "LPRESS") {
        Some((1, INPUT1_RPRESS))
    } else if chars_eq_str(action, "RPRESS") {
        Some((1, INPUT1_LPRESS))
    } else if chars_eq_str(action, "HOME") {
        Some((1, INPUT1_HOME))
    } else if chars_eq_str(action, "CAPTURE") {
        Some((1, INPUT1_CAPTURE))
    } else if chars_eq_str(action, "BOTTOM") {
        Some((2, INPUT2_BOTTOM))
    } else if chars_eq_str(action, "TOP") {
        Some((2, INPUT2_TOP))
    } else if chars_eq_str(action, "RIGHT") {
        Some((2, INPUT2_RIGHT))
    } else if chars_eq_str(action, "LEFT") {
        Some((2, INPUT2_LEFT))
    } else if chars_eq_str(action, "JCR_SR") {
        Some((2, INPUT2_JCR_SR))
    } else if chars_eq_str(action, "JCR_SL") {
        Some((2, INPUT2_JCR_SL))
    } else if chars_eq_str(action, "L") {
        Some((2, INPUT2_L))
    } else if chars_eq_str(action, "ZL") {
        Some((2, INPUT2_ZL))
    } else {
        None
    }
}

/// Computes [`axis_value`].
fn axis_value_exec(parsed: Option<i32>) -> (v: i32)
    ensures
        v == axis_value(parsed),
{
    match parsed {
        Some(v) => if v > 127 {
            127
        } else if v < -128 {
            -128
        } else {
            v
        },
        None => 0,
    }
}

/// Computes [`coordinate_from_text`].
fn coordinate_str_convert(text: &[char]) -> (r: (u32, u32))
    ensures
        r == coordinate_from_text(text@),
{
    let fields = split_chars(text, ',');
    if fields.len() != 2 {
        return (STICK_CENTER, STICK_CENTER);
    }
    assert(fields@[0]@ == fields.deep_view()[0]);
    assert(fields@[1]@ == fields.deep_view()[1]);
    let x = axis_value_exec(parse_i32_chars(fields[0].as_slice()));
    let y = axis_value_exec(parse_i32_chars(fields[1].as_slice()));
    (((x + 128) * 16) as u32, ((-y + 128) * 16) as u32)
}

/// Computes [`apply_action`].
fn apply_action_exec(st: ActionState, action: &[char]) -> (r: ActionState)
    ensures
        r == apply_action(st, action@),
{
    let up = chars_ascii_upper(action);
    match button_for_exec(up.as_slice()) {
        Some((group, mask)) => {
            if group == 0 {
                ActionState { input0: st.input0 | mask, ..st }
            } else if group == 1 {
                ActionState { input1: st.input1 | mask, ..st }
            } else {
                ActionState { input2: st.input2 | mask, ..st }
            }
        },
        None => {
            let (is_left, n) = chars_starts_with(up.as_slice(), "LSTICK@");
            if is_left {
                let rest = slice_from(up.as_slice(), n);
                let (x, y) = coordinate_str_convert(rest);
                return ActionState { lx: x, ly: y, ..st };
            }
            let (is_right, n) = chars_starts_with(up.as_slice(), "RSTICK@");
            if is_right {
                let rest = slice_from(up.as_slice(), n);
                let (x, y) = coordinate_str_convert(rest);
                return ActionState { rx: x, ry: y, ..st };
            }
            st
        },
    }
}

/// The characters of `s` from index `n` on.
fn slice_from(s: &[char], n: usize) -> (r: &[char])
    requires
        n <= s@.len(),
    ensures
        r@ == s@.skip(n as int),
{
    let r = &s[n..s.len()];
    assert(r@ =~= s@.skip(n as int));
    r
}

impl ProControllerInput {
    /// Decides [`ProControllerInput::report_defined`].
    pub fn is_reportable(&self) -> (b: bool)
        ensures
            b == self.report_defined(),
    {
        match &self.action_line {
            Some(line) => {
                let actions = split_chars(line.as_slice(), '|');
                let ghost a = actions.deep_view();
                let mut i: usize = 0;
                while i < actions.len()
                    invariant
                        0 <= i <= actions@.len(),
                        a == actions.deep_view(),
                        a == split_fields(line@, '|'),
                        self.spec_action_line() == Some(line@),
                        forall|k: int| 0 <= k < i ==> utf8_len(#[trigger] a[k]) <= ACTION_CAPACITY,
                    decreases actions@.len() - i,
                {
                    assert(a[i as int] == actions@[i as int]@);
                    if !utf8_len_at_most(actions[i].as_slice(), ACTION_CAPACITY) {
                        assert(a.len() == actions@.len());
                        let ghost l = self.spec_action_line()->0;
                        assert(utf8_len(split_fields(l, '|')[i as int]) > ACTION_CAPACITY);
                        return false;
                    }
                    i = i + 1;
                }
            },
            None => {},
        }
        match self.uart_action_buffer {
            Some(_) => point_fits_exec(self.uart_points.0) && point_fits_exec(self.uart_points.1),
            None => true,
        }
    }

    /// The 11-byte input report of this input (see [`report_of`]).
    pub fn buffer(&self) -> (r: InputReport)
        requires
            self.report_defined(),
        ensures
            input_report_bytes(r) == report_of(self.state()),
    {
        let mut st = ActionState {
            input0: 0,
            input1: 0,
            input2: 0,
            lx: STICK_CENTER,
            ly: STICK_CENTER,
            rx: STICK_CENTER,
            ry: STICK_CENTER,
        };
        match &self.action_line {
            Some(line) => {
                let actions = split_chars(line.as_slice(), '|');
                let ghost a = actions.deep_view();
                let mut i: usize = 0;
                assert(a.take(0) =~= Seq::<Seq<char>>::empty());
                while i < actions.len()
                    invariant
                        0 <= i <= actions@.len(),
                        a == actions.deep_view(),
                        st == apply_actions(a.take(i as int)),
                    decreases actions@.len() - i,
                {
                    assert(a[i as int] == actions@[i as int]@);
                    assert(a.take(i + 1).drop_last() =~= a.take(i as int));
                    st = apply_action_exec(st, actions[i].as_slice());
                    i = i + 1;
                }
                assert(a.take(a.len() as int) =~= a);
            },
            None => {},
        }
        match self.uart_action_buffer {
            Some(uart) => {
                let (lx, ly) = coordinate_from_point(self.uart_points.0);
                let (rx, ry) = coordinate_from_point(self.uart_points.1);
                st = ActionState { input0: uart[0], input1: uart[1], input2: uart[2], lx, ly, rx, ry };
            },
            None => {},
        }
        let mut report: Vec<u8> = Vec::new();
        report.push(0x81);
        report.push(st.input0);
        report.push(st.input1);
        report.push(st.input2);
        report.push(st.lx as u8);
        report.push(((st.lx >> 8) as u8 & 0x0f) | ((st.ly as u8 & 0x0f) << 4));
        report.push((st.ly >> 4) as u8);
        report.push(st.rx as u8);
        report.push(((st.rx >> 8) as u8 & 0x0f) | ((st.ry as u8 & 0x0f) << 4));
        report.push((st.ry >> 4) as u8);
        report.push(0x00);
        assert(report@ =~= report_of(st));
        match input_report_from_slice(report.as_slice()) {
            Ok(r) => r,
            Err(_) => unreached(),
        }
    }
}

} // verus!
