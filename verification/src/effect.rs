//! What a sequence of actions amounts to: the buttons it presses and the last
//! position it gives each stick. The state an action line leaves depends on
//! nothing else, so reordering its actions (keeping the order of each
//! stick's actions), repeating a button, or adding an action that names
//! nothing leaves the report unchanged.
use vstd::prelude::*;

use crate::input::{
    apply_action, apply_actions, button_for, coordinate_from_text, report_of,
    ActionState, ProControllerInput, STICK_CENTER,
};
use crate::text::{ascii_upper_all, has_prefix, split_fields};

verus! {

broadcast use vstd::seq_lib::group_to_multiset_ensures;

/// Some action of `actions` presses button `mask` of button byte `group`.
pub open spec fn pressed(actions: Seq<Seq<char>>, group: u8, mask: u8) -> bool {
    exists|i: int|
        0 <= i < actions.len() && button_for(ascii_upper_all(#[trigger] actions[i])) == Some(
            (group, mask),
        )
}

/// `mask` where `p` holds, 0 otherwise.
pub open spec fn bit_if(p: bool, mask: u8) -> u8 {
    if p {
        mask
    } else {
        0
    }
}

/// Button byte `group` as `actions` leave it: the bits of the buttons that
/// some action presses.
pub open spec fn button_byte(actions: Seq<Seq<char>>, group: u8) -> u8 {
    bit_if(pressed(actions, group, 0x01), 0x01) | bit_if(pressed(actions, group, 0x02), 0x02)
        | bit_if(pressed(actions, group, 0x04), 0x04) | bit_if(pressed(actions, group, 0x08), 0x08)
        | bit_if(pressed(actions, group, 0x10), 0x10) | bit_if(pressed(actions, group, 0x20), 0x20)
        | bit_if(pressed(actions, group, 0x40), 0x40) | bit_if(pressed(actions, group, 0x80), 0x80)
}

/// The stick prefix of the left (`LSTICK@`) or right (`RSTICK@`) stick.
pub open spec fn stick_prefix(left: bool) -> Seq<char> {
    if left {
        "LSTICK@"@
    } else {
        "RSTICK@"@
    }
}

/// `action` moves the left (or the right) stick.
pub open spec fn is_stick_action(action: Seq<char>, left: bool) -> bool {
    let up = ascii_upper_all(action);
    &&& button_for(up) is None
    &&& if left {
        has_prefix(up, "LSTICK@"@)
    } else {
        !has_prefix(up, "LSTICK@"@) && has_prefix(up, "RSTICK@"@)
    }
}

/// The actions of `actions` that move the left (or the right) stick, in
/// order.
pub open spec fn stick_actions(actions: Seq<Seq<char>>, left: bool) -> Seq<Seq<char>>
    decreases actions.len(),
{
    if actions.len() == 0 {
        Seq::<Seq<char>>::empty()
    } else {
        let rest = stick_actions(actions.drop_last(), left);
        if is_stick_action(actions.last(), left) {
            rest.push(actions.last())
        } else {
            rest
        }
    }
}

/// The stick position that the last of `moves` sets, or the centre.
pub open spec fn stick_position(moves: Seq<Seq<char>>, left: bool) -> (u32, u32) {
    if moves.len() == 0 {
        (STICK_CENTER as u32, STICK_CENTER as u32)
    } else {
        coordinate_from_text(
            ascii_upper_all(moves.last()).skip(stick_prefix(left).len() as int),
        )
    }
}

/// The state that the buttons and stick moves of `actions` make up.
pub open spec fn effect_state(actions: Seq<Seq<char>>) -> ActionState {
    let (lx, ly) = stick_position(stick_actions(actions, true), true);
    let (rx, ry) = stick_position(stick_actions(actions, false), false);
    ActionState {
        input0: button_byte(actions, 0),
        input1: button_byte(actions, 1),
        input2: button_byte(actions, 2),
        lx,
        ly,
        rx,
        ry,
    }
}

/// `a` and `b` press the same buttons and leave both sticks at the same
/// positions.
pub open spec fn same_effect(a: Seq<Seq<char>>, b: Seq<Seq<char>>) -> bool {
    &&& forall|g: u8, m: u8| pressed(a, g, m) == pressed(b, g, m)
    &&& stick_position(stick_actions(a, true), true) == stick_position(stick_actions(b, true), true)
    &&& stick_position(stick_actions(a, false), false) == stick_position(
        stick_actions(b, false),
        false,
    )
}

proof fn lemma_button_masks(action: Seq<char>)
    ensures
        button_for(action) matches Some((g, m)) ==> (g == 0 || g == 1 || g == 2) && (m == 0x01
            || m == 0x02 || m == 0x04 || m == 0x08 || m == 0x10 || m == 0x20 || m == 0x40 || m
            == 0x80),
{
}

proof fn lemma_bits_or(
    p0: bool,
    p1: bool,
    p2: bool,
    p3: bool,
    p4: bool,
    p5: bool,
    p6: bool,
    p7: bool,
    m: u8,
)
    requires
        m == 0x01 || m == 0x02 || m == 0x04 || m == 0x08 || m == 0x10 || m == 0x20 || m == 0x40
            || m == 0x80,
    ensures
        (bit_if(p0, 0x01) | bit_if(p1, 0x02) | bit_if(p2, 0x04) | bit_if(p3, 0x08) | bit_if(
            p4,
            0x10,
        ) | bit_if(p5, 0x20) | bit_if(p6, 0x40) | bit_if(p7, 0x80)) | m == bit_if(
            p0 || m == 0x01,
            0x01,
        ) | bit_if(p1 || m == 0x02, 0x02) | bit_if(p2 || m == 0x04, 0x04) | bit_if(
            p3 || m == 0x08,
            0x08,
        ) | bit_if(p4 || m == 0x10, 0x10) | bit_if(p5 || m == 0x20, 0x20) | bit_if(
            p6 || m == 0x40,
            0x40,
        ) | bit_if(p7 || m == 0x80, 0x80),
{
    assert((if p0 { 0x01u8 } else { 0u8 }) | (if p1 { 0x02u8 } else { 0u8 }) | (if p2 { 0x04u8 } else { 0u8 })
        | (if p3 { 0x08u8 } else { 0u8 }) | (if p4 { 0x10u8 } else { 0u8 }) | (if p5 { 0x20u8 } else { 0u8 })
        | (if p6 { 0x40u8 } else { 0u8 }) | (if p7 { 0x80u8 } else { 0u8 }) | m == (if p0 || m == 0x01 {
        0x01u8
    } else {
        0u8
    }) | (if p1 || m == 0x02 { 0x02u8 } else { 0u8 }) | (if p2 || m == 0x04 { 0x04u8 } else { 0u8 }) | (
    if p3 || m == 0x08 { 0x08u8 } else { 0u8 }) | (if p4 || m == 0x10 { 0x10u8 } else { 0u8 }) | (if p5
        || m == 0x20 { 0x20u8 } else { 0u8 }) | (if p6 || m == 0x40 { 0x40u8 } else { 0u8 }) | (if p7 || m
        == 0x80 { 0x80u8 } else { 0u8 })) by (bit_vector)
        requires
            m == 0x01 || m == 0x02 || m == 0x04 || m == 0x08 || m == 0x10 || m == 0x20 || m == 0x40
                || m == 0x80,
    ;
}

proof fn lemma_pressed_push(actions: Seq<Seq<char>>, action: Seq<char>)
    ensures
        forall|g: u8, m: u8|
            #![trigger pressed(actions.push(action), g, m)]
            pressed(actions.push(action), g, m) == (pressed(actions, g, m) || button_for(
                ascii_upper_all(action),
            ) == Some((g, m))),
{
    let a = actions.push(action);
    assert forall|g: u8, m: u8|
        pressed(a, g, m) == (pressed(actions, g, m) || button_for(ascii_upper_all(action)) == Some(
            (g, m),
        )) by {
        if pressed(a, g, m) {
            let i = choose|i: int|
                0 <= i < a.len() && button_for(ascii_upper_all(#[trigger] a[i])) == Some((g, m));
            if i < actions.len() {
                assert(a[i] == actions[i]);
            }
        }
        if pressed(actions, g, m) {
            let i = choose|i: int|
                0 <= i < actions.len() && button_for(ascii_upper_all(#[trigger] actions[i]))
                    == Some((g, m));
            assert(a[i] == actions[i]);
        }
        if button_for(ascii_upper_all(action)) == Some((g, m)) {
            assert(a[actions.len() as int] == action);
        }
    }
}

proof fn lemma_stick_actions_push(actions: Seq<Seq<char>>, action: Seq<char>, left: bool)
    ensures
        stick_actions(actions.push(action), left) == if is_stick_action(action, left) {
            stick_actions(actions, left).push(action)
        } else {
            stick_actions(actions, left)
        },
{
    assert(actions.push(action).drop_last() == actions);
}

proof fn lemma_effect_step_button(p: Seq<Seq<char>>, t: Seq<char>, g0: u8, m0: u8)
    requires
        button_for(ascii_upper_all(t)) == Some((g0, m0)),
    ensures
        apply_action(effect_state(p), t) == effect_state(p.push(t)),
{
    let a = p.push(t);
    lemma_pressed_push(p, t);
    lemma_button_masks(ascii_upper_all(t));
    lemma_stick_actions_push(p, t, true);
    lemma_stick_actions_push(p, t, false);
    assert forall|g: u8| #![trigger button_byte(a, g)]
        button_byte(a, g) == if g == g0 {
            button_byte(p, g) | m0
        } else {
            button_byte(p, g)
        } by {
        if g == g0 {
            lemma_bits_or(
                pressed(p, g, 0x01),
                pressed(p, g, 0x02),
                pressed(p, g, 0x04),
                pressed(p, g, 0x08),
                pressed(p, g, 0x10),
                pressed(p, g, 0x20),
                pressed(p, g, 0x40),
                pressed(p, g, 0x80),
                m0,
            );
        } else {
            assert(pressed(a, g, 0x01) == pressed(p, g, 0x01));
            assert(pressed(a, g, 0x02) == pressed(p, g, 0x02));
            assert(pressed(a, g, 0x04) == pressed(p, g, 0x04));
            assert(pressed(a, g, 0x08) == pressed(p, g, 0x08));
            assert(pressed(a, g, 0x10) == pressed(p, g, 0x10));
            assert(pressed(a, g, 0x20) == pressed(p, g, 0x20));
            assert(pressed(a, g, 0x40) == pressed(p, g, 0x40));
            assert(pressed(a, g, 0x80) == pressed(p, g, 0x80));
        }
    }
    assert(button_byte(a, 0) == if g0 == 0 { button_byte(p, 0) | m0 } else { button_byte(p, 0) });
    assert(button_byte(a, 1) == if g0 == 1 { button_byte(p, 1) | m0 } else { button_byte(p, 1) });
    assert(button_byte(a, 2) == if g0 == 2 { button_byte(p, 2) | m0 } else { button_byte(p, 2) });
}

proof fn lemma_effect_step_other(p: Seq<Seq<char>>, t: Seq<char>)
    requires
        button_for(ascii_upper_all(t)) is None,
    ensures
        apply_action(effect_state(p), t) == effect_state(p.push(t)),
{
    let a = p.push(t);
    lemma_pressed_push(p, t);
    lemma_stick_actions_push(p, t, true);
    lemma_stick_actions_push(p, t, false);
    assert forall|g: u8| #![trigger button_byte(a, g)] button_byte(a, g) == button_byte(p, g) by {
        assert(pressed(a, g, 0x01) == pressed(p, g, 0x01));
        assert(pressed(a, g, 0x02) == pressed(p, g, 0x02));
        assert(pressed(a, g, 0x04) == pressed(p, g, 0x04));
        assert(pressed(a, g, 0x08) == pressed(p, g, 0x08));
        assert(pressed(a, g, 0x10) == pressed(p, g, 0x10));
        assert(pressed(a, g, 0x20) == pressed(p, g, 0x20));
        assert(pressed(a, g, 0x40) == pressed(p, g, 0x40));
        assert(pressed(a, g, 0x80) == pressed(p, g, 0x80));
    }
    assert(button_byte(a, 0) == button_byte(p, 0));
    assert(button_byte(a, 1) == button_byte(p, 1));
    assert(button_byte(a, 2) == button_byte(p, 2));
}

proof fn lemma_effect_empty()
    ensures
        effect_state(Seq::<Seq<char>>::empty()) == apply_actions(Seq::<Seq<char>>::empty()),
{
    let e = Seq::<Seq<char>>::empty();
    assert forall|g: u8, m: u8| !pressed(e, g, m) by {}
    assert(bit_if(false, 0x01) | bit_if(false, 0x02) | bit_if(false, 0x04) | bit_if(false, 0x08)
        | bit_if(false, 0x10) | bit_if(false, 0x20) | bit_if(false, 0x40) | bit_if(false, 0x80)
        == 0) by (bit_vector);
    assert(button_byte(e, 0) == 0);
    assert(button_byte(e, 1) == 0);
    assert(button_byte(e, 2) == 0);
}

/// The state that a sequence of actions leaves is the one its buttons and
/// stick moves make up.
pub proof fn lemma_actions_effect(actions: Seq<Seq<char>>)
    ensures
        apply_actions(actions) == effect_state(actions),
    decreases actions.len(),
{
    if actions.len() == 0 {
        lemma_effect_empty();
        assert(actions == Seq::<Seq<char>>::empty());
    } else {
        let p = actions.drop_last();
        let t = actions.last();
        assert(actions == p.push(t));
        lemma_actions_effect(p);
        match button_for(ascii_upper_all(t)) {
            Some((g0, m0)) => lemma_effect_step_button(p, t, g0, m0),
            None => lemma_effect_step_other(p, t),
        }
    }
}

/// Actions that press the same buttons and leave both sticks at the same
/// positions leave the same state.
pub proof fn lemma_same_effect_same_state(a: Seq<Seq<char>>, b: Seq<Seq<char>>)
    requires
        same_effect(a, b),
    ensures
        apply_actions(a) == apply_actions(b),
{
    lemma_actions_effect(a);
    lemma_actions_effect(b);
    assert(button_byte(a, 0) == button_byte(b, 0));
    assert(button_byte(a, 1) == button_byte(b, 1));
    assert(button_byte(a, 2) == button_byte(b, 2));
}

proof fn lemma_pressed_by_contents(a: Seq<Seq<char>>, b: Seq<Seq<char>>)
    requires
        forall|x: Seq<char>|
            #![trigger a.contains(x)]
            a.contains(x) && button_for(ascii_upper_all(x)) is Some ==> b.contains(x),
    ensures
        forall|g: u8, m: u8| #![trigger pressed(a, g, m)] pressed(a, g, m) ==> pressed(b, g, m),
{
    assert forall|g: u8, m: u8| pressed(a, g, m) implies pressed(b, g, m) by {
        let i = choose|i: int|
            0 <= i < a.len() && button_for(ascii_upper_all(#[trigger] a[i])) == Some((g, m));
        let x = a[i];
        assert(a.contains(x));
        assert(b.contains(x));
        let j = choose|j: int| 0 <= j < b.len() && b[j] == x;
        assert(button_for(ascii_upper_all(b[j])) == Some((g, m)));
    }
}

proof fn lemma_stick_actions_concat(x: Seq<Seq<char>>, y: Seq<Seq<char>>, left: bool)
    ensures
        stick_actions(x + y, left) == stick_actions(x, left) + stick_actions(y, left),
    decreases y.len(),
{
    if y.len() == 0 {
        assert(x + y =~= x);
        assert(stick_actions(x, left) + stick_actions(y, left) =~= stick_actions(x, left));
    } else {
        let yp = y.drop_last();
        let t = y.last();
        lemma_stick_actions_concat(x, yp, left);
        assert((x + y).drop_last() =~= x + yp);
        assert((x + y).last() == t);
        assert(y.drop_last() == yp);
        if is_stick_action(t, left) {
            assert(stick_actions(x, left) + stick_actions(yp, left).push(t) =~= (stick_actions(
                x,
                left,
            ) + stick_actions(yp, left)).push(t));
        }
    }
}

proof fn lemma_stick_actions_insert(a: Seq<Seq<char>>, i: int, t: Seq<char>, left: bool)
    requires
        0 <= i <= a.len(),
        !is_stick_action(t, left),
    ensures
        stick_actions(a.insert(i, t), left) == stick_actions(a, left),
{
    let x = a.take(i);
    let y = a.skip(i);
    assert(a =~= x + y);
    assert(a.insert(i, t) =~= (x + seq![t]) + y);
    lemma_stick_actions_concat(x, y, left);
    lemma_stick_actions_concat(x + seq![t], y, left);
    lemma_stick_actions_concat(x, seq![t], left);
    let e = Seq::<Seq<char>>::empty();
    assert(seq![t].drop_last() =~= e);
    assert(stick_actions(seq![t], left) == stick_actions(e, left));
    assert(stick_actions(x, left) + e =~= stick_actions(x, left));
}

proof fn lemma_insert_contents(a: Seq<Seq<char>>, i: int, t: Seq<char>)
    requires
        0 <= i <= a.len(),
    ensures
        forall|x: Seq<char>| #![trigger a.insert(i, t).contains(x)]
            a.insert(i, t).contains(x) <==> (a.contains(x) || x == t),
        forall|x: Seq<char>| #![trigger a.contains(x)] a.contains(x) ==> a.insert(i, t).contains(x),
{
    let b = a.insert(i, t);
    assert forall|x: Seq<char>| b.contains(x) <==> (a.contains(x) || x == t) by {
        if b.contains(x) {
            let j = choose|j: int| 0 <= j < b.len() && b[j] == x;
            if j < i {
                assert(a[j] == x);
            } else if j > i {
                assert(a[j - 1] == x);
            }
        }
        if a.contains(x) {
            let k = choose|k: int| 0 <= k < a.len() && a[k] == x;
            if k < i {
                assert(b[k] == x);
            } else {
                assert(b[k + 1] == x);
            }
        }
        if x == t {
            assert(b[i] == t);
        }
    }
}

/// Reordering the actions of a line, while keeping the order of the moves of
/// each stick, leaves the same state.
pub proof fn lemma_reordered_actions_same_state(a: Seq<Seq<char>>, b: Seq<Seq<char>>)
    requires
        a.to_multiset() == b.to_multiset(),
        stick_actions(a, true) == stick_actions(b, true),
        stick_actions(a, false) == stick_actions(b, false),
    ensures
        same_effect(a, b),
        apply_actions(a) == apply_actions(b),
{
    assert forall|x: Seq<char>| a.contains(x) <==> b.contains(x) by {
        assert(a.contains(x) <==> a.to_multiset().count(x) > 0);
        assert(b.contains(x) <==> b.to_multiset().count(x) > 0);
    }
    lemma_pressed_by_contents(a, b);
    lemma_pressed_by_contents(b, a);
    lemma_same_effect_same_state(a, b);
}

/// Repeating a button action of a line, anywhere in it, leaves the same state.
pub proof fn lemma_repeated_button_same_state(a: Seq<Seq<char>>, i: int, t: Seq<char>)
    requires
        0 <= i <= a.len(),
        a.contains(t),
        button_for(ascii_upper_all(t)) is Some,
    ensures
        same_effect(a.insert(i, t), a),
        apply_actions(a.insert(i, t)) == apply_actions(a),
{
    let b = a.insert(i, t);
    lemma_insert_contents(a, i, t);
    lemma_pressed_by_contents(a, b);
    lemma_pressed_by_contents(b, a);
    lemma_stick_actions_insert(a, i, t, true);
    lemma_stick_actions_insert(a, i, t, false);
    lemma_same_effect_same_state(b, a);
}

/// Adding, anywhere in a line, an action that names no button and moves no
/// stick leaves the same state.
pub proof fn lemma_inert_action_same_state(a: Seq<Seq<char>>, i: int, t: Seq<char>)
    requires
        0 <= i <= a.len(),
        button_for(ascii_upper_all(t)) is None,
        !has_prefix(ascii_upper_all(t), "LSTICK@"@),
        !has_prefix(ascii_upper_all(t), "RSTICK@"@),
    ensures
        same_effect(a.insert(i, t), a),
        apply_actions(a.insert(i, t)) == apply_actions(a),
{
    let b = a.insert(i, t);
    lemma_insert_contents(a, i, t);
    lemma_pressed_by_contents(a, b);
    lemma_pressed_by_contents(b, a);
    lemma_stick_actions_insert(a, i, t, true);
    lemma_stick_actions_insert(a, i, t, false);
    lemma_same_effect_same_state(b, a);
}

/// Two inputs from action lines whose actions press the same buttons and
/// leave both sticks at the same positions give the same input report.
pub proof fn lemma_same_effect_same_report(x: &ProControllerInput, y: &ProControllerInput)
    requires
        x.spec_action_line() is Some,
        y.spec_action_line() is Some,
        x.spec_uart_buffer() is None,
        y.spec_uart_buffer() is None,
        same_effect(
            split_fields(x.spec_action_line()->0, '|'),
            split_fields(y.spec_action_line()->0, '|'),
        ),
    ensures
        report_of(x.state()) == report_of(y.state()),
{
    lemma_same_effect_same_state(
        split_fields(x.spec_action_line()->0, '|'),
        split_fields(y.spec_action_line()->0, '|'),
    );
}

} // verus!
