use pro_controller::scripts::{
    close_game, get_common_scripts, get_pokemon_scripts, get_pokemon_sv_scripts, get_scripts,
    open_gmae, press_button_a, press_button_b, restart, return_game, return_home,
    wakeup_joystick, Script, CLOSE_GAME_TEXT, OPENGAME_TEXT, PRESS_BUTTON_A_TEXT,
    PRESS_BUTTON_B_TEXT, RETURN_GAME_TEXT, RETURN_HOME_TEXT, WAKEUP_JOYSTICK_TEXT,
};

fn lines(s: &Script) -> Vec<String> {
    let q = s.lines_queue();
    (0..q.len()).map(|i| q.get(i).unwrap().iter().collect()).collect()
}

#[test]
fn script_holds_the_lines_of_its_text() {
    let s = Script::new("A:0.1\n1.5");
    assert_eq!(lines(&s), vec!["A:0.1".to_string(), "1.5".to_string()]);
    assert_eq!(lines(&Script::new("")), vec![String::new()]);
}

#[test]
fn wakeup_joystick_lines() {
    assert_eq!(lines(&wakeup_joystick()), vec!["", "LPress:0.1", "1", "LPress:0.1", "3", ""]);
}

#[test]
fn script_lines_rejoin_to_the_text() {
    let cases = [
        (wakeup_joystick(), WAKEUP_JOYSTICK_TEXT),
        (return_home(), RETURN_HOME_TEXT),
        (return_game(), RETURN_GAME_TEXT),
        (close_game(), CLOSE_GAME_TEXT),
        (press_button_a(), PRESS_BUTTON_A_TEXT),
        (press_button_b(), PRESS_BUTTON_B_TEXT),
        (open_gmae(), OPENGAME_TEXT),
        (restart(), ""),
    ];
    for (s, text) in cases {
        assert_eq!(lines(&s).join("\n"), text);
    }
}

#[test]
fn script_collections() {
    assert_eq!(get_common_scripts().len(), 6);
    assert_eq!(get_pokemon_sv_scripts().len(), 2);
    assert_eq!(get_pokemon_scripts().len(), 2);
    let all = get_scripts();
    assert_eq!(all.len(), 8);
    assert_eq!(lines(&all[0]), lines(&wakeup_joystick()));
    assert_eq!(lines(&all[6]), lines(&open_gmae()));
    assert_eq!(lines(&all[7]), vec![String::new()]);
}
