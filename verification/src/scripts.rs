//! Scripts: texts of timed controller actions, kept as queues of lines.
use vstd::prelude::*;

use crate::lines::{
    line_queue_new, line_queue_push_back, queued_lines, LineQueue, LINE_QUEUE_CAPACITY,
};
use crate::text::{
    join_fields, lemma_split_fields_len, lemma_split_fields_short, lemma_split_join, lemma_utf8_len_at_most_4, split_fields,
    str_chars, utf8_len,
};

verus! {

/// The longest line of a script, in UTF-8 bytes.
pub const SCRIPT_LINE_CAPACITY: u64 = 255;

/// The lines of a script text.
pub open spec fn script_lines(text: Seq<char>) -> Seq<Seq<char>> {
    split_fields(text, '\n')
}

/// A text that [`Script::new`] can take: at most 1024 lines, none longer
/// than 255 UTF-8 bytes.
pub open spec fn script_text_fits(text: Seq<char>) -> bool {
    &&& script_lines(text).len() <= LINE_QUEUE_CAPACITY
    &&& forall|i: int|
        0 <= i < script_lines(text).len() ==> utf8_len(#[trigger] script_lines(text)[i])
            <= SCRIPT_LINE_CAPACITY
}

/// Any text of at most 63 characters fits in a script.
pub proof fn lemma_short_text_fits(text: Seq<char>)
    requires
        text.len() <= 63,
    ensures
        script_text_fits(text),
{
    lemma_split_fields_len(text, '\n');
    lemma_split_fields_short(text, '\n');
    assert forall|i: int| 0 <= i < script_lines(text).len() implies utf8_len(
        #[trigger] script_lines(text)[i],
    ) <= SCRIPT_LINE_CAPACITY by {
        lemma_utf8_len_at_most_4(script_lines(text)[i]);
    }
}

/// Joining a text's script lines with `'\n'` gives the text back.
pub proof fn lemma_script_lines_rejoin(text: Seq<char>)
    ensures
        join_fields(script_lines(text), '\n') == text,
{
    lemma_split_join(text, '\n');
}

/// A script: its lines, in order.
#[derive(Debug)]
pub struct Script {
    lines_queue: LineQueue,
}

impl Script {
    /// The lines this script holds.
    pub closed spec fn lines(&self) -> Seq<Seq<char>> {
        queued_lines(self.lines_queue)
    }

    /// The script of `action_text`: its lines, split at `'\n'`.
    pub fn new(action_text: &str) -> (s: Self)
        requires
            script_text_fits(action_text@),
        ensures
            s.lines() == script_lines(action_text@),
    {
        let text = str_chars(action_text);
        let mut queue = line_queue_new();
        let mut cur: Vec<char> = Vec::new();
        let mut i: usize = 0;
        proof {
            lemma_split_fields_len(text@, '\n');
        }
        assert(text@.take(0) =~= Seq::<char>::empty());
        while i < text.len()
            invariant
                0 <= i <= text@.len(),
                text@ == action_text@,
                script_text_fits(text@),
                split_fields(text@.take(i as int), '\n') == queued_lines(queue).push(cur@),
            decreases text@.len() - i,
        {
            let c = text[i];
            assert(text@.take(i + 1).drop_last() =~= text@.take(i as int));
            assert(text@.take(i + 1).last() == c);
            proof {
                lemma_fields_prefix_count(text@, i + 1);
            }
            if c == '\n' {
                let line = cur;
                cur = Vec::new();
                let ghost held = queued_lines(queue);
                let _ = line_queue_push_back(&mut queue, line);
                assert(split_fields(text@.take(i + 1), '\n') =~= queued_lines(queue).push(cur@));
            } else {
                let ghost old_cur = cur@;
                cur.push(c);
                assert(split_fields(text@.take(i + 1), '\n') =~= queued_lines(queue).push(
                    old_cur,
                ).update(queued_lines(queue).len() as int, old_cur.push(c)));
                assert(queued_lines(queue).push(old_cur).update(
                    queued_lines(queue).len() as int,
                    old_cur.push(c),
                ) =~= queued_lines(queue).push(cur@));
            }
            i = i + 1;
        }
        assert(text@.take(text@.len() as int) =~= text@);
        let _ = line_queue_push_back(&mut queue, cur);
        Script { lines_queue: queue }
    }

    /// The queue of this script's lines.
    pub fn lines_queue(&self) -> (q: &LineQueue)
        ensures
            queued_lines(*q) == self.lines(),
    {
        let queue = &self.lines_queue;
        return queue;
    }
}

/// A prefix of a text has at most as many lines as the text.
proof fn lemma_fields_prefix_count(text: Seq<char>, i: int)
    requires
        0 <= i <= text.len(),
    ensures
        split_fields(text.take(i), '\n').len() <= split_fields(text, '\n').len(),
    decreases text.len() - i,
{
    if i < text.len() {
        lemma_fields_prefix_count(text, i + 1);
        assert(text.take(i + 1).drop_last() =~= text.take(i));
    } else {
        assert(text.take(i) =~= text);
    }
}

/// The actions of [`wakeup_joystick`].
pub const WAKEUP_JOYSTICK_TEXT: &'static str = "\nLPress:0.1\n1\nLPress:0.1\n3\n";

/// Wakes the controller up: press the left stick twice.
pub fn wakeup_joystick() -> (s: Script)
    ensures
        s.lines() == script_lines(WAKEUP_JOYSTICK_TEXT@),
{
    proof {
        reveal_strlit("\nLPress:0.1\n1\nLPress:0.1\n3\n");
        lemma_short_text_fits(WAKEUP_JOYSTICK_TEXT@);
    }
    Script::new(WAKEUP_JOYSTICK_TEXT)
}

/// The actions of [`return_home`].
pub const RETURN_HOME_TEXT: &'static str = "\nHome:0.1\n1.5\n";

/// Goes to the HOME menu.
pub fn return_home() -> (s: Script)
    ensures
        s.lines() == script_lines(RETURN_HOME_TEXT@),
{
    proof {
        reveal_strlit("\nHome:0.1\n1.5\n");
        lemma_short_text_fits(RETURN_HOME_TEXT@);
    }
    Script::new(RETURN_HOME_TEXT)
}

/// The actions of [`return_game`].
pub const RETURN_GAME_TEXT: &'static str = "\n[common.return_home]\nA:0.1\n1.5\n";

/// Goes to the HOME menu and back into the game.
pub fn return_game() -> (s: Script)
    ensures
        s.lines() == script_lines(RETURN_GAME_TEXT@),
{
    proof {
        reveal_strlit("\n[common.return_home]\nA:0.1\n1.5\n");
        lemma_short_text_fits(RETURN_GAME_TEXT@);
    }
    Script::new(RETURN_GAME_TEXT)
}

/// The actions of [`close_game`].
pub const CLOSE_GAME_TEXT: &'static str = "\n[common.return_home]\nX:0.1\n0.5\nA:0.1\n5\n";

/// Goes to the HOME menu and closes the game.
pub fn close_game() -> (s: Script)
    ensures
        s.lines() == script_lines(CLOSE_GAME_TEXT@),
{
    proof {
        reveal_strlit("\n[common.return_home]\nX:0.1\n0.5\nA:0.1\n5\n");
        lemma_short_text_fits(CLOSE_GAME_TEXT@);
    }
    Script::new(CLOSE_GAME_TEXT)
}

/// The actions of [`press_button_a`].
pub const PRESS_BUTTON_A_TEXT: &'static str = "\nA:0.1\n0.2\n";

/// Presses A.
pub fn press_button_a() -> (s: Script)
    ensures
        s.lines() == script_lines(PRESS_BUTTON_A_TEXT@),
{
    proof {
        reveal_strlit("\nA:0.1\n0.2\n");
        lemma_short_text_fits(PRESS_BUTTON_A_TEXT@);
    }
    Script::new(PRESS_BUTTON_A_TEXT)
}

/// The actions of [`press_button_b`].
pub const PRESS_BUTTON_B_TEXT: &'static str = "\nB:0.1\n0.2\n";

/// Presses B.
pub fn press_button_b() -> (s: Script)
    ensures
        s.lines() == script_lines(PRESS_BUTTON_B_TEXT@),
{
    proof {
        reveal_strlit("\nB:0.1\n0.2\n");
        lemma_short_text_fits(PRESS_BUTTON_B_TEXT@);
    }
    Script::new(PRESS_BUTTON_B_TEXT)
}

/// The actions of [`open_gmae`].
pub const OPENGAME_TEXT: &'static str = "\nA:0.1\n1.5\nA:0.1\n19\nA:0.1\n1\nA:0.1\n1\nA:0.1\n21\n";

/// Opens Pokemon Scarlet/Violet from the HOME menu.
pub fn open_gmae() -> (s: Script)
    ensures
        s.lines() == script_lines(OPENGAME_TEXT@),
{
    proof {
        reveal_strlit("\nA:0.1\n1.5\nA:0.1\n19\nA:0.1\n1\nA:0.1\n1\nA:0.1\n21\n");
        lemma_short_text_fits(OPENGAME_TEXT@);
    }
    Script::new(OPENGAME_TEXT)
}

/// The actions of [`restart`].
pub const RESTART_TEXT: &'static str = "";

/// Restarts Pokemon Scarlet/Violet (no actions yet).
pub fn restart() -> (s: Script)
    ensures
        s.lines() == script_lines(RESTART_TEXT@),
{
    proof {
        reveal_strlit("");
        lemma_short_text_fits(RESTART_TEXT@);
    }
    Script::new(RESTART_TEXT)
}

/// `scripts` are, in order, the scripts of `texts`.
pub open spec fn scripts_of(scripts: Seq<Script>, texts: Seq<Seq<char>>) -> bool {
    &&& scripts.len() == texts.len()
    &&& forall|i: int| 0 <= i < texts.len() ==> (#[trigger] scripts[i]).lines() == script_lines(texts[i])
}

/// The texts of the common scripts, in order.
pub open spec fn common_script_texts() -> Seq<Seq<char>> {
    seq![
        WAKEUP_JOYSTICK_TEXT@,
        RETURN_HOME_TEXT@,
        RETURN_GAME_TEXT@,
        CLOSE_GAME_TEXT@,
        PRESS_BUTTON_A_TEXT@,
        PRESS_BUTTON_B_TEXT@,
    ]
}

/// The texts of the Pokemon Scarlet/Violet scripts, in order.
pub open spec fn pokemon_sv_script_texts() -> Seq<Seq<char>> {
    seq![OPENGAME_TEXT@, RESTART_TEXT@]
}

/// The common scripts.
pub fn get_common_scripts() -> (v: Vec<Script>)
    ensures
        scripts_of(v@, common_script_texts()),
{
    let mut v: Vec<Script> = Vec::new();
    v.push(wakeup_joystick());
    v.push(return_home());
    v.push(return_game());
    v.push(close_game());
    v.push(press_button_a());
    v.push(press_button_b());
    v
}

/// The Pokemon Scarlet/Violet scripts.
pub fn get_pokemon_sv_scripts() -> (v: Vec<Script>)
    ensures
        scripts_of(v@, pokemon_sv_script_texts()),
{
    let mut v: Vec<Script> = Vec::new();
    v.push(open_gmae());
    v.push(restart());
    v
}

/// The Pokemon scripts, of all games.
pub fn get_pokemon_scripts() -> (v: Vec<Script>)
    ensures
        scripts_of(v@, pokemon_sv_script_texts()),
{
    let mut v: Vec<Script> = Vec::new();
    let mut scripts = get_pokemon_sv_scripts();
    v.append(&mut scripts);
    v
}

/// All scripts: the common ones, then the Pokemon ones.
pub fn get_scripts() -> (v: Vec<Script>)
    ensures
        scripts_of(v@, common_script_texts() + pokemon_sv_script_texts()),
{
    let mut v: Vec<Script> = Vec::new();
    let mut common = get_common_scripts();
    v.append(&mut common);
    let mut pokemon = get_pokemon_scripts();
    let ghost before = v@;
    let ghost pk = pokemon@;
    v.append(&mut pokemon);
    assert forall|i: int|
        0 <= i < (common_script_texts() + pokemon_sv_script_texts()).len() implies (
    #[trigger] v@[i]).lines() == script_lines(
        (common_script_texts() + pokemon_sv_script_texts())[i],
    ) by {
        if i < 6 {
            assert(v@[i] == before[i]);
        } else {
            assert(v@[i] == pk[i - 6]);
        }
    }
    v
}

} // verus!
