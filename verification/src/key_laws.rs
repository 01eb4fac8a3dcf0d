//! What each key does, and where the panes stand.

use vstd::prelude::*;

use crate::app::{
    adjusted, in_next_category, in_prev_category, moved_down, moved_up, segment_moved_down,
    segment_moved_up, toggled, AppView,
};
use crate::keys::{
    action_of, command_of, commanded, delete_question, edit_action, reload_note, reload_of, Action,
    Command, Reload,
};
use crate::layout::layout_of;
use crate::replace::{step_after, Step};
use crate::style::in_palette;

verus! {

/// Which keys stand for which command. No key stands for two, and every other key
/// for none.
pub proof fn law_keys(key: Seq<char>)
    ensures
        command_of(key) == Command::Quit <==> key == "q"@ || key == "ESC"@,
        command_of(key) == Command::Down <==> key == "j"@ || key == "DOWN"@,
        command_of(key) == Command::Up <==> key == "k"@ || key == "UP"@,
        command_of(key) == Command::SegmentDown <==> key == "J"@,
        command_of(key) == Command::SegmentUp <==> key == "K"@,
        command_of(key) == Command::NextCategory <==> key == "PgDOWN"@ || key == "TAB"@,
        command_of(key) == Command::PrevCategory <==> key == "PgUP"@ || key == "S-TAB"@,
        command_of(key) == Command::Increase <==> key == "l"@ || key == "RIGHT"@,
        command_of(key) == Command::Decrease <==> key == "h"@ || key == "LEFT"@,
        command_of(key) == Command::Edit <==> key == "ENTER"@,
        command_of(key) == Command::Toggle <==> key == "t"@ || key == "T"@,
        command_of(key) == Command::Add <==> key == "a"@ || key == "A"@,
        command_of(key) == Command::Delete <==> key == "d"@ || key == "D"@,
        command_of(key) == Command::Save <==> key == "W"@ || key == "s"@,
        command_of(key) == Command::Resize <==> key == "RESIZE"@,
{
    reveal_strlit("q");
    reveal_strlit("ESC");
    reveal_strlit("j");
    reveal_strlit("DOWN");
    reveal_strlit("k");
    reveal_strlit("UP");
    reveal_strlit("J");
    reveal_strlit("K");
    reveal_strlit("PgDOWN");
    reveal_strlit("TAB");
    reveal_strlit("PgUP");
    reveal_strlit("S-TAB");
    reveal_strlit("l");
    reveal_strlit("RIGHT");
    reveal_strlit("h");
    reveal_strlit("LEFT");
    reveal_strlit("ENTER");
    reveal_strlit("t");
    reveal_strlit("T");
    reveal_strlit("a");
    reveal_strlit("A");
    reveal_strlit("d");
    reveal_strlit("D");
    reveal_strlit("W");
    reveal_strlit("s");
    reveal_strlit("RESIZE");
    // Keys of the same length differ in their first character but for two.
    assert("q"@.len() == 1 && "j"@.len() == 1 && "k"@.len() == 1 && "J"@.len() == 1);
    assert("K"@.len() == 1 && "l"@.len() == 1 && "h"@.len() == 1 && "t"@.len() == 1);
    assert("T"@.len() == 1 && "a"@.len() == 1 && "A"@.len() == 1 && "d"@.len() == 1);
    assert("D"@.len() == 1 && "W"@.len() == 1 && "s"@.len() == 1);
    assert("UP"@.len() == 2 && "ESC"@.len() == 3 && "TAB"@.len() == 3);
    assert("DOWN"@.len() == 4 && "PgUP"@.len() == 4 && "LEFT"@.len() == 4);
    assert("S-TAB"@.len() == 5 && "RIGHT"@.len() == 5 && "ENTER"@.len() == 5);
    assert("PgDOWN"@.len() == 6 && "RESIZE"@.len() == 6);
    assert("q"@[0] == 'q' && "j"@[0] == 'j' && "k"@[0] == 'k' && "J"@[0] == 'J');
    assert("K"@[0] == 'K' && "l"@[0] == 'l' && "h"@[0] == 'h' && "t"@[0] == 't');
    assert("T"@[0] == 'T' && "a"@[0] == 'a' && "A"@[0] == 'A' && "d"@[0] == 'd');
    assert("D"@[0] == 'D' && "W"@[0] == 'W' && "s"@[0] == 's');
    assert("ESC"@[0] == 'E' && "TAB"@[0] == 'T' && "DOWN"@[0] == 'D' && "PgUP"@[0] == 'P');
    assert("LEFT"@[0] == 'L' && "S-TAB"@[0] == 'S' && "RIGHT"@[0] == 'R' && "ENTER"@[0] == 'E');
    assert("PgDOWN"@[0] == 'P' && "RESIZE"@[0] == 'R');
}

/// What each command does at once. Those that ask something change nothing yet,
/// nor do those to quit and to lay the panes out anew; saving only notes that
/// there is nothing to save.
pub proof fn law_commands(a: AppView)
    ensures
        commanded(a, Command::Down) == moved_down(a),
        commanded(a, Command::Up) == moved_up(a),
        commanded(a, Command::SegmentDown) == segment_moved_down(a),
        commanded(a, Command::SegmentUp) == segment_moved_up(a),
        commanded(a, Command::NextCategory) == in_next_category(a),
        commanded(a, Command::PrevCategory) == in_prev_category(a),
        commanded(a, Command::Increase) == adjusted(a, 1),
        commanded(a, Command::Decrease) == adjusted(a, -1),
        commanded(a, Command::Toggle) == toggled(a),
        commanded(a, Command::Quit) == a,
        commanded(a, Command::Edit) == a,
        commanded(a, Command::Add) == a,
        commanded(a, Command::Delete) == a,
        commanded(a, Command::Resize) == a,
        commanded(a, Command::Nothing) == a,
        ({
            let s = commanded(a, Command::Save);
            &&& !s.dirty && s.globals == a.globals && s.segments == a.segments
            &&& s.leading_comments == a.leading_comments
            &&& s.cat_index == a.cat_index && s.item_index == a.item_index
        }),
{
}

/// What is done at the terminal after each command. Only a key that stands for
/// nothing is ignored; to edit, to add and to delete something is asked about
/// only where there is something to edit, to add to, to delete.
pub proof fn law_actions(a: AppView, c: Command)
    ensures
        action_of(a, c) == Action::Ignore <==> c == Command::Nothing,
        action_of(a, c) == Action::Leave <==> c == Command::Quit && !a.dirty,
        action_of(a, c) == Action::ConfirmQuit <==> c == Command::Quit && a.dirty,
        action_of(a, c) == Action::Save <==> c == Command::Save,
        action_of(a, c) == Action::Relayout <==> c == Command::Resize,
        action_of(a, c) == Action::EditGlobal <==> c == Command::Edit && a.cat_index == 0
            && a.item_index < 8,
        action_of(a, c) == Action::EditSegment <==> c == Command::Edit && a.cat_index != 0
            && a.item_index < a.segments.len(),
        action_of(a, c) == Action::AddSegment <==> c == Command::Add && a.cat_index == 1,
        action_of(a, c) == Action::ConfirmDelete <==> c == Command::Delete && a.cat_index == 1
            && a.item_index < a.segments.len(),
        action_of(a, Command::Edit) == edit_action(a),
{
}

/// After a save, no key means nothing more, a yes a restart of the bar, any other
/// key none.
pub proof fn law_reload(key: Option<Seq<char>>)
    ensures
        reload_of(key) == Reload::Silent <==> key is None,
        reload_of(key) == Reload::Restart <==> key == Some(seq!['y']) || key == Some(seq!['Y']),
{
    reveal_strlit("y");
    reveal_strlit("Y");
    assert("y"@ =~= seq!['y']);
    assert("Y"@ =~= seq!['Y']);
}

/// What is said after a save, and what is asked before a deletion: the segment is
/// called by its name.
pub proof fn law_notes(name: Seq<char>)
    ensures
        reload_note(Some(true)) == in_palette(" Saved + restarted strip"@, 82),
        reload_note(Some(false)) == in_palette(" Saved + spawned strip"@, 82),
        reload_note(None) == in_palette(" Saved (no restart)"@, 82),
        delete_question(name) == in_palette(
            " Delete segment '"@ + (name + "'? (y/N)"@),
            220,
        ),
{
    assert(" Delete segment '"@ + name + "'? (y/N)"@ =~= " Delete segment '"@ + (name
        + "'? (y/N)"@));
}

/// Where the panes stand. The heading is the first line and the status the last,
/// over the whole width; the categories are 21 wide, the items take what is left
/// of the width but for 26, both what is left of the height but for four lines.
pub proof fn law_layout(cols: u16, rows: u16)
    ensures
        ({
            let l = layout_of(cols, rows);
            &&& l.top.x == 1 && l.top.y == 1 && l.top.w == cols && l.top.h == 1
            &&& l.top.fg == 0 && l.top.bg == 236 && !l.top.border
            &&& l.status.x == 1 && l.status.y == rows && l.status.w == cols && l.status.h == 1
            &&& l.status.fg == 252 && l.status.bg == 236 && !l.status.border
            &&& l.left.x == 2 && l.left.y == 3 && l.left.w == 21
            &&& l.left.fg == 255 && l.left.bg == 0 && l.left.border
            &&& l.right.x == 25 && l.right.y == 3
            &&& l.right.fg == 252 && l.right.bg == 0 && l.right.border
            &&& rows >= 4 ==> l.left.h == rows - 4 && l.right.h == rows - 4
            &&& rows < 4 ==> l.left.h == 0 && l.right.h == 0
            &&& cols >= 26 ==> l.right.w == cols - 26
            &&& cols < 26 ==> l.right.w == 0
        }),
{
}

/// The steps of replacing a file follow each other; only a failed write of the
/// new text ends them early.
pub proof fn law_steps(ok: bool)
    ensures
        step_after(Step::WriteTemp, true) == Some(Step::KeepOld),
        step_after(Step::WriteTemp, false) is None,
        step_after(Step::KeepOld, ok) == Some(Step::Install),
        step_after(Step::Install, ok) is None,
{
}

} // verus!
