//! The keys of the editor: what each one changes, and what is to be done at the
//! terminal next.

use vstd::prelude::*;
use vstd::string::StringExecFns;

use crate::app::{
    adjusted, app_wf, in_next_category, in_prev_category, moved_down, moved_up, on_segment,
    segment_moved_down, segment_moved_up, toggled, App, AppView,
};
use crate::edit::{is_yes, key_view, says_yes};
use crate::globals::{key_at, GlobalKey};
use crate::style::in_palette;
use crate::text::{chars_of, is_text};

verus! {

/// What a key stands for.
#[derive(Clone, Copy, PartialEq, Eq, Structural, Debug)]
pub enum Command {
    Quit,
    Down,
    Up,
    SegmentDown,
    SegmentUp,
    NextCategory,
    PrevCategory,
    Increase,
    Decrease,
    Edit,
    Toggle,
    Add,
    Delete,
    Save,
    Resize,
    Nothing,
}

/// What is to be done at the terminal.
#[derive(Clone, Copy, PartialEq, Eq, Structural, Debug)]
pub enum Action {
    /// Wait for the next key.
    Ignore,
    /// Show the state.
    Redraw,
    /// Lay the panes out anew and show the state.
    Relayout,
    /// End the editor.
    Leave,
    /// Ask whether to save, then end the editor.
    ConfirmQuit,
    /// Write the file, offer a restart of the bar, show the state.
    Save,
    /// Ask for the selected setting, show the state.
    EditGlobal,
    /// Ask for the selected segment, show the state.
    EditSegment,
    /// Ask for a new segment, show the state.
    AddSegment,
    /// Ask whether to delete the selected segment, show the state.
    ConfirmDelete,
}

/// What to do about the running bar after a save.
#[derive(Clone, Copy, PartialEq, Eq, Structural, Debug)]
pub enum Reload {
    /// No key came: leave it at that.
    Silent,
    Restart,
    Skip,
}

/// The command of a key.
pub open spec fn command_of(key: Seq<char>) -> Command {
    if key == "q"@ || key == "ESC"@ {
        Command::Quit
    } else if key == "j"@ || key == "DOWN"@ {
        Command::Down
    } else if key == "k"@ || key == "UP"@ {
        Command::Up
    } else if key == "J"@ {
        Command::SegmentDown
    } else if key == "K"@ {
        Command::SegmentUp
    } else if key == "PgDOWN"@ || key == "TAB"@ {
        Command::NextCategory
    } else if key == "PgUP"@ || key == "S-TAB"@ {
        Command::PrevCategory
    } else if key == "l"@ || key == "RIGHT"@ {
        Command::Increase
    } else if key == "h"@ || key == "LEFT"@ {
        Command::Decrease
    } else if key == "ENTER"@ {
        Command::Edit
    } else if key == "t"@ || key == "T"@ {
        Command::Toggle
    } else if key == "a"@ || key == "A"@ {
        Command::Add
    } else if key == "d"@ || key == "D"@ {
        Command::Delete
    } else if key == "W"@ || key == "s"@ {
        Command::Save
    } else if key == "RESIZE"@ {
        Command::Resize
    } else {
        Command::Nothing
    }
}

/// The state after a command.
pub open spec fn commanded(a: AppView, c: Command) -> AppView {
    match c {
        Command::Down => moved_down(a),
        Command::Up => moved_up(a),
        Command::SegmentDown => segment_moved_down(a),
        Command::SegmentUp => segment_moved_up(a),
        Command::NextCategory => in_next_category(a),
        Command::PrevCategory => in_prev_category(a),
        Command::Increase => adjusted(a, 1),
        Command::Decrease => adjusted(a, -1),
        Command::Toggle => toggled(a),
        Command::Save => AppView { dirty: false, ..a },
        _ => a,
    }
}

/// What editing means in a state: the selected setting or the selected segment,
/// if there is one.
pub open spec fn edit_action(a: AppView) -> Action {
    if a.cat_index == 0 {
        if key_at(a.item_index as int) is Some {
            Action::EditGlobal
        } else {
            Action::Redraw
        }
    } else if a.item_index < a.segments.len() {
        Action::EditSegment
    } else {
        Action::Redraw
    }
}

/// What is to be done at the terminal for a command given in a state.
pub open spec fn action_of(a: AppView, c: Command) -> Action {
    match c {
        Command::Quit => if a.dirty {
            Action::ConfirmQuit
        } else {
            Action::Leave
        },
        Command::Edit => edit_action(a),
        Command::Add => if a.cat_index == 1 {
            Action::AddSegment
        } else {
            Action::Redraw
        },
        Command::Delete => if on_segment(a) {
            Action::ConfirmDelete
        } else {
            Action::Redraw
        },
        Command::Save => Action::Save,
        Command::Resize => Action::Relayout,
        Command::Nothing => Action::Ignore,
        _ => Action::Redraw,
    }
}

/// What a key after a save says about the running bar.
pub open spec fn reload_of(key: Option<Seq<char>>) -> Reload {
    if key is None {
        Reload::Silent
    } else if is_yes(key) {
        Reload::Restart
    } else {
        Reload::Skip
    }
}

/// The note after a save: whether the bar was restarted, and if so whether it
/// had been running.
pub open spec fn reload_note(restarted: Option<bool>) -> Seq<char> {
    match restarted {
        Some(true) => in_palette(" Saved + restarted strip"@, 82),
        Some(false) => in_palette(" Saved + spawned strip"@, 82),
        None => in_palette(" Saved (no restart)"@, 82),
    }
}

/// The question before a segment is deleted.
pub open spec fn delete_question(name: Seq<char>) -> Seq<char> {
    in_palette(" Delete segment '"@ + name + "'? (y/N)"@, 220)
}

/// Only an unsaved state makes the editor ask before it ends, and it never ends
/// on another key than those to quit.
pub proof fn law_quit(a: AppView, c: Command)
    ensures
        action_of(a, c) == Action::Leave <==> c == Command::Quit && !a.dirty,
        action_of(a, c) == Action::ConfirmQuit <==> c == Command::Quit && a.dirty,
{
}

/// A key that changes what a file would hold also notes that there is something
/// to save.
pub proof fn law_commands_are_noted(a: AppView, c: Command)
    ensures
        ({
            let b = commanded(a, c);
            ||| b.dirty
            ||| b.globals == a.globals && b.segments == a.segments && b.leading_comments
                == a.leading_comments
        }),
{
}

/// The command of a key.
pub fn read_command(key: &str) -> (c: Command)
    ensures
        c == command_of(key@),
{
    let cs = chars_of(key);
    let k = cs.as_slice();
    if is_text(k, "q") || is_text(k, "ESC") {
        Command::Quit
    } else if is_text(k, "j") || is_text(k, "DOWN") {
        Command::Down
    } else if is_text(k, "k") || is_text(k, "UP") {
        Command::Up
    } else if is_text(k, "J") {
        Command::SegmentDown
    } else if is_text(k, "K") {
        Command::SegmentUp
    } else if is_text(k, "PgDOWN") || is_text(k, "TAB") {
        Command::NextCategory
    } else if is_text(k, "PgUP") || is_text(k, "S-TAB") {
        Command::PrevCategory
    } else if is_text(k, "l") || is_text(k, "RIGHT") {
        Command::Increase
    } else if is_text(k, "h") || is_text(k, "LEFT") {
        Command::Decrease
    } else if is_text(k, "ENTER") {
        Command::Edit
    } else if is_text(k, "t") || is_text(k, "T") {
        Command::Toggle
    } else if is_text(k, "a") || is_text(k, "A") {
        Command::Add
    } else if is_text(k, "d") || is_text(k, "D") {
        Command::Delete
    } else if is_text(k, "W") || is_text(k, "s") {
        Command::Save
    } else if is_text(k, "RESIZE") {
        Command::Resize
    } else {
        Command::Nothing
    }
}

/// The question before the editor ends with unsaved changes.
pub fn quit_prompt() -> (r: String)
    ensures
        r@ == in_palette(" Save changes? (y/n)"@, 220),
{
    crust::style::fg(" Save changes? (y/n)", 220)
}

/// The question after a save.
pub fn reload_prompt() -> (r: String)
    ensures
        r@ == in_palette(" Saved. Restart strip? (y/N)"@, 220),
{
    crust::style::fg(" Saved. Restart strip? (y/N)", 220)
}

/// The note after a save.
pub fn reload_message(restarted: Option<bool>) -> (r: String)
    ensures
        r@ == reload_note(restarted),
{
    match restarted {
        Some(true) => crust::style::fg(" Saved + restarted strip", 82),
        Some(false) => crust::style::fg(" Saved + spawned strip", 82),
        None => crust::style::fg(" Saved (no restart)", 82),
    }
}

impl App {
    /// What the key after a save says about the running bar.
    pub fn prompt_reload(key: Option<&str>) -> (r: Reload)
        ensures
            r == reload_of(key_view(key)),
    {
        if key.is_none() {
            Reload::Silent
        } else if says_yes(key) {
            Reload::Restart
        } else {
            Reload::Skip
        }
    }

    /// The question before the selected segment is deleted, `None` if there is none.
    pub fn delete_prompt(&self) -> (r: Option<String>)
        ensures
            r is Some <==> on_segment(self@),
            r is Some ==> r->0@ == delete_question(self@.segments[self@.item_index as int].name),
    {
        if self.cat_index != 1 || self.item_index >= self.segments.len() {
            return None;
        }
        let seg = &self.segments[self.item_index];
        let mut t = String::new();
        t.append(" Delete segment '");
        t.append(seg.name.as_str());
        t.append("'? (y/N)");
        assert(t@ =~= " Delete segment '"@ + seg@.name + "'? (y/N)"@);
        Some(crust::style::fg(t.as_str(), 220))
    }

    /// What editing means in the current state.
    pub fn edit_value(&self) -> (r: Action)
        ensures
            r == edit_action(self@),
    {
        match self.cat_index {
            0 => if GlobalKey::at(self.item_index).is_some() {
                Action::EditGlobal
            } else {
                Action::Redraw
            },
            _ => if self.item_index < self.segments.len() {
                Action::EditSegment
            } else {
                Action::Redraw
            },
        }
    }

    /// Takes a key. Returns what is to be done at the terminal.
    pub fn handle_key(&mut self, key: &str) -> (r: Action)
        ensures
            final(self)@ == commanded(old(self)@, command_of(key@)),
            r == action_of(old(self)@, command_of(key@)),
            app_wf(old(self)@) ==> app_wf(final(self)@),
    {
        match read_command(key) {
            Command::Quit => {
                return if self.dirty {
                    Action::ConfirmQuit
                } else {
                    Action::Leave
                };
            },
            Command::Down => self.move_down(),
            Command::Up => self.move_up(),
            Command::SegmentDown => self.move_segment_down(),
            Command::SegmentUp => self.move_segment_up(),
            Command::NextCategory => self.next_category(),
            Command::PrevCategory => self.prev_category(),
            Command::Increase => self.adjust(1),
            Command::Decrease => self.adjust(-1),
            Command::Edit => {
                return self.edit_value();
            },
            Command::Toggle => self.toggle_segment(),
            Command::Add => {
                return if self.cat_index == 1 {
                    Action::AddSegment
                } else {
                    Action::Redraw
                };
            },
            Command::Delete => {
                return if self.cat_index == 1 && self.item_index < self.segments.len() {
                    Action::ConfirmDelete
                } else {
                    Action::Redraw
                };
            },
            Command::Save => {
                self.dirty = false;
                return Action::Save;
            },
            Command::Resize => {
                return Action::Relayout;
            },
            Command::Nothing => {
                return Action::Ignore;
            },
        }
        Action::Redraw
    }
}

} // verus!
