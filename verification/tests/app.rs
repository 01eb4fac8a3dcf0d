use stripconf::app::App;
use stripconf::edit::{add_question, AddStep, SegmentAnswers};
use stripconf::keys::{
    quit_prompt, read_command, reload_message, reload_prompt, Action, Command, Reload,
};
use stripconf::layout::layout;
use stripconf::replace::Step;

fn three() -> App {
    let mut a = App::new(Some("segment a x\nsegment b y 5\nsegment c z\n"));
    a.next_category();
    a
}

fn names(a: &App) -> String {
    a.segments.iter().map(|s| s.name.as_str()).collect()
}

fn answers(name: &str, gap: &str, color: &str, command: &str, interval: &str) -> SegmentAnswers {
    SegmentAnswers {
        name: name.to_string(),
        gap: gap.to_string(),
        color: color.to_string(),
        command: command.to_string(),
        interval: interval.to_string(),
    }
}

#[test]
fn selection_stays_in_the_list() {
    let mut a = three();
    assert_eq!((a.cat_index, a.item_index, a.current_items_len()), (1, 0, 3));
    a.move_up();
    assert_eq!(a.item_index, 0);
    for _ in 0..5 {
        a.move_down();
    }
    assert_eq!(a.item_index, 2);
    a.next_category();
    assert_eq!((a.cat_index, a.item_index), (1, 2));
    a.prev_category();
    assert_eq!((a.cat_index, a.item_index, a.current_items_len()), (0, 0, 8));
    a.prev_category();
    assert_eq!(a.cat_index, 0);
    assert!(!a.dirty);
    assert_eq!((a.category_count(), a.category_name(0), a.category_name(1)), (2, "Bar globals", "Segments"));
}

#[test]
fn clamping_brings_the_selection_back() {
    let mut a = three();
    a.item_index = 9;
    a.clamp_item_index();
    assert_eq!(a.item_index, 2);
    a.segments.clear();
    a.clamp_item_index();
    assert_eq!(a.item_index, 0);
}

#[test]
fn settings_are_stepped_within_limits() {
    let mut a = App::new(None);
    a.adjust(1);
    assert_eq!((a.globals.height, a.dirty), (23, true));
    a.adjust(-100);
    assert_eq!(a.globals.height, 0);
    a.globals.height = 5000;
    a.adjust(1);
    assert_eq!(a.globals.height, 200);
    a.item_index = 6;
    a.adjust(i32::MAX);
    assert_eq!(a.globals.char_width, 64);
    let mut b = App::new(None);
    b.item_index = 2;
    b.adjust(1);
    assert!(!b.dirty);
    let mut c = three();
    c.adjust(1);
    assert!(!c.dirty);
}

#[test]
fn segments_are_switched() {
    let mut a = three();
    a.toggle_segment();
    assert_eq!((a.segments[0].enabled, a.dirty), (false, true));
    a.toggle_segment();
    assert!(a.segments[0].enabled);
    let mut b = App::new(Some("segment a x\n"));
    b.toggle_segment();
    assert!(!b.dirty);
}

#[test]
fn segments_are_moved() {
    let mut a = three();
    a.move_segment_up();
    assert_eq!((names(&a).as_str(), a.dirty), ("abc", false));
    a.move_segment_down();
    assert_eq!((names(&a).as_str(), a.item_index), ("bac", 1));
    a.move_segment_down();
    assert_eq!((names(&a).as_str(), a.item_index), ("bca", 2));
    a.move_segment_down();
    assert_eq!((names(&a).as_str(), a.item_index), ("bca", 2));
    a.move_segment_up();
    a.move_segment_up();
    assert_eq!((names(&a).as_str(), a.item_index, a.dirty), ("abc", 0, true));
}

#[test]
fn segments_are_deleted_on_yes_only() {
    let mut a = three();
    a.item_index = 2;
    assert_eq!(a.delete_prompt(), Some("\x1b[38;5;220m Delete segment 'c'? (y/N)\x1b[39m".to_string()));
    a.delete_segment(None);
    a.delete_segment(Some("n"));
    a.delete_segment(Some("yes"));
    assert_eq!((names(&a).as_str(), a.dirty), ("abc", false));
    a.delete_segment(Some("Y"));
    assert_eq!((names(&a).as_str(), a.item_index, a.dirty), ("ab", 1, true));
    a.delete_segment(Some("y"));
    a.delete_segment(Some("y"));
    assert_eq!((names(&a).as_str(), a.item_index), ("", 0));
    assert_eq!(a.delete_prompt(), None);
    a.delete_segment(Some("y"));
    assert_eq!(a.item_index, 0);
}

#[test]
fn settings_are_edited() {
    let mut a = App::new(None);
    let p = a.edit_global_prompt().unwrap();
    assert_eq!((p.label.as_str(), p.initial.as_str()), ("height: ", "22"));
    a.edit_global("  ");
    a.edit_global("tall");
    assert_eq!((a.globals.height, a.dirty), (22, false));
    a.edit_global(" 40 ");
    assert_eq!((a.globals.height, a.dirty), (40, true));
    let mut b = App::new(None);
    b.item_index = 2;
    assert_eq!(b.edit_global_prompt().unwrap().initial, "#000000");
    assert!(!b.is_answer_separable("1\u{e9}234"));
    assert!(b.is_answer_separable("red"));
    b.edit_global("red");
    assert!(!b.dirty);
    b.edit_global("ABCDEF");
    assert_eq!((b.globals.bg.as_str(), b.dirty), ("#abcdef", true));
    b.item_index = 5;
    assert!(b.is_answer_separable("1\u{e9}234"));
    b.edit_global(" fixed 1\u{e9} ");
    assert_eq!(b.globals.font, "fixed 1\u{e9}");
    b.item_index = 8;
    assert!(b.edit_global_prompt().is_none());
}

#[test]
fn answers_for_a_segment() {
    let mut a = three();
    a.item_index = 1;
    let p = a.edit_segment_prompts().unwrap();
    let labels: Vec<&str> = p.iter().map(|q| q.label.as_str()).collect();
    assert_eq!(
        labels,
        vec![
            "Name: ",
            "Extra gap (px, 0 for none): ",
            "Color (#RRGGBB, blank to use default fg): ",
            "Command (full, with args): ",
            "Interval seconds (0 = static): ",
        ]
    );
    let initials: Vec<&str> = p.iter().map(|q| q.initial.as_str()).collect();
    assert_eq!(initials, vec!["b", "0", "", "y", "5"]);
    a.edit_segment(&answers("", "x", "", " ", "-1"));
    assert!(!a.dirty);
    a.edit_segment(&answers(" n ", "7", "AABBCC", " run it ", "0"));
    let s = &a.segments[1];
    assert_eq!((s.name.as_str(), s.gap_override, s.color.as_str()), ("n", 7, "#aabbcc"));
    assert_eq!((s.command.as_str(), s.interval, a.dirty), ("run it", 0, true));
    let bad = answers("", "", "1\u{e9}234", "", "");
    assert!(!a.are_answers_separable(&bad));
    let none = answers("", "", "red", "", "");
    assert!(a.are_answers_separable(&none));
    a.edit_segment(&none);
    assert_eq!(a.segments[1].color, "#aabbcc");
    a.edit_segment(&answers("", "", "", "", ""));
    assert_eq!(a.segments[1].color, "");
    a.item_index = 3;
    assert!(a.edit_segment_prompts().is_none());
}

#[test]
fn segments_are_added() {
    let mut a = three();
    let step = a.add_segment_start().unwrap();
    let q = add_question(&step);
    assert_eq!((q.label.as_str(), q.initial.as_str()), ("New segment name: ", ""));
    let step = a.add_segment(step, " new ").unwrap();
    let q = add_question(&step);
    assert_eq!((q.label.as_str(), q.initial.as_str()), ("Command: ", ""));
    let step = a.add_segment(step, "run\t").unwrap();
    let q = add_question(&step);
    assert_eq!((q.label.as_str(), q.initial.as_str()), ("Interval (0 = static): ", "0"));
    assert!(!a.dirty);
    assert!(a.add_segment(step, " 9 ").is_none());
    let s = &a.segments[3];
    assert_eq!((s.name.as_str(), s.command.as_str(), s.interval, s.enabled), ("new", "run", 9, true));
    assert_eq!((a.item_index, a.dirty), (3, true));
}

#[test]
fn adding_ends_on_an_empty_answer() {
    let mut a = three();
    assert!(a.add_segment(AddStep::Name, "  ").is_none());
    assert!(a.add_segment(AddStep::Command("n".to_string()), "").is_none());
    assert_eq!((a.segments.len(), a.dirty), (3, false));
    let last = AddStep::Interval("n".to_string(), "c".to_string());
    assert!(a.add_segment(last, "soon").is_none());
    assert_eq!(a.segments[3].interval, 0);
    assert!(App::new(None).add_segment_start().is_none());
}

#[test]
fn answers_are_trimmed() {
    assert_eq!(App::ask(" \t a b \u{3000}"), "a b");
}

#[test]
fn keys_are_commands() {
    for (key, command) in [
        ("q", Command::Quit),
        ("ESC", Command::Quit),
        ("j", Command::Down),
        ("DOWN", Command::Down),
        ("k", Command::Up),
        ("UP", Command::Up),
        ("J", Command::SegmentDown),
        ("K", Command::SegmentUp),
        ("PgDOWN", Command::NextCategory),
        ("TAB", Command::NextCategory),
        ("PgUP", Command::PrevCategory),
        ("S-TAB", Command::PrevCategory),
        ("l", Command::Increase),
        ("RIGHT", Command::Increase),
        ("h", Command::Decrease),
        ("LEFT", Command::Decrease),
        ("ENTER", Command::Edit),
        ("t", Command::Toggle),
        ("T", Command::Toggle),
        ("a", Command::Add),
        ("A", Command::Add),
        ("d", Command::Delete),
        ("D", Command::Delete),
        ("W", Command::Save),
        ("s", Command::Save),
        ("RESIZE", Command::Resize),
        ("S", Command::Nothing),
        ("w", Command::Nothing),
        ("", Command::Nothing),
    ] {
        assert_eq!(read_command(key), command, "{:?}", key);
    }
}

#[test]
fn keys_change_the_state() {
    let mut a = App::new(Some("segment a x\n"));
    assert_eq!(a.handle_key("q"), Action::Leave);
    assert_eq!(a.handle_key("l"), Action::Redraw);
    assert_eq!((a.globals.height, a.dirty), (23, true));
    assert_eq!(a.handle_key("q"), Action::ConfirmQuit);
    assert_eq!(a.handle_key("h"), Action::Redraw);
    assert_eq!(a.globals.height, 22);
    assert_eq!(a.handle_key("s"), Action::Save);
    assert!(!a.dirty);
    assert_eq!(a.handle_key("ENTER"), Action::EditGlobal);
    assert_eq!(a.handle_key("a"), Action::Redraw);
    assert_eq!(a.handle_key("d"), Action::Redraw);
    assert_eq!(a.handle_key("TAB"), Action::Redraw);
    assert_eq!(a.cat_index, 1);
    assert_eq!(a.edit_value(), Action::EditSegment);
    assert_eq!(a.handle_key("ENTER"), Action::EditSegment);
    assert_eq!(a.handle_key("a"), Action::AddSegment);
    assert_eq!(a.handle_key("d"), Action::ConfirmDelete);
    assert_eq!(a.handle_key("t"), Action::Redraw);
    assert!(a.dirty);
    assert_eq!(a.handle_key("RESIZE"), Action::Relayout);
    assert_eq!(a.handle_key("x"), Action::Ignore);
    a.delete_segment(Some("y"));
    assert_eq!(a.handle_key("ENTER"), Action::Redraw);
    assert_eq!(a.handle_key("d"), Action::Redraw);
}

#[test]
fn saving_offers_a_restart() {
    assert_eq!(App::prompt_reload(None), Reload::Silent);
    assert_eq!(App::prompt_reload(Some("y")), Reload::Restart);
    assert_eq!(App::prompt_reload(Some("Y")), Reload::Restart);
    assert_eq!(App::prompt_reload(Some("n")), Reload::Skip);
    assert_eq!(quit_prompt(), "\x1b[38;5;220m Save changes? (y/n)\x1b[39m");
    assert_eq!(reload_prompt(), "\x1b[38;5;220m Saved. Restart strip? (y/N)\x1b[39m");
    assert_eq!(reload_message(Some(true)), "\x1b[38;5;82m Saved + restarted strip\x1b[39m");
    assert_eq!(reload_message(Some(false)), "\x1b[38;5;82m Saved + spawned strip\x1b[39m");
    assert_eq!(reload_message(None), "\x1b[38;5;82m Saved (no restart)\x1b[39m");
}

#[test]
fn panes_are_laid_out() {
    let l = layout(80, 24);
    assert_eq!((l.top.x, l.top.y, l.top.w, l.top.h, l.top.fg, l.top.bg), (1, 1, 80, 1, 0, 236));
    assert_eq!((l.left.x, l.left.y, l.left.w, l.left.h, l.left.fg, l.left.bg), (2, 3, 21, 20, 255, 0));
    assert_eq!((l.right.x, l.right.y, l.right.w, l.right.h, l.right.fg, l.right.bg), (25, 3, 54, 20, 252, 0));
    assert_eq!((l.status.x, l.status.y, l.status.w, l.status.h), (1, 24, 80, 1));
    assert_eq!((l.left.border, l.right.border, l.top.border, l.status.border), (true, true, false, false));
    let s = layout(10, 2);
    assert_eq!((s.right.w, s.right.h, s.left.h), (0, 0, 0));
}

#[test]
fn a_file_is_replaced_in_three_steps() {
    let s = Step::first();
    assert_eq!(s, Step::WriteTemp);
    assert_eq!(s.next(false), None);
    assert_eq!(s.next(true), Some(Step::KeepOld));
    assert_eq!(Step::KeepOld.next(false), Some(Step::Install));
    assert_eq!(Step::KeepOld.next(true), Some(Step::Install));
    assert_eq!(Step::Install.next(true), None);
    assert_eq!(Step::Install.next(false), None);
}

fn is_read_back(a: &App) -> bool {
    let b = App::new(Some(&a.save_config()));
    let parts = |x: &App| -> Vec<(String, u32, String, String, u32)> {
        x.segments
            .iter()
            .map(|s| (s.name.clone(), s.gap_override, s.color.clone(), s.command.clone(), s.interval))
            .collect()
    };
    parts(a) == parts(&b)
}

#[test]
fn fitting_answers_are_read_back() {
    let mut a = three();
    a.edit_segment(&answers("cpu", "7", "AABBCC", "+5 #112233 x", "9"));
    assert!(is_read_back(&a));
    a.edit_segment(&answers("", "0", "", "", ""));
    assert_eq!(a.segments[0].command, "+5 #112233 x");
    assert!(!is_read_back(&a));
    a.edit_segment(&answers("", "", "", "sh -c 'x'", ""));
    assert!(is_read_back(&a));
    a.edit_segment(&answers("two words", "", "", "", ""));
    assert!(!is_read_back(&a));
}

#[test]
fn fitting_new_segments_are_read_back() {
    for (name, command, interval, fits) in [
        ("n", "date", "0", true),
        ("n", "date 5", "3", true),
        ("n", "date 5", "0", false),
        ("n", "+5 date", "3", false),
        ("n", "#112233", "3", false),
        ("n m", "date", "3", false),
    ] {
        let mut a = three();
        let step = a.add_segment(AddStep::Name, name).unwrap();
        let step = a.add_segment(step, command).unwrap();
        assert!(a.add_segment(step, interval).is_none());
        assert_eq!(is_read_back(&a), fits, "{:?} {:?} {:?}", name, command, interval);
    }
}
