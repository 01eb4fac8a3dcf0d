use stripconf::app::App;
use stripconf::config::is_loadable;
use stripconf::segment::Segment;

const SAMPLE: &str = "# strip settings\n\nheight = 30\nbg = #FF0000\nfuture = on\nsegment cpu +4 #00FF00 cpu.sh 5\n# about memory\n#segment mem mem.sh 10\n  #   segment off\nnoise\n\n# the end\n";

fn load(content: &str) -> App {
    assert!(is_loadable(content));
    App::new(Some(content))
}

fn parts_of(s: &Segment) -> (bool, String, u32, String, String, u32) {
    (s.enabled, s.name.clone(), s.gap_override, s.color.clone(), s.command.clone(), s.interval)
}

fn all_parts(a: &App) -> Vec<(bool, String, u32, String, String, u32)> {
    a.segments.iter().map(parts_of).collect()
}

#[test]
fn without_a_file_there_are_defaults() {
    let a = App::new(None);
    assert_eq!((a.cat_index, a.item_index, a.dirty), (0, 0, false));
    assert_eq!((a.globals.height, a.globals.top_offset, a.globals.gap), (22, 0, 8));
    assert_eq!((a.globals.bg.as_str(), a.globals.fg.as_str()), ("#000000", "#cccccc"));
    assert_eq!((a.globals.font.as_str(), a.globals.char_width, a.globals.baseline), ("", 0, 0));
    assert!(a.segments.is_empty());
    assert!(a.leading_comments.is_empty());
}

#[test]
fn sample_is_read() {
    let a = load(SAMPLE);
    assert_eq!(a.globals.height, 30);
    assert_eq!(a.globals.bg, "#ff0000");
    assert_eq!(a.leading_comments, vec!["# strip settings", ""]);
    assert_eq!(a.segments.len(), 3);
    assert_eq!(
        parts_of(&a.segments[0]),
        (true, "cpu".to_string(), 4, "#00ff00".to_string(), "cpu.sh".to_string(), 5)
    );
    assert_eq!(a.segments[0].comments_above, vec!["future = on"]);
    assert_eq!(
        parts_of(&a.segments[1]),
        (false, "mem".to_string(), 0, String::new(), "mem.sh".to_string(), 10)
    );
    assert_eq!(a.segments[1].comments_above, vec!["# about memory"]);
    assert_eq!(a.segments[2].name, "off");
    assert!(!a.segments[2].enabled);
    assert_eq!(a.segments[2].comments_above, vec!["\u{1}noise", "\u{1}", "\u{1}# the end"]);
    assert!(!a.dirty);
}

#[test]
fn sample_is_written() {
    assert_eq!(
        load(SAMPLE).save_config(),
        "# strip settings\n\n\nheight     = 30\ntop_offset = 0\nbg         = #ff0000\nfg         = #cccccc\ngap        = 8\n\nfuture = on\nsegment cpu +4 #00ff00 cpu.sh 5\n# about memory\n# segment mem mem.sh 10\n# segment off\nnoise\n\n# the end\n"
    );
}

#[test]
fn written_sample_is_read_back() {
    let a = load(SAMPLE);
    let b = load(&a.save_config());
    assert_eq!(all_parts(&a), all_parts(&b));
    assert_eq!(b.globals.height, 30);
    assert_eq!(b.globals.bg, "#ff0000");
    assert_eq!(b.leading_comments, vec!["# strip settings", "", ""]);
    assert_eq!(b.segments[0].comments_above, vec!["", "future = on"]);
    assert_eq!(b.segments[1].comments_above, vec!["# about memory"]);
    assert_eq!(b.segments[2].comments_above, vec!["\u{1}noise", "\u{1}", "\u{1}# the end"]);
}

#[test]
fn all_settings_are_read_back() {
    let a = load("height=1\ntop_offset = 2\nbg=010203\nfg = ##ABCDEF\ngap = +4\nfont =  a = b \nchar_width = 6\nbaseline = 7\n");
    let text = a.save_config();
    assert_eq!(
        text,
        "height     = 1\ntop_offset = 2\nbg         = #010203\nfg         = #abcdef\ngap        = 4\nfont       = a = b\nchar_width = 6\nbaseline   = 7\n\n"
    );
    let b = load(&text);
    assert_eq!(b.globals.font, "a = b");
    assert_eq!((b.globals.height, b.globals.top_offset, b.globals.gap), (1, 2, 4));
    assert_eq!((b.globals.bg.as_str(), b.globals.fg.as_str()), ("#010203", "#abcdef"));
    assert_eq!((b.globals.char_width, b.globals.baseline), (6, 7));
}

#[test]
fn bad_values_leave_the_setting_and_drop_the_line() {
    let a = load("height = tall\nbg = red\ngap =\n");
    assert_eq!(a.globals.height, 22);
    assert_eq!(a.globals.bg, "#000000");
    assert_eq!(a.globals.gap, 8);
    assert!(a.leading_comments.is_empty());
}

#[test]
fn every_kept_line_survives() {
    let content = "one\r\n\r\n# two\nx = 1\nsegment a b\n three \nsegment\n= 4\nsegment c d\nfive\r";
    let saved = load(content).save_config();
    let mut at = 0;
    for l in ["one", "", "# two", "x = 1", " three ", "segment", "= 4", "five\r"] {
        let needle = format!("{}\n", l);
        let found = saved[at..].find(&needle);
        assert!(found.is_some(), "{:?}", l);
        at += found.unwrap() + needle.len();
    }
}

#[test]
fn marked_line_between_segments_moves_to_the_end() {
    let saved = load("segment a b\n\u{1}odd\nsegment c d\n").save_config();
    assert!(saved.ends_with("segment a b\nsegment c d\nodd\n"));
}

#[test]
fn lines_without_segments_lead_the_file() {
    let a = load("# only\n\n# comments");
    assert_eq!(a.leading_comments, vec!["# only", "", "# comments"]);
    assert!(a.save_config().starts_with("# only\n\n# comments\n\nheight     = 22\n"));
}

#[test]
fn zero_interval_before_a_number_is_not_read_back() {
    let a = load("segment s x 5 0\n");
    let b = load(&a.save_config());
    assert_eq!((a.segments[0].command.as_str(), a.segments[0].interval), ("x 5", 0));
    assert_eq!((b.segments[0].command.as_str(), b.segments[0].interval), ("x", 5));
}

#[test]
fn files_across_a_cut_are_told() {
    assert!(!is_loadable("segment cpu #ab\u{65e5}\u{672c}\n"));
    assert!(!is_loadable("ok\n# segment cpu #12345\u{e9}"));
    assert!(!is_loadable("bg = 1\u{e9}234"));
    assert!(is_loadable("font = 1\u{e9}234\n# 1\u{e9}234\n"));
    assert!(is_loadable(""));
}

#[test]
fn settings_are_applied_by_name() {
    let mut a = App::new(None);
    assert!(a.apply_global("height", "99"));
    assert!(a.apply_global("fg", "ABCDEF"));
    assert!(a.apply_global("baseline", "x"));
    assert!(!a.apply_global("Height", "1"));
    assert!(!a.apply_global("", "1"));
    assert_eq!((a.globals.height, a.globals.fg.as_str(), a.globals.baseline), (99, "#abcdef", 0));
    assert!(!a.dirty);
}

#[test]
fn marked_line_between_segments_leaves_the_segments() {
    let a = load("segment a b\n\u{1}odd\nsegment c d\n");
    let b = load(&a.save_config());
    assert_eq!(all_parts(&a), all_parts(&b));
    let hidden = load("segment a b\n\u{1}segment x y\nsegment c d\n");
    assert_eq!(hidden.segments.len(), 2);
    assert_eq!(load(&hidden.save_config()).segments.len(), 3);
}

#[test]
fn edited_state_is_read_back() {
    let mut a = load(SAMPLE);
    for key in ["l", "l", "j", "l", "TAB", "t", "J", "j", "t"] {
        a.handle_key(key);
    }
    a.delete_segment(Some("y"));
    a.item_index = 0;
    a.prev_category();
    a.item_index = 5;
    a.edit_global(" fixed = 7 ");
    let b = load(&a.save_config());
    assert_eq!(all_parts(&a), all_parts(&b));
    assert_eq!(b.segments.len(), 2);
    assert_eq!((b.globals.height, b.globals.top_offset), (32, 1));
    assert_eq!(b.globals.font, "fixed = 7");
}

fn notes(text: &str) -> Vec<String> {
    let keys = ["height", "top_offset", "bg", "fg", "gap", "font", "char_width", "baseline"];
    text.lines()
        .filter(|l| {
            let t = l.trim();
            let u = t.strip_prefix('#').unwrap_or(t).trim_start();
            let key = t.split_once('=').map(|(k, _)| k.trim().to_string());
            let setting = key.map(|k| keys.contains(&k.as_str())).unwrap_or(false);
            !t.is_empty() && !u.starts_with("segment ") && (t.starts_with('#') || !setting)
        })
        .map(|l| l.to_string())
        .collect()
}

#[test]
fn a_comment_behind_a_setting_belongs_to_the_first_segment() {
    let a = load("height = 30\n# cpu\nsegment cpu top 5\n");
    assert_eq!(a.globals.height, 30);
    assert_eq!(a.segments.len(), 1);
    assert_eq!(a.segments[0].comments_above, vec!["# cpu"]);
    assert!(a.leading_comments.is_empty());
    assert_eq!(
        a.save_config(),
        "height     = 30\ntop_offset = 0\nbg         = #000000\nfg         = #cccccc\ngap        = 8\n\n# cpu\nsegment cpu top 5\n"
    );
}

#[test]
fn a_comment_before_everything_leads_the_file() {
    let a = load("# bar\nsegment cpu top 5\n# gap\ngap = 4\n# mem\nsegment mem free\n");
    assert_eq!(a.leading_comments, vec!["# bar"]);
    assert!(a.segments[0].comments_above.is_empty());
    assert_eq!(a.segments[1].comments_above, vec!["# gap", "# mem"]);
    let b = load("# bar\nheight = tall\n# cpu\n# more\n# segment cpu top 5\n");
    assert_eq!(b.leading_comments, vec!["# bar"]);
    assert_eq!(b.segments[0].comments_above, vec!["# cpu", "# more"]);
}

#[test]
fn comments_of_a_file_without_segments_lead_it() {
    let a = load("# a\nheight = 30\n# b\n");
    assert_eq!(a.leading_comments, vec!["# a", "# b"]);
    assert_eq!(load(&a.save_config()).leading_comments, vec!["# a", "# b", "", ""]);
}

#[test]
fn a_save_keeps_exactly_the_notes() {
    for content in [
        SAMPLE,
        "",
        "# a\n\n x = y \n# b\ngap = 3\n# c\nsegment s t\n?\n# segment u v 3\n\n# end",
        "one\r\n# two\r\nbg = red\r\nthree\r\nsegment a b\r\nfour\r\n",
        "segment\nsegment \n#\n# segment\n",
    ] {
        let written = load(content).save_config();
        assert_eq!(notes(&written), notes(content), "{:?}", content);
    }
}

#[test]
fn a_return_at_the_end_of_a_note_is_lost() {
    let written = load("# a\r").save_config();
    assert_eq!(notes("# a\r"), vec!["# a\r"]);
    assert_eq!(notes(&written), vec!["# a"]);
}
