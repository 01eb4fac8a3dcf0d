use stripconf::app::App;

#[test]
fn settings_are_shown() {
    let mut a = App::new(None);
    a.item_index = 1;
    let s = a.render();
    assert_eq!(
        s.top,
        " stripconf    bar: \x1b[48;2;0;0;0m\x1b[38;2;204;204;204m cpu mem disk \x1b[0m\x1b[0m "
    );
    assert_eq!(s.left, "\x1b[7m Bar globals \x1b[27m\n Segments ");
    assert_eq!(s.status, " 2/8  j/k:item h/l:adjust Enter:edit W/s:save q:quit");
    let rule = "\u{2500}".repeat(40);
    let dim = "\x1b[38;5;245m(default)\x1b[39m";
    let want: Vec<String> = vec![
        "\x1b[38;5;81m\x1b[1mBar globals\x1b[22m\x1b[39m".to_string(),
        format!("\x1b[38;5;245m{}\x1b[39m", rule),
        String::new(),
        "  height        22  ".to_string(),
        "  \x1b[4mtop_offset  \x1b[24m\u{25C0} 0 \u{25B6}".to_string(),
        "  bg            \x1b[48;2;0;0;0m    \x1b[0m #000000  ".to_string(),
        "  fg            \x1b[48;2;204;204;204m    \x1b[0m #cccccc  ".to_string(),
        "  gap           8  ".to_string(),
        format!("  font          {}  ", dim),
        format!("  char_width    {}  ", dim),
        format!("  baseline      {}  ", dim),
        String::new(),
        "\x1b[38;5;245mvertical offset from top of screen 0 (px)\x1b[39m".to_string(),
    ];
    assert_eq!(s.right, want.join("\n"));
    assert_eq!(a.render_globals(), s.right);
}

#[test]
fn settings_with_values_are_shown() {
    let a = App::new(Some("font = fixed\nchar_width = 9\nbaseline = 3\n"));
    let text = a.render_globals();
    assert!(text.contains("  font          fixed  "));
    assert!(text.contains("  char_width    9  "));
    assert!(text.contains("  baseline      3  "));
}

#[test]
fn segments_are_shown() {
    let mut a = App::new(Some(
        "segment a_rather_long_name +12 #0a141e date 5\n# segment off x\n",
    ));
    a.next_category();
    a.dirty = true;
    let s = a.render();
    assert!(s.top.starts_with(" stripconf [modified]    bar:"));
    assert_eq!(s.left, " Bar globals \n\x1b[7m Segments \x1b[27m");
    assert_eq!(
        s.status,
        " 1/2  j/k:seg Shift-J/K:reorder t:toggle a:add d:del Enter:edit W/s:save q:quit"
    );
    let rule = "\u{2500}".repeat(60);
    let want: Vec<String> = vec![
        "\x1b[38;5;81m\x1b[1mSegments (top \u{2192} left of bar)\x1b[22m\x1b[39m".to_string(),
        format!("\x1b[38;5;245m{}\x1b[39m", rule),
        String::new(),
        "\x1b[7m  \x1b[38;5;82m\u{25CF}\x1b[39m a_rather_l\u{2026} \x1b[38;5;245m+12 \x1b[39m \x1b[48;2;10;20;30m  \x1b[0m   5s    \x1b[38;5;252mdate\x1b[39m\x1b[27m".to_string(),
        "  \x1b[38;5;240m\u{25CB}\x1b[39m off                    \x1b[38;5;245m static\x1b[39m \x1b[38;5;240mx\x1b[39m".to_string(),
        String::new(),
        "\x1b[38;5;245mEdit fields: Name \u{2192} +Gap \u{2192} #Color \u{2192} Command \u{2192} Interval\x1b[39m".to_string(),
        "\x1b[38;5;245mEmpty input keeps current value. Color: blank to clear.\x1b[39m".to_string(),
    ];
    assert_eq!(s.right, want.join("\n"));
    assert_eq!(a.render_segments(), s.right);
}

#[test]
fn an_empty_list_is_shown() {
    let mut a = App::new(None);
    a.next_category();
    let s = a.render();
    assert!(s.right.contains("\x1b[38;5;245m  (no segments \u{2014} press `a` to add one)\x1b[39m"));
    assert!(s.status.starts_with(" 1/1  "));
}

#[test]
fn states_of_the_editor_can_be_shown() {
    let mut a = App::new(Some("segment a #112233 x\n"));
    assert!(a.is_showable());
    a.next_category();
    assert!(a.is_showable());
    a.segments[0].color = "1\u{e9}234".to_string();
    assert!(!a.is_showable());
    a.prev_category();
    assert!(a.is_showable());
    a.globals.bg = "1\u{e9}234".to_string();
    assert!(!a.is_showable());
}

#[test]
fn odd_colours_are_shown_as_text() {
    let mut a = App::new(Some("segment a x\n"));
    a.globals.bg = "red".to_string();
    a.segments[0].color = "blue".to_string();
    a.cat_index = 7;
    a.item_index = 41;
    assert!(a.is_showable());
    let s = a.render();
    assert!(s.top.ends_with("bar: \x1b[38;2;204;204;204m cpu mem disk \x1b[0m "));
    assert!(s.status.starts_with(" 42/1  "));
    assert!(a.render_globals().contains(&format!("  {:<12}  {} red  ", "bg", "    ")));
}
