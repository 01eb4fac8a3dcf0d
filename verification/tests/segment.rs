use stripconf::segment::{is_body_separable, parse_segment_body, serialize_segment, Segment};

fn parts(body: &str) -> (String, u32, String, String, u32) {
    let s = parse_segment_body(body);
    assert!(s.enabled);
    assert!(s.comments_above.is_empty());
    (s.name, s.gap_override, s.color, s.command, s.interval)
}

fn expect(body: &str, name: &str, gap: u32, color: &str, command: &str, interval: u32) {
    let want = (name.to_string(), gap, color.to_string(), command.to_string(), interval);
    assert_eq!(parts(body), want, "{:?}", body);
}

fn make(name: &str, gap: u32, color: &str, command: &str, interval: u32) -> Segment {
    Segment {
        enabled: true,
        name: name.to_string(),
        gap_override: gap,
        color: color.to_string(),
        command: command.to_string(),
        interval,
        comments_above: Vec::new(),
    }
}

#[test]
fn full_body_is_read() {
    expect("cpu +12 #FFaa00 sh -c 'top -b' 5", "cpu", 12, "#ffaa00", "sh -c 'top -b'", 5);
}

#[test]
fn every_part_but_the_name_may_be_missing() {
    expect("cpu", "cpu", 0, "", "", 0);
    expect("cpu +3", "cpu", 3, "", "", 0);
    expect("cpu #112233", "cpu", 0, "#112233", "", 0);
    expect("cpu date", "cpu", 0, "", "date", 0);
    expect("cpu date 60", "cpu", 0, "", "date", 60);
    expect("", "", 0, "", "", 0);
    expect("   ", "", 0, "", "", 0);
}

#[test]
fn white_space_between_parts_is_free() {
    expect("  cpu \t +3   #112233\u{3000}date\t 60  ", "cpu", 3, "#112233", "date", 60);
}

#[test]
fn what_looks_almost_like_a_part_is_command() {
    expect("cpu +3x date", "cpu", 0, "", "+3x date", 0);
    expect("cpu + date", "cpu", 0, "", "+ date", 0);
    expect("cpu +4294967296 date", "cpu", 0, "", "+4294967296 date", 0);
    expect("cpu #11223 date", "cpu", 0, "", "#11223 date", 0);
    expect("cpu #1122334 date", "cpu", 0, "", "#1122334 date", 0);
    expect("cpu #11223g date", "cpu", 0, "", "#11223g date", 0);
    expect("cpu date60", "cpu", 0, "", "date60", 0);
    expect("cpu 60", "cpu", 0, "", "60", 0);
    expect("cpu date\u{a0}60", "cpu", 0, "", "date\u{a0}60", 0);
    expect("cpu date 4294967296", "cpu", 0, "", "date 4294967296", 0);
    expect("cpu date +60", "cpu", 0, "", "date +60", 0);
}

#[test]
fn zero_gap_and_zero_interval_are_read_away() {
    expect("cpu +0 date 0", "cpu", 0, "", "date", 0);
}

#[test]
fn segments_are_written() {
    let mut s = make("cpu", 12, "#ffaa00", "top -b", 5);
    assert_eq!(serialize_segment(&s), "segment cpu +12 #ffaa00 top -b 5");
    s.enabled = false;
    assert_eq!(serialize_segment(&s), "# segment cpu +12 #ffaa00 top -b 5");
    assert_eq!(serialize_segment(&make("cpu", 0, "", "", 0)), "segment cpu");
    assert_eq!(serialize_segment(&make("cpu", 0, "", "date", 0)), "segment cpu date");
    assert_eq!(serialize_segment(&make("cpu", 0, "", "", 7)), "segment cpu 7");
}

#[test]
fn rereadable_segments_are_read_back() {
    for s in [
        make("cpu", 12, "#ffaa00", "sh -c 'top -b'", 5),
        make("cpu", 0, "", "", 0),
        make("cpu", 4294967295, "", "+5 x", 4294967295),
        make("cpu", 0, "#112233", "+5 #445566 7x", 0),
        make("cpu", 0, "", "date 5", 10),
        make("", 0, "", "", 0),
    ] {
        let line = serialize_segment(&s);
        let want = (s.name.clone(), s.gap_override, s.color.clone(), s.command.clone(), s.interval);
        assert_eq!(parts(line.strip_prefix("segment ").unwrap()), want, "{:?}", line);
    }
}

#[test]
fn other_segments_are_not() {
    for s in [
        make("two words", 0, "", "date", 0),
        make("cpu", 0, "#AABBCC", "date", 0),
        make("cpu", 0, "", "+5 date", 0),
        make("cpu", 0, "", "#112233 date", 0),
        make("cpu", 3, "", "#112233 date", 0),
        make("cpu", 0, "", "date 5", 0),
        make("cpu", 0, "", "", 5),
        make("cpu", 0, "", " date", 0),
        make("", 0, "", "date", 0),
    ] {
        let line = serialize_segment(&s);
        let same = (s.name.clone(), s.gap_override, s.color.clone(), s.command.clone(), s.interval);
        assert_ne!(parts(line.strip_prefix("segment ").unwrap()), same, "{:?}", line);
    }
}

#[test]
fn characters_across_the_colour_cut_are_told() {
    let ok = |s: &str| is_body_separable(&s.chars().collect::<Vec<char>>());
    assert!(!ok("cpu #ab\u{65e5}\u{672c}"));
    assert!(!ok("cpu +3 #12345\u{e9}"));
    assert!(ok("cpu #\u{65e5}\u{672c} x"));
    assert!(ok("cpu #\u{e9}"));
    assert!(ok("cpu date #12345\u{e9}"));
    assert!(ok("cpu #112233 date"));
}
