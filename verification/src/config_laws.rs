//! What reading a configuration file gives back of writing it, and what writing
//! one keeps of the file that was read.

use vstd::prelude::*;

use crate::app::{blank_app, AppView};
use crate::color::{is_canonical, is_lower_hex, law_canonical_code};
use crate::config::{
    at_heading, before_equals, global_block, keyword, line_if, line_separable, line_view, load_line,
    load_lines, load_start, loadable, loaded, marked, save_lines, save_text, segment_block, settled,
    tail_block, tail_lines, uncommented, unmarked_lines, value_in, LineView, LoadView,
};
use crate::globals::{
    default_globals, globals_wf, is_color_key, key_name, law_keys_are_named, with_number,
    with_value, GlobalKey, GlobalsView,
};
use crate::number::{decimal, law_number_of_decimal, lemma_decimal};
use crate::segment::{
    body_of, body_separable, color_tail, command_tail, gap_tail, interval_tail, line_of,
    SegmentView,
};
use crate::segment_laws::{is_trimmed, law_segment_round_trip, rereadable};
use crate::text::{
    end_run, is_digit, is_white, law_lines_of_unlines, lemma_end_run, lemma_end_run_is, lemma_run,
    lemma_run_is, lines, no_feed, reread, run, starts_with, trim, trim_end, trim_start, white,
    without_cr,
};

verus! {

/// Lines read one list after the other.
pub proof fn lemma_load_lines_add(st: LoadView, a: Seq<Seq<char>>, b: Seq<Seq<char>>)
    ensures
        load_lines(st, a + b) == load_lines(load_lines(st, a), b),
    decreases a.len(),
{
    if a.len() == 0 {
        assert(a + b == b);
    } else {
        lemma_load_lines_add(load_line(st, a[0]), a.skip(1), b);
        assert((a + b).skip(1) == a.skip(1) + b);
    }
}

pub proof fn lemma_load_one_line(st: LoadView, l: Seq<char>)
    ensures
        load_lines(st, seq![l]) == load_line(st, l),
{
    let ls = seq![l];
    assert(ls.skip(1) == Seq::<Seq<char>>::empty());
    assert(load_lines(load_line(st, l), ls.skip(1)) == load_line(st, l));
}

/// Trimming does not see a carriage return at the end.
pub proof fn lemma_trim_without_cr(l: Seq<char>)
    ensures
        trim(without_cr(l)) == trim(l),
{
    if l.len() > 0 && l.last() == '\r' {
        let m = l.drop_last();
        lemma_run(m, white());
        let n = run(m, white());
        if n < m.len() {
            assert forall|i: int| 0 <= i < n implies white()(#[trigger] l[i]) by {
                assert(l[i] == m[i]);
                assert(white()(m[i]));
            }
            assert(l[n] == m[n]);
            lemma_run_is(l, white(), n);
            let a = trim_start(m);
            let b = trim_start(l);
            assert(b == a.push('\r'));
            assert(b.drop_last() == a);
            assert(end_run(b, white()) == 1 + end_run(a, white()));
            lemma_end_run(a, white());
            assert(trim_end(b) =~= trim_end(a));
        } else {
            assert forall|i: int| 0 <= i < l.len() implies white()(#[trigger] l[i]) by {
                if i < m.len() {
                    assert(l[i] == m[i]);
                    assert(white()(m[i]));
                }
            }
            lemma_run_is(l, white(), l.len() as int);
            assert(trim_start(l) =~= trim_start(m));
        }
    }
}

/// A line without white space around it is what trimming leaves of it.
proof fn lemma_trim_is(l: Seq<char>)
    requires
        is_trimmed(l),
    ensures
        trim(l) == l,
{
    lemma_run_is(l, white(), 0);
    assert(l.skip(0) == l);
    lemma_end_run_is(l, white(), 0);
    assert(l.take(l.len() as int) == l);
}

/// What trimming leaves has no white space around it.
pub proof fn lemma_trimmed(l: Seq<char>)
    ensures
        is_trimmed(trim(l)),
{
    lemma_run(l, white());
    let s = trim_start(l);
    lemma_end_run(s, white());
}

/// Whether a line is one that the editor keeps as it is.
pub open spec fn is_kept_line(l: Seq<char>) -> bool {
    no_feed(l) && line_view(l) == LineView::Kept
}

proof fn lemma_kept_without_cr(l: Seq<char>)
    requires
        is_kept_line(l),
    ensures
        line_view(without_cr(l)) == LineView::Kept,
        line_separable(without_cr(l)),
{
    lemma_trim_without_cr(l);
}

/// Kept lines wait for the next segment.
proof fn lemma_load_kept(st: LoadView, ls: Seq<Seq<char>>)
    requires
        forall|i: int| 0 <= i < ls.len() ==> line_view(#[trigger] ls[i]) == LineView::Kept,
    ensures
        load_lines(st, ls) == (LoadView { pending: st.pending + ls, ..st }),
    decreases ls.len(),
{
    if ls.len() == 0 {
        assert(st.pending + ls =~= st.pending);
    } else {
        let rest = ls.skip(1);
        assert forall|i: int| 0 <= i < rest.len() implies line_view(#[trigger] rest[i])
            == LineView::Kept by {
            assert(rest[i] == ls[i + 1]);
        }
        let next = load_line(st, ls[0]);
        lemma_load_kept(next, rest);
        assert(next.pending + rest =~= st.pending + ls);
    }
}

/// The kept lines before a segment belong to it, if a setting or another segment
/// stands before them; otherwise they lead the file.
pub proof fn law_lines_above_a_segment(st: LoadView, ks: Seq<Seq<char>>, l: Seq<char>)
    requires
        forall|i: int| 0 <= i < ks.len() ==> line_view(#[trigger] ks[i]) == LineView::Kept,
        line_view(l) is Segment,
    ensures
        ({
            let end = load_lines(st, ks + seq![l]);
            let above = end.segments.last().comments_above;
            &&& end.segments.len() == st.segments.len() + 1
            &&& end.pending.len() == 0
            &&& end.headed
            &&& st.headed ==> above == st.pending + ks && end.leading == st.leading
            &&& !st.headed ==> above.len() == 0 && end.leading == st.leading + (st.pending + ks)
        }),
{
    lemma_load_lines_add(st, ks, seq![l]);
    lemma_load_kept(st, ks);
    lemma_load_one_line(LoadView { pending: st.pending + ks, ..st }, l);
}

/// A line with a setting says so.
proof fn lemma_setting_line(label: Seq<char>, k: GlobalKey, val: Seq<char>)
    requires
        label.len() == 13,
        !is_white(label[0]),
        label[0] != '#',
        label[0] != 's',
        forall|i: int| 0 <= i < 11 ==> #[trigger] label[i] != '=',
        label[11] == '=',
        label[12] == ' ',
        trim(label.take(11)) == key_name(k),
        val.len() > 0,
        is_trimmed(val),
    ensures
        line_view(label + val) == LineView::Global(k, val),
        is_color_key(k) && is_canonical(val) ==> line_separable(label + val),
        !is_color_key(k) ==> line_separable(label + val),
        without_cr(label + val) == label + val,
{
    let l = label + val;
    assert(l[0] == label[0]);
    assert(l.last() == val.last());
    lemma_trim_is(l);
    reveal_strlit("segment ");
    assert(keyword()[0] == 's');
    assert(!starts_with(l, keyword())) by {
        if starts_with(l, keyword()) {
            assert(l.take(keyword().len() as int)[0] == l[0]);
        }
    }
    assert forall|i: int| 0 <= i < 11 implies before_equals()(#[trigger] l[i]) by {
        assert(l[i] == label[i]);
    }
    assert(l[11] == '=');
    lemma_run_is(l, before_equals(), 11);
    assert(l.take(11) == label.take(11));
    law_keys_are_named(k);
    let t = l.skip(12);
    assert(t == seq![' '] + val);
    assert(t[0] == ' ' && t[1] == val[0]);
    lemma_run_is(t, white(), 1);
    assert(t.skip(1) == val);
    lemma_end_run_is(val, white(), 0);
    assert(val.take(val.len() as int) == val);
    assert(value_in(l) == val);
    if is_canonical(val) {
        law_canonical_code(val);
    }
}

/// The word in a padded label.
proof fn lemma_label(label: Seq<char>, word: Seq<char>)
    requires
        label.len() == 13,
        0 < word.len() <= 10,
        is_trimmed(word),
        label.take(word.len() as int) == word,
        forall|i: int| word.len() <= i < 11 ==> #[trigger] label[i] == ' ',
    ensures
        trim(label.take(11)) == word,
{
    let t = label.take(11);
    let n = word.len() as int;
    assert(t[0] == label.take(n)[0]);
    lemma_run_is(t, white(), 0);
    assert(t.skip(0) == t);
    assert(t[n - 1] == label.take(n)[n - 1]);
    assert forall|i: int| n <= i < 11 implies white()(#[trigger] t[i]) by {
        assert(t[i] == label[i]);
    }
    lemma_end_run_is(t, white(), 11 - n);
    assert(t.take(n) =~= word);
}

/// Numerals have no white space around them and fit in one line.
pub proof fn lemma_decimal_text(n: nat)
    ensures
        decimal(n).len() > 0,
        is_trimmed(decimal(n)),
        no_feed(decimal(n)),
{
    lemma_decimal(n);
    let d = decimal(n);
    assert(is_digit(d[0]));
    assert(is_digit(d.last()));
    assert forall|i: int| 0 <= i < d.len() implies #[trigger] d[i] != '\n' by {
        assert(is_digit(d[i]));
    }
}

/// What stands before the value of a setting.
pub open spec fn label_of(k: GlobalKey) -> Seq<char> {
    match k {
        GlobalKey::Height => "height     = "@,
        GlobalKey::TopOffset => "top_offset = "@,
        GlobalKey::Bg => "bg         = "@,
        GlobalKey::Fg => "fg         = "@,
        GlobalKey::Gap => "gap        = "@,
        GlobalKey::Font => "font       = "@,
        GlobalKey::CharWidth => "char_width = "@,
        GlobalKey::Baseline => "baseline   = "@,
    }
}

proof fn lemma_label_of(k: GlobalKey)
    ensures
        label_of(k).len() == 13,
        !is_white(label_of(k)[0]),
        label_of(k)[0] != '#',
        label_of(k)[0] != 's',
        forall|i: int| 0 <= i < 11 ==> #[trigger] label_of(k)[i] != '=',
        label_of(k)[11] == '=',
        label_of(k)[12] == ' ',
        trim(label_of(k).take(11)) == key_name(k),
        no_feed(label_of(k)),
{
    match k {
        GlobalKey::Height => {
            reveal_strlit("height     = ");
            reveal_strlit("height");
            assert("height     = "@.take(6) =~= "height"@);
            lemma_label("height     = "@, "height"@);
        },
        GlobalKey::TopOffset => {
            reveal_strlit("top_offset = ");
            reveal_strlit("top_offset");
            assert("top_offset = "@.take(10) =~= "top_offset"@);
            lemma_label("top_offset = "@, "top_offset"@);
        },
        GlobalKey::Bg => {
            reveal_strlit("bg         = ");
            reveal_strlit("bg");
            assert("bg         = "@.take(2) =~= "bg"@);
            lemma_label("bg         = "@, "bg"@);
        },
        GlobalKey::Fg => {
            reveal_strlit("fg         = ");
            reveal_strlit("fg");
            assert("fg         = "@.take(2) =~= "fg"@);
            lemma_label("fg         = "@, "fg"@);
        },
        GlobalKey::Gap => {
            reveal_strlit("gap        = ");
            reveal_strlit("gap");
            assert("gap        = "@.take(3) =~= "gap"@);
            lemma_label("gap        = "@, "gap"@);
        },
        GlobalKey::Font => {
            reveal_strlit("font       = ");
            reveal_strlit("font");
            assert("font       = "@.take(4) =~= "font"@);
            lemma_label("font       = "@, "font"@);
        },
        GlobalKey::CharWidth => {
            reveal_strlit("char_width = ");
            reveal_strlit("char_width");
            assert("char_width = "@.take(10) =~= "char_width"@);
            lemma_label("char_width = "@, "char_width"@);
        },
        GlobalKey::Baseline => {
            reveal_strlit("baseline   = ");
            reveal_strlit("baseline");
            assert("baseline   = "@.take(8) =~= "baseline"@);
            lemma_label("baseline   = "@, "baseline"@);
        },
    }
}

/// Whether a text can be the value of a setting in the file.
spec fn is_setting_value(k: GlobalKey, val: Seq<char>) -> bool {
    &&& val.len() > 0
    &&& is_trimmed(val)
    &&& no_feed(val)
    &&& is_color_key(k) ==> is_canonical(val)
}

/// Whether a line names a setting, is read back as it is written and can be
/// looked at.
pub open spec fn is_setting_line(l: Seq<char>) -> bool {
    line_view(l) is Global && no_feed(l) && without_cr(l) == l && line_separable(l)
}

/// A written setting is read back.
proof fn lemma_load_setting(st: LoadView, k: GlobalKey, val: Seq<char>)
    requires
        is_setting_value(k, val),
    ensures
        load_lines(st, seq![label_of(k) + val]) == (LoadView {
            globals: with_value(st.globals, k, val),
            ..at_heading(st)
        }),
        is_setting_line(label_of(k) + val),
{
    lemma_label_of(k);
    lemma_setting_line(label_of(k), k, val);
    let l = label_of(k) + val;
    lemma_load_one_line(st, l);
    assert forall|i: int| 0 <= i < l.len() implies #[trigger] l[i] != '\n' by {
        if i < 13 {
            assert(l[i] == label_of(k)[i]);
        } else {
            assert(l[i] == val[i - 13]);
        }
    }
}

/// A canonical code as a value.
proof fn lemma_code_is_value(k: GlobalKey, code: Seq<char>)
    requires
        is_canonical(code),
    ensures
        is_setting_value(k, code),
{
    assert(is_lower_hex(code[6]));
    assert forall|i: int| 0 <= i < code.len() implies #[trigger] code[i] != '\n' by {
        if i > 0 {
            assert(is_lower_hex(code[i]));
        }
    }
}

/// A numeral as a value.
proof fn lemma_number_is_value(k: GlobalKey, n: u32)
    requires
        !is_color_key(k),
    ensures
        is_setting_value(k, decimal(n as nat)),
        k != GlobalKey::Font ==> forall|g: GlobalsView|
            #[trigger] with_value(g, k, decimal(n as nat)) == with_number(g, k, n),
{
    lemma_decimal_text(n as nat);
    law_number_of_decimal(n);
}

/// The settings that a file can hold.
pub open spec fn globals_persist(g: GlobalsView) -> bool {
    globals_wf(g) && is_trimmed(g.font) && no_feed(g.font)
}

/// The settings are read back from their block.
proof fn lemma_load_globals(st: LoadView, g: GlobalsView)
    requires
        st.globals == default_globals(),
        globals_persist(g),
    ensures
        load_lines(st, global_block(g)) == (LoadView { globals: g, ..at_heading(st) }),
{
    let h = at_heading(st);
    let b = global_block(g);
    lemma_global_lines(g);
    assert(is_setting_line(b[0]));
    assert(load_line(st, b[0]) == load_line(h, b[0]));
    lemma_load_globals_headed(h, g);
}

/// The settings are written as settings.
pub proof fn lemma_global_lines(g: GlobalsView)
    requires
        globals_persist(g),
    ensures
        forall|i: int|
            0 <= i < global_block(g).len() ==> is_setting_line(#[trigger] global_block(g)[i]),
{
    let st = load_start(blank_app());
    lemma_number_is_value(GlobalKey::Height, g.height);
    lemma_number_is_value(GlobalKey::TopOffset, g.top_offset);
    lemma_number_is_value(GlobalKey::Gap, g.gap);
    lemma_number_is_value(GlobalKey::CharWidth, g.char_width);
    lemma_number_is_value(GlobalKey::Baseline, g.baseline);
    lemma_code_is_value(GlobalKey::Bg, g.bg);
    lemma_code_is_value(GlobalKey::Fg, g.fg);
    lemma_load_setting(st, GlobalKey::Height, decimal(g.height as nat));
    lemma_load_setting(st, GlobalKey::TopOffset, decimal(g.top_offset as nat));
    lemma_load_setting(st, GlobalKey::Bg, g.bg);
    lemma_load_setting(st, GlobalKey::Fg, g.fg);
    lemma_load_setting(st, GlobalKey::Gap, decimal(g.gap as nat));
    if g.font.len() > 0 {
        lemma_load_setting(st, GlobalKey::Font, g.font);
    }
    lemma_load_setting(st, GlobalKey::CharWidth, decimal(g.char_width as nat));
    lemma_load_setting(st, GlobalKey::Baseline, decimal(g.baseline as nat));
}

/// The settings are read back from their block, behind a setting or a segment.
proof fn lemma_load_globals_headed(st: LoadView, g: GlobalsView)
    requires
        st.headed,
        st.globals == default_globals(),
        globals_persist(g),
    ensures
        load_lines(st, global_block(g)) == (LoadView { globals: g, ..st }),
{
    let l1 = label_of(GlobalKey::Height) + decimal(g.height as nat);
    let l2 = label_of(GlobalKey::TopOffset) + decimal(g.top_offset as nat);
    let l3 = label_of(GlobalKey::Bg) + g.bg;
    let l4 = label_of(GlobalKey::Fg) + g.fg;
    let l5 = label_of(GlobalKey::Gap) + decimal(g.gap as nat);
    let l6 = label_of(GlobalKey::Font) + g.font;
    let l7 = label_of(GlobalKey::CharWidth) + decimal(g.char_width as nat);
    let l8 = label_of(GlobalKey::Baseline) + decimal(g.baseline as nat);
    lemma_number_is_value(GlobalKey::Height, g.height);
    lemma_number_is_value(GlobalKey::TopOffset, g.top_offset);
    lemma_number_is_value(GlobalKey::Gap, g.gap);
    lemma_number_is_value(GlobalKey::CharWidth, g.char_width);
    lemma_number_is_value(GlobalKey::Baseline, g.baseline);
    lemma_code_is_value(GlobalKey::Bg, g.bg);
    lemma_code_is_value(GlobalKey::Fg, g.fg);
    law_canonical_code(g.bg);
    law_canonical_code(g.fg);
    let s1 = LoadView { globals: GlobalsView { height: g.height, ..st.globals }, ..st };
    lemma_load_setting(st, GlobalKey::Height, decimal(g.height as nat));
    assert(load_lines(st, seq![l1]) == s1);
    let s2 = LoadView { globals: GlobalsView { top_offset: g.top_offset, ..s1.globals }, ..st };
    lemma_load_setting(s1, GlobalKey::TopOffset, decimal(g.top_offset as nat));
    assert(load_lines(s1, seq![l2]) == s2);
    let s3 = LoadView { globals: GlobalsView { bg: g.bg, ..s2.globals }, ..st };
    lemma_load_setting(s2, GlobalKey::Bg, g.bg);
    assert(load_lines(s2, seq![l3]) == s3);
    let s4 = LoadView { globals: GlobalsView { fg: g.fg, ..s3.globals }, ..st };
    lemma_load_setting(s3, GlobalKey::Fg, g.fg);
    assert(load_lines(s3, seq![l4]) == s4);
    let s5 = LoadView { globals: GlobalsView { gap: g.gap, ..s4.globals }, ..st };
    lemma_load_setting(s4, GlobalKey::Gap, decimal(g.gap as nat));
    assert(load_lines(s4, seq![l5]) == s5);
    let s6 = LoadView { globals: GlobalsView { font: g.font, ..s5.globals }, ..st };
    let b6 = line_if(g.font.len() > 0, l6);
    if g.font.len() > 0 {
        lemma_load_setting(s5, GlobalKey::Font, g.font);
    } else {
        assert(g.font =~= s5.globals.font);
    }
    assert(load_lines(s5, b6) == s6);
    let s7 = LoadView { globals: GlobalsView { char_width: g.char_width, ..s6.globals }, ..st };
    let b7 = line_if(g.char_width != 0, l7);
    if g.char_width != 0 {
        lemma_load_setting(s6, GlobalKey::CharWidth, decimal(g.char_width as nat));
    }
    assert(load_lines(s6, b7) == s7);
    let b8 = line_if(g.baseline != 0, l8);
    let s8 = LoadView { globals: GlobalsView { baseline: g.baseline, ..s7.globals }, ..st };
    if g.baseline != 0 {
        lemma_load_setting(s7, GlobalKey::Baseline, decimal(g.baseline as nat));
    }
    assert(load_lines(s7, b8) == s8);
    let five = seq![l1] + seq![l2] + seq![l3] + seq![l4] + seq![l5];
    assert(five =~= seq![l1, l2, l3, l4, l5]);
    lemma_load_lines_add(st, seq![l1], seq![l2]);
    lemma_load_lines_add(st, seq![l1] + seq![l2], seq![l3]);
    lemma_load_lines_add(st, seq![l1] + seq![l2] + seq![l3], seq![l4]);
    lemma_load_lines_add(st, seq![l1] + seq![l2] + seq![l3] + seq![l4], seq![l5]);
    lemma_load_lines_add(st, five, b6);
    lemma_load_lines_add(st, five + b6, b7);
    lemma_load_lines_add(st, five + b6 + b7, b8);
    assert(global_block(g) =~= five + b6 + b7 + b8);
    assert(s8 =~= LoadView { globals: g, ..st });
}

/// The segments that a file can hold: their notation denotes them, on one line.
pub open spec fn segment_persists(v: SegmentView) -> bool {
    &&& rereadable(v)
    &&& v.name.len() > 0
    &&& no_feed(v.command)
    &&& body_separable(body_of(v))
}

/// Two texts that fit in one line do so one after the other.
pub proof fn lemma_no_feed_add(a: Seq<char>, b: Seq<char>)
    requires
        no_feed(a),
        no_feed(b),
    ensures
        no_feed(a + b),
{
    let s = a + b;
    assert forall|i: int| 0 <= i < s.len() implies #[trigger] s[i] != '\n' by {
        if i < a.len() {
            assert(s[i] == a[i]);
        } else {
            assert(s[i] == b[i - a.len()]);
        }
    }
}

/// The parts of a body behind the name fit in one line and end solid.
proof fn lemma_tail_text(v: SegmentView)
    requires
        rereadable(v),
        no_feed(v.command),
    ensures
        no_feed(gap_tail(v)),
        gap_tail(v).len() > 0 ==> !is_white(gap_tail(v).last()),
{
    let blank = seq![' '];
    let plus = seq![' ', '+'];
    lemma_decimal_text(v.interval as nat);
    lemma_decimal_text(v.gap_override as nat);
    lemma_no_feed_add(blank, decimal(v.interval as nat));
    let t1 = interval_tail(v);
    assert(no_feed(t1));
    lemma_no_feed_add(blank, v.command);
    let p2 = if v.command.len() > 0 {
        blank + v.command
    } else {
        Seq::empty()
    };
    lemma_no_feed_add(p2, t1);
    let t2 = command_tail(v);
    assert(t2 == p2 + t1);
    assert(t2.len() > 0 ==> !is_white(t2.last()));
    if v.color.len() > 0 {
        lemma_code_is_value(GlobalKey::Bg, v.color);
        lemma_no_feed_add(blank, v.color);
    }
    let p3 = if v.color.len() > 0 {
        blank + v.color
    } else {
        Seq::empty()
    };
    lemma_no_feed_add(p3, t2);
    let t3 = color_tail(v);
    assert(t3 == p3 + t2);
    assert(t3.len() > 0 ==> !is_white(t3.last()));
    lemma_no_feed_add(plus, decimal(v.gap_override as nat));
    let p4 = if v.gap_override > 0 {
        plus + decimal(v.gap_override as nat)
    } else {
        Seq::empty()
    };
    lemma_no_feed_add(p4, t3);
    assert(gap_tail(v) == p4 + t3);
}

/// A body begins and ends solid and fits in one line.
proof fn lemma_body_text(v: SegmentView)
    requires
        segment_persists(v),
    ensures
        body_of(v).len() > 0,
        !is_white(body_of(v)[0]),
        !is_white(body_of(v).last()),
        no_feed(body_of(v)),
{
    lemma_tail_text(v);
    assert(no_feed(v.name)) by {
        assert forall|i: int| 0 <= i < v.name.len() implies #[trigger] v.name[i] != '\n' by {
            assert(!is_white(v.name[i]));
        }
    }
    lemma_no_feed_add(v.name, gap_tail(v));
    let b = body_of(v);
    assert(b[0] == v.name[0]);
    if gap_tail(v).len() == 0 {
        assert(b.last() == v.name.last());
    } else {
        assert(b.last() == gap_tail(v).last());
    }
}

/// A segment without the lines attached to it.
pub open spec fn unattached(v: SegmentView) -> SegmentView {
    SegmentView { comments_above: Seq::empty(), ..v }
}

/// The line of a segment denotes the segment.
pub proof fn law_segment_line(v: SegmentView)
    requires
        segment_persists(v),
    ensures
        line_view(line_of(v)) == LineView::Segment(unattached(v)),
        no_feed(line_of(v)),
        without_cr(line_of(v)) == line_of(v),
        line_separable(line_of(v)),
{
    reveal_strlit("");
    reveal_strlit("# ");
    reveal_strlit("segment ");
    let body = body_of(v);
    let l = line_of(v);
    lemma_body_text(v);
    law_segment_round_trip(v);
    let kb = keyword() + body;
    assert(no_feed(keyword()));
    lemma_no_feed_add(keyword(), body);
    assert(kb.skip(8) =~= body);
    assert(kb.take(8) =~= keyword());
    assert(starts_with(kb, keyword()));
    assert(kb.last() == body.last());
    if v.enabled {
        assert(l =~= kb);
        lemma_trim_is(l);
    } else {
        assert(l =~= seq!['#', ' '] + kb);
        lemma_no_feed_add(seq!['#', ' '], kb);
        assert(l.last() == kb.last());
        lemma_trim_is(l);
        let r = l.skip(1);
        assert(r =~= seq![' '] + kb);
        assert(r[1] == 's');
        lemma_run_is(r, white(), 1);
        assert(r.skip(1) =~= kb);
        assert(uncommented(l) == kb);
    }
}

/// The states that a file can hold. The settings and segments can be written,
/// and the lines kept from a file are lines that are kept.
pub open spec fn persists(a: AppView) -> bool {
    &&& globals_persist(a.globals)
    &&& kept(a.leading_comments)
    &&& segments_persist(a.segments)
}

/// Lines that the editor keeps as they are.
pub open spec fn kept(ls: Seq<Seq<char>>) -> bool {
    forall|i: int| 0 <= i < ls.len() ==> is_kept_line(#[trigger] ls[i])
}

/// Segments that a file can hold, with the lines attached to them.
pub open spec fn segments_persist(segs: Seq<SegmentView>) -> bool {
    forall|i: int|
        0 <= i < segs.len() ==> {
            &&& segment_persists(#[trigger] segs[i])
            &&& kept(unmarked_lines(segs[i].comments_above))
            &&& kept(tail_lines(segs[i].comments_above))
        }
}

/// The lines that are attached to a segment after a file was written and read:
/// those of the segment, and before the first one the blank line behind the settings.
pub open spec fn reread_comments(segs: Seq<SegmentView>, i: int) -> Seq<Seq<char>> {
    line_if(i == 0, Seq::empty()) + reread(unmarked_lines(segs[i].comments_above))
}

/// Segments as they are read from their block.
pub open spec fn reread_segments(segs: Seq<SegmentView>) -> Seq<SegmentView> {
    Seq::new(
        segs.len(),
        |i: int| SegmentView { comments_above: reread_comments(segs, i), ..segs[i] },
    )
}

/// Two lists of lines are read back one after the other.
pub proof fn lemma_reread_add(a: Seq<Seq<char>>, b: Seq<Seq<char>>)
    ensures
        reread(a + b) == reread(a) + reread(b),
{
    assert(reread(a + b) =~= reread(a) + reread(b));
}

/// Kept lines are still kept when read again.
proof fn lemma_reread_kept(ls: Seq<Seq<char>>)
    requires
        kept(ls),
    ensures
        forall|i: int| 0 <= i < ls.len() ==> line_view(#[trigger] reread(ls)[i]) == LineView::Kept,
        forall|i: int| 0 <= i < ls.len() ==> line_separable(#[trigger] reread(ls)[i]),
        forall|i: int| 0 <= i < ls.len() ==> no_feed(#[trigger] ls[i]),
{
    assert forall|i: int| 0 <= i < ls.len() implies line_view(#[trigger] reread(ls)[i])
        == LineView::Kept && line_separable(reread(ls)[i]) by {
        lemma_kept_without_cr(ls[i]);
    }
    assert forall|i: int| 0 <= i < ls.len() implies no_feed(#[trigger] ls[i]) by {
        assert(is_kept_line(ls[i]));
    }
}

/// The state of reading after the block of the segments.
spec fn after_segments(st: LoadView, segs: Seq<SegmentView>) -> LoadView {
    if segs.len() == 0 {
        st
    } else {
        LoadView { segments: reread_segments(segs), pending: Seq::empty(), ..st }
    }
}

/// The segments are read back from their block, after the blank line behind the
/// settings.
proof fn lemma_load_segments(st: LoadView, segs: Seq<SegmentView>)
    requires
        st.headed,
        st.pending == seq![Seq::<char>::empty()],
        st.segments.len() == 0,
        segments_persist(segs),
    ensures
        load_lines(st, reread(segment_block(segs))) == after_segments(st, segs),
    decreases segs.len(),
{
    if segs.len() == 0 {
        assert(reread(segment_block(segs)) =~= Seq::<Seq<char>>::empty());
    } else {
        let front = segs.drop_last();
        let v = segs.last();
        assert(v == segs[segs.len() - 1]);
        assert forall|i: int| 0 <= i < front.len() implies segment_persists(#[trigger] front[i])
            && kept(unmarked_lines(front[i].comments_above)) && kept(
            tail_lines(front[i].comments_above),
        ) by {
            assert(front[i] == segs[i]);
        }
        lemma_load_segments(st, front);
        let s1 = after_segments(st, front);
        let above = unmarked_lines(v.comments_above);
        let line = seq![line_of(v)];
        law_segment_line(v);
        assert(above.push(line_of(v)) =~= above + line);
        lemma_reread_add(segment_block(front), above + line);
        lemma_reread_add(above, line);
        assert(reread(line) =~= line);
        lemma_load_lines_add(st, reread(segment_block(front)), reread(above) + line);
        lemma_load_lines_add(s1, reread(above), line);
        lemma_reread_kept(above);
        lemma_load_kept(s1, reread(above));
        let s2 = LoadView { pending: s1.pending + reread(above), ..s1 };
        lemma_load_one_line(s2, line_of(v));
        let s3 = load_line(s2, line_of(v));
        assert(s1.pending =~= line_if(front.len() == 0, Seq::empty()));
        assert forall|i: int| 0 <= i < segs.len() implies s3.segments[i] == reread_segments(
            segs,
        )[i] by {
            if i < front.len() {
                assert(front[i] == segs[i]);
            }
        }
        assert(s3.segments =~= reread_segments(segs));
        assert(s3 =~= after_segments(st, segs));
    }
}

/// Lines that fit in one line each and can be looked at when read again.
spec fn readable(ls: Seq<Seq<char>>) -> bool {
    forall|i: int|
        0 <= i < ls.len() ==> no_feed(#[trigger] ls[i]) && line_separable(without_cr(ls[i]))
}

proof fn lemma_readable_add(a: Seq<Seq<char>>, b: Seq<Seq<char>>)
    requires
        readable(a),
        readable(b),
    ensures
        readable(a + b),
{
    let s = a + b;
    assert forall|i: int| 0 <= i < s.len() implies no_feed(#[trigger] s[i]) && line_separable(
        without_cr(s[i]),
    ) by {
        if i < a.len() {
            assert(s[i] == a[i]);
        } else {
            assert(s[i] == b[i - a.len()]);
        }
    }
}

proof fn lemma_kept_is_readable(ls: Seq<Seq<char>>)
    requires
        kept(ls),
    ensures
        readable(ls),
{
    assert forall|i: int| 0 <= i < ls.len() implies no_feed(#[trigger] ls[i]) && line_separable(
        without_cr(ls[i]),
    ) by {
        assert(is_kept_line(ls[i]));
        lemma_kept_without_cr(ls[i]);
    }
}

/// The blocks of the segments can be read.
proof fn lemma_segment_blocks(segs: Seq<SegmentView>)
    requires
        segments_persist(segs),
    ensures
        readable(segment_block(segs)),
        kept(tail_block(segs)),
    decreases segs.len(),
{
    if segs.len() > 0 {
        let front = segs.drop_last();
        let v = segs.last();
        assert(v == segs[segs.len() - 1]);
        assert forall|i: int| 0 <= i < front.len() implies segment_persists(#[trigger] front[i])
            && kept(unmarked_lines(front[i].comments_above)) && kept(
            tail_lines(front[i].comments_above),
        ) by {
            assert(front[i] == segs[i]);
        }
        lemma_segment_blocks(front);
        let above = unmarked_lines(v.comments_above);
        lemma_kept_is_readable(above);
        law_segment_line(v);
        assert(readable(seq![line_of(v)]));
        lemma_readable_add(above, seq![line_of(v)]);
        assert(above.push(line_of(v)) =~= above + seq![line_of(v)]);
        lemma_readable_add(segment_block(front), above.push(line_of(v)));
        let a = tail_block(front);
        let b = tail_lines(v.comments_above);
        assert forall|i: int| 0 <= i < (a + b).len() implies is_kept_line(
            #[trigger] (a + b)[i],
        ) by {
            if i < a.len() {
                assert((a + b)[i] == a[i]);
            } else {
                assert((a + b)[i] == b[i - a.len()]);
            }
        }
    }
}

/// An empty line is kept.
pub proof fn lemma_blank_line()
    ensures
        is_kept_line(Seq::<char>::empty()),
{
    let e = Seq::<char>::empty();
    lemma_trim_is(e);
}

/// The lines that lead the file once a written state is read again: those of
/// the state, the blank line between them and the settings and, without
/// segments, the blank line behind the settings.
pub open spec fn reloaded_leading(a: AppView) -> Seq<Seq<char>> {
    reread(a.leading_comments) + line_if(a.leading_comments.len() > 0, Seq::empty()) + line_if(
        a.segments.len() == 0,
        Seq::empty(),
    )
}

/// The segments once a written state is read again: the lines for the end of
/// the file are collected at the last one.
pub open spec fn reloaded_segments(segs: Seq<SegmentView>) -> Seq<SegmentView> {
    let tail = reread(tail_block(segs));
    Seq::new(
        segs.len(),
        |i: int|
            SegmentView {
                comments_above: if i == segs.len() - 1 {
                    reread_comments(segs, i) + marked(tail)
                } else {
                    reread_comments(segs, i)
                },
                ..segs[i]
            },
    )
}

/// A written state as it is read again.
pub open spec fn reloaded(a: AppView) -> AppView {
    AppView {
        globals: a.globals,
        segments: reloaded_segments(a.segments),
        leading_comments: reloaded_leading(a),
        ..blank_app()
    }
}

/// Without segments there are no lines for the end of the file.
proof fn lemma_no_tail(segs: Seq<SegmentView>)
    requires
        segs.len() == 0,
    ensures
        tail_block(segs).len() == 0,
        segment_block(segs).len() == 0,
{
}

/// Reading a written state gives back all settings and, in their order, all
/// segments: each with its name, gap, colour, command and interval, and whether
/// it is switched on. The kept lines come back too, the marked ones at the end.
pub proof fn law_save_then_load(a: AppView)
    requires
        persists(a),
    ensures
        loadable(save_text(a)),
        loaded(blank_app(), save_text(a)) == reloaded(a),
{
    let e = Seq::<char>::empty();
    let gap = line_if(a.leading_comments.len() > 0, e);
    let blank = seq![e];
    let globals = global_block(a.globals);
    let block = segment_block(a.segments);
    let tail = tail_block(a.segments);
    let st0 = load_start(blank_app());
    lemma_blank_line();
    lemma_segment_blocks(a.segments);
    lemma_global_lines(a.globals);
    // Everything can be read.
    assert(kept(gap));
    assert(kept(blank));
    lemma_kept_is_readable(a.leading_comments);
    lemma_kept_is_readable(gap);
    lemma_kept_is_readable(blank);
    lemma_kept_is_readable(tail);
    assert(readable(globals));
    let h1 = a.leading_comments + gap;
    lemma_readable_add(a.leading_comments, gap);
    lemma_readable_add(h1, globals);
    lemma_readable_add(h1 + globals, blank);
    lemma_readable_add(h1 + globals + blank, block);
    lemma_readable_add(h1 + globals + blank + block, tail);
    let all = save_lines(a);
    assert(all =~= h1 + globals + blank + block + tail);
    assert(readable(all));
    assert forall|i: int| 0 <= i < all.len() implies no_feed(#[trigger] all[i]) by {}
    law_lines_of_unlines(all);
    let ls = lines(save_text(a));
    assert(ls == reread(all));
    assert forall|i: int| 0 <= i < ls.len() implies line_separable(#[trigger] ls[i]) by {
        assert(no_feed(all[i]));
    }
    // Block by block.
    lemma_reread_add(h1 + globals + blank + block, tail);
    lemma_reread_add(h1 + globals + blank, block);
    lemma_reread_add(h1 + globals, blank);
    lemma_reread_add(h1, globals);
    assert(reread(globals) =~= globals) by {
        assert forall|i: int| 0 <= i < globals.len() implies reread(globals)[i] == globals[i] by {
            assert(is_setting_line(globals[i]));
        }
    }
    assert(reread(blank) =~= blank);
    assert(kept(h1)) by {
        assert forall|i: int| 0 <= i < h1.len() implies is_kept_line(#[trigger] h1[i]) by {
            if i < a.leading_comments.len() {
                assert(h1[i] == a.leading_comments[i]);
            } else {
                assert(h1[i] == gap[i - a.leading_comments.len()]);
            }
        }
    }
    lemma_reread_kept(h1);
    let r1 = reread(h1);
    lemma_load_kept(st0, r1);
    let st1 = LoadView { pending: st0.pending + r1, ..st0 };
    assert(st0.pending + r1 =~= r1);
    lemma_load_globals(st1, a.globals);
    let st2 = LoadView { globals: a.globals, ..at_heading(st1) };
    assert(line_view(blank[0]) == LineView::Kept);
    lemma_load_kept(st2, blank);
    let st3 = LoadView { pending: blank, ..st2 };
    assert(st2.pending + blank =~= blank);
    assert(st3.leading =~= r1);
    assert(r1 =~= reread(a.leading_comments) + gap) by {
        lemma_reread_add(a.leading_comments, gap);
        assert(reread(gap) =~= gap);
    }
    lemma_load_segments(st3, a.segments);
    let st4 = after_segments(st3, a.segments);
    lemma_reread_kept(tail);
    lemma_load_kept(st4, reread(tail));
    let st5 = LoadView { pending: st4.pending + reread(tail), ..st4 };
    lemma_load_lines_add(st0, r1 + globals + blank + reread(block), reread(tail));
    lemma_load_lines_add(st0, r1 + globals + blank, reread(block));
    lemma_load_lines_add(st0, r1 + globals, blank);
    lemma_load_lines_add(st0, r1, globals);
    assert(load_lines(st0, ls) == st5);
    lemma_settle_reloaded(a, st3);
}

/// The end of reading a written state.
proof fn lemma_settle_reloaded(a: AppView, st: LoadView)
    requires
        st.headed,
        st.segments.len() == 0,
        st.globals == a.globals,
        st.leading == reread(a.leading_comments) + line_if(
            a.leading_comments.len() > 0,
            Seq::empty(),
        ),
        st.pending == seq![Seq::<char>::empty()],
    ensures
        ({
            let st4 = after_segments(st, a.segments);
            let st5 = LoadView { pending: st4.pending + reread(tail_block(a.segments)), ..st4 };
            let end = settled(st5);
            &&& end.globals == a.globals
            &&& end.segments == reloaded_segments(a.segments)
            &&& end.leading == reloaded_leading(a)
        }),
{
    let segs = a.segments;
    let tail = reread(tail_block(segs));
    let st4 = after_segments(st, segs);
    let st5 = LoadView { pending: st4.pending + tail, ..st4 };
    let end = settled(st5);
    if segs.len() == 0 {
        lemma_no_tail(segs);
        assert(st5.pending =~= st.pending);
        assert(end.leading =~= reloaded_leading(a));
        assert(end.segments =~= reloaded_segments(segs));
    } else {
        assert(st5.pending =~= tail);
        assert(end.leading =~= reloaded_leading(a));
        let n = segs.len() - 1;
        if tail.len() == 0 {
            assert(reread_comments(segs, n) + marked(tail) =~= reread_comments(segs, n));
        }
        assert forall|i: int| 0 <= i < segs.len() implies end.segments[i] == reloaded_segments(
            segs,
        )[i] by {}
        assert(end.segments =~= reloaded_segments(segs));
    }
}

} // verus!
