//! What giving a setting a value does, once and over all lines of a file.

use vstd::prelude::*;

use crate::app::{blank_app, AppView};
use crate::color::{color_of, is_canonical, law_color_code};
use crate::config::{line_view, load_line, load_lines, load_start, loaded, LineView, LoadView};
use crate::config_laws::{lemma_load_lines_add, lemma_load_one_line};
use crate::globals::{
    default_globals, key_at, key_help, key_name, number_of, text_of, with_number, with_text,
    with_value, GlobalKey, Globals, GlobalsView,
};
use crate::number::{decimal, number};
use crate::segment::SegmentView;
use crate::text::lines;

verus! {

/// What the settings hold is what their fields hold.
pub proof fn law_settings_view(g: Globals)
    ensures
        g@.height == g.height,
        g@.top_offset == g.top_offset,
        g@.bg == g.bg@,
        g@.fg == g.fg@,
        g@.gap == g.gap,
        g@.font == g.font@,
        g@.char_width == g.char_width,
        g@.baseline == g.baseline,
{
}

/// Whether a setting is a number.
pub open spec fn is_number_key(k: GlobalKey) -> bool {
    match k {
        GlobalKey::Bg | GlobalKey::Fg | GlobalKey::Font => false,
        _ => true,
    }
}

/// Each setting is its own field: a number in decimal, a colour code, a font.
pub proof fn law_setting_fields(g: GlobalsView)
    ensures
        number_of(g, GlobalKey::Height) == g.height,
        number_of(g, GlobalKey::TopOffset) == g.top_offset,
        number_of(g, GlobalKey::Gap) == g.gap,
        number_of(g, GlobalKey::CharWidth) == g.char_width,
        number_of(g, GlobalKey::Baseline) == g.baseline,
        text_of(g, GlobalKey::Bg) == g.bg,
        text_of(g, GlobalKey::Fg) == g.fg,
        text_of(g, GlobalKey::Font) == g.font,
        forall|k: GlobalKey|
            is_number_key(k) ==> #[trigger] text_of(g, k) == decimal(number_of(g, k) as nat),
{
}

/// The settings of a bar without a file.
pub proof fn law_default_settings()
    ensures
        ({
            let g = default_globals();
            &&& g.height == 22 && g.top_offset == 0 && g.gap == 8
            &&& g.bg == "#000000"@ && g.fg == "#cccccc"@
            &&& g.font.len() == 0 && g.char_width == 0 && g.baseline == 0
        }),
{
}

/// The settings stand in the list in this order, under these names, with these
/// explanations.
pub proof fn law_setting_list(i: int)
    ensures
        key_at(i) is Some <==> 0 <= i < 8,
        key_at(0) == Some(GlobalKey::Height) && key_at(1) == Some(GlobalKey::TopOffset),
        key_at(2) == Some(GlobalKey::Bg) && key_at(3) == Some(GlobalKey::Fg),
        key_at(4) == Some(GlobalKey::Gap) && key_at(5) == Some(GlobalKey::Font),
        key_at(6) == Some(GlobalKey::CharWidth) && key_at(7) == Some(GlobalKey::Baseline),
        key_name(GlobalKey::Height) == "height"@,
        key_name(GlobalKey::TopOffset) == "top_offset"@,
        key_name(GlobalKey::Bg) == "bg"@,
        key_name(GlobalKey::Fg) == "fg"@,
        key_name(GlobalKey::Gap) == "gap"@,
        key_name(GlobalKey::Font) == "font"@,
        key_name(GlobalKey::CharWidth) == "char_width"@,
        key_name(GlobalKey::Baseline) == "baseline"@,
        key_help(GlobalKey::Height) == "bar height in pixels"@,
        key_help(GlobalKey::TopOffset) == "vertical offset from top of screen 0 (px)"@,
        key_help(GlobalKey::Bg) == "bar background colour (#RRGGBB)"@,
        key_help(GlobalKey::Fg) == "default segment foreground (#RRGGBB)"@,
        key_help(GlobalKey::Gap) == "default gap between segments (px)"@,
        key_help(GlobalKey::Font) == "X core font name (empty = strip default)"@,
        key_help(GlobalKey::CharWidth) == "monospace cell width override (0 = default)"@,
        key_help(GlobalKey::Baseline) == "font baseline offset (0 = default)"@,
{
}

/// A setting that is given a number has exactly that number, whatever the
/// settings were, and all other settings have the text that they had.
pub proof fn law_given_number(g: GlobalsView, k: GlobalKey, n: u32, other: GlobalKey)
    ensures
        is_number_key(k) ==> number_of(with_number(g, k, n), k) == n,
        is_number_key(k) ==> text_of(with_number(g, k, n), k) == decimal(n as nat),
        other != k ==> text_of(with_number(g, k, n), other) == text_of(g, other),
        other != k ==> number_of(with_number(g, k, n), other) == number_of(g, other),
        !is_number_key(k) ==> with_number(g, k, n) == g,
{
}

/// A setting that is given a text has exactly that text, whatever the settings
/// were, and all other settings have the text that they had.
pub proof fn law_given_text(g: GlobalsView, k: GlobalKey, t: Seq<char>, other: GlobalKey)
    ensures
        !is_number_key(k) ==> text_of(with_text(g, k, t), k) == t,
        other != k ==> text_of(with_text(g, k, t), other) == text_of(g, other),
        other != k ==> number_of(with_text(g, k, t), other) == number_of(g, other),
        is_number_key(k) ==> with_text(g, k, t) == g,
{
}

/// Whether a setting can take a value: a number must be readable, a colour must
/// be one, a font can be anything.
pub open spec fn is_readable(k: GlobalKey, val: Seq<char>) -> bool {
    match k {
        GlobalKey::Font => true,
        GlobalKey::Bg | GlobalKey::Fg => color_of(val) is Some,
        _ => number(val) is Some,
    }
}

/// Whether a setting is what a value says: the number that it denotes; a
/// canonical code of the colour that it denotes; the font of that name.
pub open spec fn is_what_it_says(g: GlobalsView, k: GlobalKey, val: Seq<char>) -> bool {
    match k {
        GlobalKey::Font => text_of(g, k) == val,
        GlobalKey::Bg | GlobalKey::Fg => is_canonical(text_of(g, k)) && color_of(text_of(g, k))
            == color_of(val),
        _ => Some(number_of(g, k)) == number(val),
    }
}

/// A setting that is given a value it can take is what the value says; one that
/// it cannot take changes nothing; and no other setting changes.
pub proof fn law_given_value(g: GlobalsView, k: GlobalKey, val: Seq<char>, other: GlobalKey)
    ensures
        is_readable(k, val) ==> is_what_it_says(with_value(g, k, val), k, val),
        !is_readable(k, val) ==> with_value(g, k, val) == g,
        other != k ==> text_of(with_value(g, k, val), other) == text_of(g, other),
        other != k ==> number_of(with_value(g, k, val), other) == number_of(g, other),
{
    if let Some(c) = color_of(val) {
        law_color_code(c);
    }
}

/// Whether a line gives a setting a value that it can take.
pub open spec fn gives(l: Seq<char>, k: GlobalKey) -> bool {
    match line_view(l) {
        LineView::Global(j, val) => j == k && is_readable(k, val),
        _ => false,
    }
}

proof fn lemma_load_setting_of(st: LoadView, l: Seq<char>, k: GlobalKey)
    ensures
        gives(l, k) ==> {
            &&& line_view(l) is Global
            &&& is_what_it_says(load_line(st, l).globals, k, line_view(l)->Global_1)
        },
        !gives(l, k) ==> {
            &&& text_of(load_line(st, l).globals, k) == text_of(st.globals, k)
            &&& number_of(load_line(st, l).globals, k) == number_of(st.globals, k)
        },
{
    match line_view(l) {
        LineView::Global(j, val) => law_given_value(st.globals, j, val, k),
        _ => {},
    }
}

proof fn lemma_load_ungiven(st: LoadView, ls: Seq<Seq<char>>, k: GlobalKey)
    requires
        forall|j: int| 0 <= j < ls.len() ==> !gives(#[trigger] ls[j], k),
    ensures
        text_of(load_lines(st, ls).globals, k) == text_of(st.globals, k),
        number_of(load_lines(st, ls).globals, k) == number_of(st.globals, k),
    decreases ls.len(),
{
    if ls.len() > 0 {
        let rest = ls.skip(1);
        assert(!gives(ls[0], k));
        lemma_load_setting_of(st, ls[0], k);
        assert forall|j: int| 0 <= j < rest.len() implies !gives(#[trigger] rest[j], k) by {
            assert(rest[j] == ls[j + 1]);
        }
        lemma_load_ungiven(load_line(st, ls[0]), rest, k);
    }
}

/// Of all lines that give a setting a value it can take, the last one counts,
/// wherever it stands among the others.
pub proof fn law_last_value_counts(a: AppView, content: Seq<char>, k: GlobalKey, i: int)
    requires
        0 <= i < lines(content).len(),
        gives(lines(content)[i], k),
        forall|j: int| i < j < lines(content).len() ==> !gives(#[trigger] lines(content)[j], k),
    ensures
        is_what_it_says(
            loaded(a, content).globals,
            k,
            line_view(lines(content)[i])->Global_1,
        ),
{
    let ls = lines(content);
    let st = load_start(a);
    let front = ls.take(i);
    let rest = ls.skip(i + 1);
    let l = ls[i];
    assert(ls =~= front + (seq![l] + rest));
    lemma_load_lines_add(st, front, seq![l] + rest);
    let s1 = load_lines(st, front);
    lemma_load_lines_add(s1, seq![l], rest);
    lemma_load_one_line(s1, l);
    lemma_load_setting_of(s1, l, k);
    assert forall|j: int| 0 <= j < rest.len() implies !gives(#[trigger] rest[j], k) by {
        assert(rest[j] == ls[j + i + 1]);
    }
    lemma_load_ungiven(load_line(s1, l), rest, k);
}

/// A setting that no line gives a value it can take is what it was.
pub proof fn law_ungiven_setting_stays(a: AppView, content: Seq<char>, k: GlobalKey)
    requires
        forall|j: int| 0 <= j < lines(content).len() ==> !gives(#[trigger] lines(content)[j], k),
    ensures
        text_of(loaded(a, content).globals, k) == text_of(a.globals, k),
        number_of(loaded(a, content).globals, k) == number_of(a.globals, k),
{
    lemma_load_ungiven(load_start(a), lines(content), k);
}

/// The settings that a file without such lines leaves are those without a file.
pub proof fn law_blank_state()
    ensures
        ({
            let a = blank_app();
            &&& a.globals == default_globals()
            &&& a.cat_index == 0 && a.item_index == 0 && !a.dirty
            &&& a.segments.len() == 0 && a.leading_comments.len() == 0
        }),
{
}

/// What one line more does. A segment is appended, with the lines that wait
/// attached to it, unless nothing but kept lines stands before it: then they lead
/// the file, as they do at the first setting. A kept line waits. Nothing else
/// changes.
pub proof fn law_one_more_line(st: LoadView, ls: Seq<Seq<char>>, l: Seq<char>)
    ensures
        ({
            let b = load_lines(st, ls);
            let e = load_lines(st, ls.push(l));
            match line_view(l) {
                LineView::Segment(v) => {
                    let n = b.segments.len();
                    let s = e.segments[n as int];
                    &&& e.segments.len() == n + 1
                    &&& forall|i: int| 0 <= i < n ==> #[trigger] e.segments[i] == b.segments[i]
                    &&& s.enabled == v.enabled && s.name == v.name && s.color == v.color
                    &&& s.gap_override == v.gap_override && s.interval == v.interval
                    &&& s.command == v.command
                    &&& b.headed ==> s.comments_above == b.pending && e.leading == b.leading
                    &&& !b.headed ==> s.comments_above.len() == 0 && e.leading == b.leading
                        + b.pending
                    &&& e.pending.len() == 0 && e.headed && e.globals == b.globals
                },
                LineView::Global(k, val) => {
                    &&& e.segments == b.segments && e.headed
                    &&& b.headed ==> e.pending == b.pending && e.leading == b.leading
                    &&& !b.headed ==> e.pending.len() == 0 && e.leading == b.leading + b.pending
                    &&& e.globals == with_value(b.globals, k, val)
                },
                LineView::Kept => {
                    &&& e.pending == b.pending.push(l)
                    &&& e.segments == b.segments && e.headed == b.headed
                    &&& e.leading == b.leading && e.globals == b.globals
                },
            }
        }),
{
    assert(ls.push(l) =~= ls + seq![l]);
    lemma_load_lines_add(st, ls, seq![l]);
    lemma_load_one_line(load_lines(st, ls), l);
}

/// Where the reading of a file begins and what its end does. Reading begins with
/// what is there. At the end, the lines that still wait are attached to the last
/// segment, each behind the sign for the end of the file; without a segment they
/// lead the file. The selection and the flag do not change.
pub proof fn law_reading_begins_and_ends(a: AppView, content: Seq<char>)
    ensures
        ({
            let s0 = load_start(a);
            let e = load_lines(s0, lines(content));
            let b = loaded(a, content);
            let n = e.segments.len() as int;
            &&& s0.globals == a.globals && s0.segments == a.segments
            &&& s0.leading == a.leading_comments && s0.pending.len() == 0 && !s0.headed
            &&& load_lines(s0, Seq::empty()) == s0
            &&& b.cat_index == a.cat_index && b.item_index == a.item_index && b.dirty == a.dirty
            &&& b.globals == e.globals
            &&& b.segments.len() == n
            &&& forall|i: int| 0 <= i < n - 1 ==> #[trigger] b.segments[i] == e.segments[i]
            &&& n == 0 ==> b.leading_comments == e.leading + e.pending
            &&& n > 0 ==> {
                let s = e.segments[n - 1];
                let m = s.comments_above.len() as int;
                let t = b.segments[n - 1];
                &&& b.leading_comments == e.leading
                &&& t == SegmentView { comments_above: t.comments_above, ..s }
                &&& t.comments_above.len() == m + e.pending.len()
                &&& forall|i: int|
                    0 <= i < m ==> #[trigger] t.comments_above[i] == s.comments_above[i]
                &&& forall|i: int|
                    0 <= i < e.pending.len() ==> #[trigger] t.comments_above[m + i] == seq!['\u{1}']
                        + e.pending[i]
            }
        }),
{
    let s0 = load_start(a);
    let e = load_lines(s0, lines(content));
    let b = loaded(a, content);
    let n = e.segments.len() as int;
    if n > 0 {
        let s = e.segments[n - 1];
        let t = b.segments[n - 1];
        assert(t =~= SegmentView { comments_above: t.comments_above, ..s });
    } else {
        assert(b.leading_comments =~= e.leading + e.pending);
    }
}

} // verus!
