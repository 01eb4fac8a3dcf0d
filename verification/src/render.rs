//! What the editor shows: the texts of its four panes.

use vstd::prelude::*;
use vstd::string::StringExecFns;

use crate::app::{app_wf, category_text, items_len, segment_wf, App, AppView};
use crate::ascii_laws::law_ascii_code;
use crate::color::{bg24, bg24_text, fg24, fg24_text, is_separable, law_canonical_code, separable};
use crate::globals::{
    key_at, key_help, key_name, text_of, GlobalKey, Globals, GlobalsView, KEY_COUNT,
};
use crate::number::{decimal, decimal_of, push_decimal};
use crate::segment::{Segment, SegmentView};
use crate::style::{
    in_bold, in_palette, join, joined, pad_left, pad_right, padded_left, padded_right, repeat,
    repeated, reversed, truncate, truncated, underlined,
};
use crate::text::{lemma_texts_push, texts};

verus! {

/// The texts of the four panes.
pub struct Screen {
    pub top: String,
    pub left: String,
    pub right: String,
    pub status: String,
}

/// The heading: a mark for unsaved changes, and a sample of the bar's colours.
pub open spec fn top_text(a: AppView) -> Seq<char> {
    " stripconf"@ + (if a.dirty {
        " [modified]"@
    } else {
        ""@
    }) + "    bar:"@ + " "@ + bg24_text(
        fg24_text(" cpu mem disk "@, a.globals.fg),
        a.globals.bg,
    ) + " "@
}

/// A category as a line; the selected one is reversed.
pub open spec fn category_line(a: AppView, i: int) -> Seq<char> {
    let l = " "@ + category_text(i) + " "@;
    if a.cat_index == i {
        reversed(l)
    } else {
        l
    }
}

/// The list of categories.
pub open spec fn left_text(a: AppView) -> Seq<char> {
    joined(seq![category_line(a, 0), category_line(a, 1)])
}

/// The keys that work in a category.
pub open spec fn hint_text(cat_index: nat) -> Seq<char> {
    if cat_index == 0 {
        "j/k:item h/l:adjust Enter:edit W/s:save q:quit"@
    } else {
        "j/k:seg Shift-J/K:reorder t:toggle a:add d:del Enter:edit W/s:save q:quit"@
    }
}

/// The position in the list, counted from one, and the keys.
pub open spec fn status_text(a: AppView) -> Seq<char> {
    " "@ + decimal(a.item_index + 1) + "/"@ + decimal(
        if items_len(a) > 0 {
            items_len(a)
        } else {
            1
        },
    ) + "  "@ + hint_text(a.cat_index)
}

/// What stands for a setting that has the bar's own default.
pub open spec fn default_text() -> Seq<char> {
    in_palette("(default)"@, 245)
}

/// The value of a setting as it is shown: colours with a sample.
pub open spec fn value_text(g: GlobalsView, k: GlobalKey) -> Seq<char> {
    match k {
        GlobalKey::Bg => bg24_text("    "@, g.bg) + " "@ + g.bg,
        GlobalKey::Fg => bg24_text("    "@, g.fg) + " "@ + g.fg,
        GlobalKey::Font if g.font.len() == 0 => default_text(),
        GlobalKey::CharWidth if g.char_width == 0 => default_text(),
        GlobalKey::Baseline if g.baseline == 0 => default_text(),
        _ => text_of(g, k),
    }
}

/// A setting as a line; the selected one stands between arrows.
pub open spec fn global_line(g: GlobalsView, k: GlobalKey, selected: bool) -> Seq<char> {
    let name = padded_right(key_name(k), 12);
    if selected {
        "  "@ + underlined(name) + "\u{25C0} "@ + value_text(g, k) + " \u{25B6}"@
    } else {
        "  "@ + name + "  "@ + value_text(g, k) + "  "@
    }
}

/// The lines of the first `n` settings.
pub open spec fn global_rows(a: AppView, n: nat) -> Seq<Seq<char>> {
    Seq::new(n, |i: int| global_line(a.globals, key_at(i)->0, a.item_index == i))
}

/// What the selected setting is for.
pub open spec fn help_lines(a: AppView) -> Seq<Seq<char>> {
    match key_at(a.item_index as int) {
        Some(k) => seq![Seq::empty(), in_palette(key_help(k), 245)],
        None => Seq::empty(),
    }
}

/// A heading over a rule.
pub open spec fn heading(title: Seq<char>, width: int) -> Seq<Seq<char>> {
    seq![
        in_palette(in_bold(title), 81),
        in_palette(repeated('\u{2500}', width), 245),
        Seq::empty(),
    ]
}

/// The list of settings.
pub open spec fn globals_text(a: AppView) -> Seq<char> {
    joined(
        heading("Bar globals"@, 40) + global_rows(a, KEY_COUNT as nat) + help_lines(a),
    )
}

/// The mark of a segment: full if it is switched on.
pub open spec fn mark_text(v: SegmentView) -> Seq<char> {
    if v.enabled {
        in_palette("\u{25CF}"@, 82)
    } else {
        in_palette("\u{25CB}"@, 240)
    }
}

/// The gap of a segment in its column.
pub open spec fn gap_text(v: SegmentView) -> Seq<char> {
    if v.gap_override > 0 {
        in_palette("+"@ + padded_right(decimal(v.gap_override as nat), 3), 245)
    } else {
        "    "@
    }
}

/// The colour of a segment in its column.
pub open spec fn color_text(v: SegmentView) -> Seq<char> {
    if v.color.len() == 0 {
        "      "@
    } else {
        bg24_text("  "@, v.color)
    }
}

/// The interval of a segment in its column.
pub open spec fn interval_text(v: SegmentView) -> Seq<char> {
    if v.interval == 0 {
        in_palette(" static"@, 245)
    } else {
        padded_left(decimal(v.interval as nat), 3) + "s   "@
    }
}

/// The command of a segment in its column.
pub open spec fn command_text(v: SegmentView) -> Seq<char> {
    in_palette(
        truncated(v.command, 50),
        if v.enabled {
            252
        } else {
            240
        },
    )
}

/// A segment as a line; the selected one is reversed.
pub open spec fn segment_row(v: SegmentView, selected: bool) -> Seq<char> {
    let row = "  "@ + mark_text(v) + " "@ + padded_right(truncated(v.name, 10), 10) + " "@
        + gap_text(v) + " "@ + color_text(v) + " "@ + interval_text(v) + " "@ + command_text(v);
    if selected {
        reversed(row)
    } else {
        row
    }
}

/// The lines of the first `n` segments.
pub open spec fn segment_rows(a: AppView, n: nat) -> Seq<Seq<char>> {
    Seq::new(n, |i: int| segment_row(a.segments[i], a.item_index == i))
}

/// The list of segments, or a note that there is none.
pub open spec fn segment_lines(a: AppView) -> Seq<Seq<char>> {
    if a.segments.len() == 0 {
        seq![in_palette("  (no segments \u{2014} press `a` to add one)"@, 245)]
    } else {
        segment_rows(a, a.segments.len())
    }
}

/// What the editing of a segment is like.
pub open spec fn segment_notes() -> Seq<Seq<char>> {
    seq![
        Seq::empty(),
        in_palette(
            "Edit fields: Name \u{2192} +Gap \u{2192} #Color \u{2192} Command \u{2192} Interval"@,
            245,
        ),
        in_palette("Empty input keeps current value. Color: blank to clear."@, 245),
    ]
}

/// The list of segments with what stands around it.
pub open spec fn segments_text(a: AppView) -> Seq<char> {
    joined(
        heading("Segments (top \u{2192} left of bar)"@, 60) + segment_lines(a) + segment_notes(),
    )
}

/// The text of the right pane.
pub open spec fn right_text(a: AppView) -> Seq<char> {
    if a.cat_index == 0 {
        globals_text(a)
    } else {
        segments_text(a)
    }
}

/// Whether the colours of the bar can be looked at.
pub open spec fn globals_separable(g: GlobalsView) -> bool {
    separable(g.bg) && separable(g.fg)
}

/// Whether the colours of all segments can be looked at.
pub open spec fn segments_separable(segs: Seq<SegmentView>) -> bool {
    forall|i: int| 0 <= i < segs.len() ==> separable(#[trigger] segs[i].color)
}

/// Whether a state can be shown: the colours on the screen can be looked at, and
/// the position, counted from one, is a number of the machine.
pub open spec fn showable(a: AppView) -> bool {
    &&& globals_separable(a.globals)
    &&& a.cat_index != 0 ==> segments_separable(a.segments)
    &&& a.item_index < usize::MAX
}

/// Every state of the editor can be shown.
pub proof fn law_states_are_showable(a: AppView)
    requires
        app_wf(a),
        a.segments.len() <= usize::MAX,
    ensures
        showable(a),
        segments_separable(a.segments),
{
    law_canonical_code(a.globals.bg);
    law_canonical_code(a.globals.fg);
    assert forall|i: int| 0 <= i < a.segments.len() implies separable(
        #[trigger] a.segments[i].color,
    ) by {
        let v = a.segments[i];
        assert(segment_wf(v));
        if v.color.len() == 0 {
            law_ascii_code(v.color);
        } else {
            law_canonical_code(v.color);
        }
    }
}

/// The lines of a heading.
fn start_lines(title: &str, width: usize) -> (v: Vec<String>)
    ensures
        texts(v@) == heading(title@, width as int),
{
    let mut v: Vec<String> = Vec::new();
    let bold = crust::style::bold(title);
    v.push(crust::style::fg(bold.as_str(), 81));
    let rule = repeat('\u{2500}', width);
    v.push(crust::style::fg(rule.as_str(), 245));
    v.push(String::new());
    assert(texts(v@) =~= heading(title@, width as int));
    v
}

/// The value of a setting as it is shown.
fn show_value(g: &Globals, k: GlobalKey) -> (r: String)
    requires
        globals_separable(g@),
    ensures
        r@ == value_text(g@, k),
{
    match k {
        GlobalKey::Bg => show_color(g.bg.as_str()),
        GlobalKey::Fg => show_color(g.fg.as_str()),
        GlobalKey::Font => if g.font.as_str().is_empty() {
            crust::style::fg("(default)", 245)
        } else {
            g.text(k)
        },
        GlobalKey::CharWidth | GlobalKey::Baseline => if g.number(k) == 0 {
            crust::style::fg("(default)", 245)
        } else {
            g.text(k)
        },
        _ => g.text(k),
    }
}

/// A colour with a sample.
fn show_color(code: &str) -> (r: String)
    requires
        separable(code@),
    ensures
        r@ == bg24_text("    "@, code@) + " "@ + code@,
{
    let mut r = bg24("    ", code);
    r.append(" ");
    r.append(code);
    r
}

/// A setting as a line.
fn show_global(g: &Globals, k: GlobalKey, selected: bool) -> (r: String)
    requires
        globals_separable(g@),
    ensures
        r@ == global_line(g@, k, selected),
{
    let name = pad_right(k.name(), 12);
    let value = show_value(g, k);
    let mut r = String::new();
    r.append("  ");
    if selected {
        let label = crust::style::underline(name.as_str());
        r.append(label.as_str());
        r.append("\u{25C0} ");
        r.append(value.as_str());
        r.append(" \u{25B6}");
    } else {
        r.append(name.as_str());
        r.append("  ");
        r.append(value.as_str());
        r.append("  ");
    }
    assert(r@ =~= global_line(g@, k, selected));
    r
}

/// The mark of a segment.
fn show_mark(seg: &Segment) -> (r: String)
    ensures
        r@ == mark_text(seg@),
{
    if seg.enabled {
        crust::style::fg("\u{25CF}", 82)
    } else {
        crust::style::fg("\u{25CB}", 240)
    }
}

/// The gap of a segment.
fn show_gap(seg: &Segment) -> (r: String)
    ensures
        r@ == gap_text(seg@),
{
    if seg.gap_override > 0 {
        let n = decimal_of(seg.gap_override);
        let mut t = "+".to_owned();
        t.append(pad_right(n.as_str(), 3).as_str());
        crust::style::fg(t.as_str(), 245)
    } else {
        "    ".to_owned()
    }
}

/// The colour of a segment.
fn show_segment_color(seg: &Segment) -> (r: String)
    requires
        separable(seg@.color),
    ensures
        r@ == color_text(seg@),
{
    if seg.color.as_str().is_empty() {
        "      ".to_owned()
    } else {
        bg24("  ", seg.color.as_str())
    }
}

/// The interval of a segment.
fn show_interval(seg: &Segment) -> (r: String)
    ensures
        r@ == interval_text(seg@),
{
    if seg.interval == 0 {
        crust::style::fg(" static", 245)
    } else {
        let n = decimal_of(seg.interval);
        let mut t = pad_left(n.as_str(), 3);
        t.append("s   ");
        t
    }
}

/// The command of a segment.
fn show_command(seg: &Segment) -> (r: String)
    ensures
        r@ == command_text(seg@),
{
    let t = truncate(seg.command.as_str(), 50);
    if seg.enabled {
        crust::style::fg(t.as_str(), 252)
    } else {
        crust::style::fg(t.as_str(), 240)
    }
}

/// A segment as a line.
fn show_segment(seg: &Segment, selected: bool) -> (r: String)
    requires
        separable(seg@.color),
    ensures
        r@ == segment_row(seg@, selected),
{
    let mut row = String::new();
    row.append("  ");
    row.append(show_mark(seg).as_str());
    row.append(" ");
    let name = truncate(seg.name.as_str(), 10);
    row.append(pad_right(name.as_str(), 10).as_str());
    row.append(" ");
    row.append(show_gap(seg).as_str());
    row.append(" ");
    row.append(show_segment_color(seg).as_str());
    row.append(" ");
    row.append(show_interval(seg).as_str());
    row.append(" ");
    row.append(show_command(seg).as_str());
    let ghost v = seg@;
    assert(row@ =~= "  "@ + mark_text(v) + " "@ + padded_right(truncated(v.name, 10), 10) + " "@
        + gap_text(v) + " "@ + color_text(v) + " "@ + interval_text(v) + " "@ + command_text(v));
    if selected {
        crust::style::reverse(row.as_str())
    } else {
        row
    }
}

impl App {
    /// `text` in a foreground colour.
    pub fn fg24(text: &str, hex: &str) -> (r: String)
        requires
            separable(hex@),
        ensures
            r@ == fg24_text(text@, hex@),
    {
        fg24(text, hex)
    }

    /// `text` on a background colour.
    pub fn bg24(text: &str, hex: &str) -> (r: String)
        requires
            separable(hex@),
        ensures
            r@ == bg24_text(text@, hex@),
    {
        bg24(text, hex)
    }

    /// The heading.
    fn render_top(&self) -> (r: String)
        requires
            globals_separable(self@.globals),
        ensures
            r@ == top_text(self@),
    {
        let sample = App::fg24(" cpu mem disk ", self.globals.fg.as_str());
        let sample = App::bg24(sample.as_str(), self.globals.bg.as_str());
        let mut r = String::new();
        r.append(" stripconf");
        r.append(if self.dirty { " [modified]" } else { "" });
        r.append("    bar:");
        r.append(" ");
        r.append(sample.as_str());
        r.append(" ");
        assert(r@ =~= top_text(self@));
        r
    }

    /// The list of categories.
    fn render_left(&self) -> (r: String)
        ensures
            r@ == left_text(self@),
    {
        let mut lines: Vec<String> = Vec::new();
        let mut i: usize = 0;
        while i < self.category_count()
            invariant
                i <= 2,
                texts(lines@) == Seq::new(i as nat, |k: int| category_line(self@, k)),
            decreases 2 - i,
        {
            let mut l = String::new();
            l.append(" ");
            l.append(self.category_name(i));
            l.append(" ");
            assert(l@ =~= " "@ + category_text(i as int) + " "@);
            let l = if i == self.cat_index {
                crust::style::reverse(l.as_str())
            } else {
                l
            };
            proof {
                lemma_texts_push(lines@, l);
                assert(texts(lines@).push(l@) =~= Seq::new(
                    (i + 1) as nat,
                    |k: int| category_line(self@, k),
                ));
            }
            lines.push(l);
            i += 1;
        }
        assert(texts(lines@) =~= seq![category_line(self@, 0), category_line(self@, 1)]);
        join(&lines)
    }

    /// The position in the list and the keys.
    fn render_status(&self) -> (r: String)
        requires
            self@.item_index < usize::MAX,
        ensures
            r@ == status_text(self@),
    {
        let len: usize = self.current_items_len();
        let hint = match self.cat_index {
            0 => "j/k:item h/l:adjust Enter:edit W/s:save q:quit",
            _ => "j/k:seg Shift-J/K:reorder t:toggle a:add d:del Enter:edit W/s:save q:quit",
        };
        let mut r = String::new();
        r.append(" ");
        push_decimal(&mut r, self.item_index as u64 + 1);
        r.append("/");
        push_decimal(&mut r, if len > 0 { len as u64 } else { 1 });
        r.append("  ");
        r.append(hint);
        assert(r@ =~= status_text(self@));
        r
    }

    /// The list of settings.
    pub fn render_globals(&self) -> (r: String)
        requires
            globals_separable(self@.globals),
        ensures
            r@ == globals_text(self@),
    {
        let mut lines = start_lines("Bar globals", 40);
        let ghost head = texts(lines@);
        let mut i: usize = 0;
        assert(head + global_rows(self@, 0) =~= head);
        while i < KEY_COUNT
            invariant
                i <= KEY_COUNT,
                globals_separable(self@.globals),
                texts(lines@) == head + global_rows(self@, i as nat),
            decreases KEY_COUNT - i,
        {
            if let Some(k) = GlobalKey::at(i) {
                let l = show_global(&self.globals, k, i == self.item_index);
                proof {
                    lemma_texts_push(lines@, l);
                    assert((head + global_rows(self@, i as nat)).push(l@) =~= head + global_rows(
                        self@,
                        (i + 1) as nat,
                    ));
                }
                lines.push(l);
            }
            i += 1;
        }
        if let Some(k) = GlobalKey::at(self.item_index) {
            lines.push(String::new());
            lines.push(crust::style::fg(k.help(), 245));
        }
        assert(texts(lines@) =~= head + global_rows(self@, KEY_COUNT as nat) + help_lines(self@));
        join(&lines)
    }

    /// The list of segments.
    pub fn render_segments(&self) -> (r: String)
        requires
            segments_separable(self@.segments),
        ensures
            r@ == segments_text(self@),
    {
        let mut lines = start_lines("Segments (top \u{2192} left of bar)", 60);
        let ghost head = texts(lines@);
        let ghost a = self@;
        if self.segments.len() == 0 {
            lines.push(crust::style::fg("  (no segments \u{2014} press `a` to add one)", 245));
        } else {
            let mut i: usize = 0;
            assert(head + segment_rows(a, 0) =~= head);
            while i < self.segments.len()
                invariant
                    i <= self.segments.len(),
                    a == self@,
                    segments_separable(a.segments),
                    texts(lines@) == head + segment_rows(a, i as nat),
                decreases self.segments.len() - i,
            {
                assert(a.segments[i as int] == self.segments@[i as int]@);
                let l = show_segment(&self.segments[i], i == self.item_index);
                proof {
                    lemma_texts_push(lines@, l);
                    assert((head + segment_rows(a, i as nat)).push(l@) =~= head + segment_rows(
                        a,
                        (i + 1) as nat,
                    ));
                }
                lines.push(l);
                i += 1;
            }
        }
        assert(texts(lines@) =~= head + segment_lines(a));
        lines.push(String::new());
        lines.push(
            crust::style::fg(
                "Edit fields: Name \u{2192} +Gap \u{2192} #Color \u{2192} Command \u{2192} Interval",
                245,
            ),
        );
        lines.push(
            crust::style::fg("Empty input keeps current value. Color: blank to clear.", 245),
        );
        assert(texts(lines@) =~= head + segment_lines(a) + segment_notes());
        join(&lines)
    }

    /// Decides whether the state can be shown, which [`App::render`] asks of it.
    pub fn is_showable(&self) -> (b: bool)
        ensures
            b == showable(self@),
    {
        if !is_separable(self.globals.bg.as_str()) || !is_separable(self.globals.fg.as_str()) {
            return false;
        }
        if self.cat_index != 0 {
            let mut i: usize = 0;
            while i < self.segments.len()
                invariant
                    i <= self.segments.len(),
                    self.cat_index != 0,
                    forall|k: int|
                        0 <= k < i ==> separable(#[trigger] self@.segments[k].color),
                decreases self.segments.len() - i,
            {
                if !is_separable(self.segments[i].color.as_str()) {
                    assert(!separable(self@.segments[i as int].color));
                    return false;
                }
                i += 1;
            }
        }
        self.item_index < usize::MAX
    }

    /// The texts of all panes.
    pub fn render(&self) -> (s: Screen)
        requires
            showable(self@),
        ensures
            s.top@ == top_text(self@),
            s.left@ == left_text(self@),
            s.right@ == right_text(self@),
            s.status@ == status_text(self@),
    {
        Screen {
            top: self.render_top(),
            left: self.render_left(),
            right: match self.cat_index {
                0 => self.render_globals(),
                _ => self.render_segments(),
            },
            status: self.render_status(),
        }
    }
}

} // verus!
