//! What is on the screen: every line of every pane, and how it depends on the
//! state.

use vstd::prelude::*;

use crate::app::{category_text, AppView};
use crate::color::{bg24_text, fg24_text};
use crate::globals::{key_at, key_help, key_name, GlobalKey, GlobalsView};
use crate::number::decimal;
use crate::render::{
    category_line, global_line, global_rows, globals_text, heading, help_lines, left_text,
    right_text, segment_lines, segment_notes, segment_row, segments_text, status_text, top_text,
    value_text,
};
use crate::segment::SegmentView;
use crate::state_laws::item_count;
use crate::style::{
    in_bold, in_palette, joined, padded_left, padded_right, repeated, reversed, truncated,
    underlined,
};

verus! {

/// The right pane shows the settings in the first category and the segments in
/// any other.
pub proof fn law_right_pane(a: AppView)
    ensures
        a.cat_index == 0 ==> right_text(a) == globals_text(a),
        a.cat_index != 0 ==> right_text(a) == segments_text(a),
{
}

/// The heading tells whether there is something to save, and shows the bar's
/// colours.
pub proof fn law_top_pane(a: AppView)
    ensures
        ({
            let sample = bg24_text(fg24_text(" cpu mem disk "@, a.globals.fg), a.globals.bg);
            &&& a.dirty ==> top_text(a) == " stripconf"@ + " [modified]"@ + "    bar:"@ + seq![' ']
                + sample + seq![' ']
            &&& !a.dirty ==> top_text(a) == " stripconf"@ + "    bar:"@ + seq![' '] + sample
                + seq![' ']
        }),
{
    reveal_strlit(" ");
    reveal_strlit("");
    assert(" "@ =~= seq![' ']);
    assert(""@ =~= Seq::<char>::empty());
    assert(" stripconf"@ + ""@ =~= " stripconf"@);
}

/// The left pane shows the two categories, a line each; the selected one, and
/// only that, is in reverse video.
pub proof fn law_left_pane(a: AppView)
    ensures
        category_text(0) == "Bar globals"@,
        forall|i: int| i != 0 ==> #[trigger] category_text(i) == "Segments"@,
        forall|i: int|
            #[trigger] category_line(a, i) == if a.cat_index == i {
                reversed(seq![' '] + category_text(i) + seq![' '])
            } else {
                seq![' '] + category_text(i) + seq![' ']
            },
        left_text(a) == category_line(a, 0) + seq!['\n'] + category_line(a, 1),
{
    reveal_strlit(" ");
    reveal_strlit("\n");
    assert(" "@ =~= seq![' ']);
    assert("\n"@ =~= seq!['\n']);
    let ls = seq![category_line(a, 0), category_line(a, 1)];
    let one = seq![category_line(a, 0)];
    assert(ls.drop_last() =~= one);
    assert(joined(one) == category_line(a, 0));
    assert(left_text(a) =~= category_line(a, 0) + seq!['\n'] + category_line(a, 1));
}

/// The status shows the place of the selected item, counted from one, the number
/// of items, at least one, and the keys of the category.
pub proof fn law_status_pane(a: AppView)
    ensures
        ({
            let n = item_count(a);
            let hint = if a.cat_index == 0 {
                "j/k:item h/l:adjust Enter:edit W/s:save q:quit"@
            } else {
                "j/k:seg Shift-J/K:reorder t:toggle a:add d:del Enter:edit W/s:save q:quit"@
            };
            status_text(a) == seq![' '] + decimal((a.item_index + 1) as nat) + seq!['/'] + decimal(
                if n > 0 {
                    n as nat
                } else {
                    1
                },
            ) + seq![' ', ' '] + hint
        }),
{
    reveal_strlit(" ");
    reveal_strlit("/");
    reveal_strlit("  ");
    assert(" "@ =~= seq![' ']);
    assert("/"@ =~= seq!['/']);
    assert("  "@ =~= seq![' ', ' ']);
}

/// A list stands under its title, a rule and a blank line.
pub proof fn law_heading(title: Seq<char>, width: int)
    ensures
        ({
            let h = heading(title, width);
            &&& h.len() == 3
            &&& h[0] == in_palette(in_bold(title), 81)
            &&& h[1] == in_palette(repeated('\u{2500}', width), 245)
            &&& h[2].len() == 0
        }),
{
}

/// The list of segments: a line for each segment in its order, or the note that
/// there is none, and the notes on editing. The line of a segment is in reverse
/// video if and only if the segment is the selected item.
pub proof fn law_segment_list(a: AppView, i: int)
    ensures
        ({
            let rows = segment_lines(a);
            let n = a.segments.len();
            let notes = segment_notes();
            &&& segments_text(a) == joined(
                heading("Segments (top \u{2192} left of bar)"@, 60) + rows + notes,
            )
            &&& n == 0 ==> rows == seq![
                in_palette("  (no segments \u{2014} press `a` to add one)"@, 245),
            ]
            &&& n > 0 ==> rows.len() == n
            &&& 0 <= i < n && i == a.item_index ==> rows[i] == reversed(
                segment_row(a.segments[i], false),
            )
            &&& 0 <= i < n && i != a.item_index ==> rows[i] == segment_row(a.segments[i], false)
            &&& notes.len() == 3 && notes[0].len() == 0
            &&& notes[1] == in_palette(
                "Edit fields: Name \u{2192} +Gap \u{2192} #Color \u{2192} Command \u{2192} Interval"@,
                245,
            )
            &&& notes[2] == in_palette(
                "Empty input keeps current value. Color: blank to clear."@,
                245,
            )
        }),
{
}

/// Selecting another segment takes the reverse video from the one line to the
/// other, and changes no line else.
pub proof fn law_highlight_moves(a: AppView, b: AppView, i: int)
    requires
        b == (AppView { item_index: b.item_index, ..a }),
        b.item_index != a.item_index,
        a.item_index < a.segments.len(),
        b.item_index < a.segments.len(),
        0 <= i < a.segments.len(),
    ensures
        ({
            let p = segment_lines(a);
            let q = segment_lines(b);
            let from = a.item_index as int;
            let to = b.item_index as int;
            &&& p[from] == reversed(q[from])
            &&& q[to] == reversed(p[to])
            &&& i != from && i != to ==> p[i] == q[i]
        }),
{
}

/// The columns of a segment's line: whether it is on, the name cut and filled up
/// to ten characters, the gap, the colour, the interval, the command cut to fifty
/// characters. Each depends on its own part of the segment and on nothing else,
/// but that the command of a segment that is off is darker.
pub proof fn law_segment_row(v: SegmentView)
    ensures
        ({
            let mark = if v.enabled {
                in_palette("\u{25CF}"@, 82)
            } else {
                in_palette("\u{25CB}"@, 240)
            };
            let name = padded_right(truncated(v.name, 10), 10);
            let gap = if v.gap_override == 0 {
                "    "@
            } else {
                in_palette("+"@ + padded_right(decimal(v.gap_override as nat), 3), 245)
            };
            let color = if v.color.len() == 0 {
                "      "@
            } else {
                bg24_text("  "@, v.color)
            };
            let interval = if v.interval == 0 {
                in_palette(" static"@, 245)
            } else {
                padded_left(decimal(v.interval as nat), 3) + "s   "@
            };
            let command = in_palette(
                truncated(v.command, 50),
                if v.enabled {
                    252
                } else {
                    240
                },
            );
            let b = seq![' '];
            segment_row(v, false) == b + b + mark + b + name + b + gap + b + color + b + interval
                + b + command
        }),
        segment_row(v, true) == reversed(segment_row(v, false)),
{
    reveal_strlit(" ");
    reveal_strlit("  ");
    assert(" "@ =~= seq![' ']);
    assert("  "@ =~= seq![' '] + seq![' ']);
}

/// The list of settings: a line for each of the eight in their order, and what
/// the selected one is for.
pub proof fn law_setting_list_shown(a: AppView, i: int)
    ensures
        ({
            let rows = global_rows(a, 8);
            let help = help_lines(a);
            &&& globals_text(a) == joined(heading("Bar globals"@, 40) + rows + help)
            &&& rows.len() == 8
            &&& 0 <= i < 8 ==> rows[i] == global_line(
                a.globals,
                key_at(i)->0,
                i == a.item_index,
            )
            &&& a.item_index < 8 ==> help.len() == 2 && help[0].len() == 0 && help[1]
                == in_palette(key_help(key_at(a.item_index as int)->0), 245)
            &&& a.item_index >= 8 ==> help.len() == 0
        }),
{
}

/// The line of a setting: its name filled up to twelve characters and its value.
/// The selected one, and only that, is underlined and stands between arrows.
pub proof fn law_setting_row(g: GlobalsView, k: GlobalKey)
    ensures
        ({
            let b = seq![' ', ' '];
            let name = padded_right(key_name(k), 12);
            let val = value_text(g, k);
            &&& global_line(g, k, true) == b + underlined(name) + seq!['\u{25C0}', ' '] + val
                + seq![' ', '\u{25B6}']
            &&& global_line(g, k, false) == b + name + b + val + b
        }),
{
    reveal_strlit("  ");
    reveal_strlit("\u{25C0} ");
    reveal_strlit(" \u{25B6}");
    assert("  "@ =~= seq![' ', ' ']);
    assert("\u{25C0} "@ =~= seq!['\u{25C0}', ' ']);
    assert(" \u{25B6}"@ =~= seq![' ', '\u{25B6}']);
}

/// The value of a setting as it is shown: a number in decimal, a colour as a
/// sample and its code, a font by its name; a font, a width or a baseline that is
/// the bar's own, as the default.
pub proof fn law_setting_value(g: GlobalsView)
    ensures
        ({
            let own = in_palette("(default)"@, 245);
            &&& value_text(g, GlobalKey::Height) == decimal(g.height as nat)
            &&& value_text(g, GlobalKey::TopOffset) == decimal(g.top_offset as nat)
            &&& value_text(g, GlobalKey::Gap) == decimal(g.gap as nat)
            &&& value_text(g, GlobalKey::Bg) == bg24_text("    "@, g.bg) + seq![' '] + g.bg
            &&& value_text(g, GlobalKey::Fg) == bg24_text("    "@, g.fg) + seq![' '] + g.fg
            &&& value_text(g, GlobalKey::Font) == if g.font.len() == 0 {
                own
            } else {
                g.font
            }
            &&& value_text(g, GlobalKey::CharWidth) == if g.char_width == 0 {
                own
            } else {
                decimal(g.char_width as nat)
            }
            &&& value_text(g, GlobalKey::Baseline) == if g.baseline == 0 {
                own
            } else {
                decimal(g.baseline as nat)
            }
        }),
{
    reveal_strlit(" ");
    assert(" "@ =~= seq![' ']);
}

} // verus!
