//! What the steps of the editor keep of a state that a file can hold: one that
//! is read back from the file that it was written to.

use vstd::prelude::*;
use vstd::utf8::{encode_utf8, is_ascii_chars};

use crate::app::{blank_app, deleted, on_segment, AppView};
use crate::ascii_laws::{lemma_ascii_cut, lemma_cut};
use crate::color::{is_canonical, is_lower_hex, law_normal_form_is_stable, normal_form};
use crate::config::{tail_lines, unmarked_lines};
use crate::config_laws::{globals_persist, kept, lemma_trimmed, persists, segment_persists};
use crate::edit::{
    add_next, added, color_or, global_edited, new_segment, number_or, segment_edited,
    selected_edited, text_or, AddView, AnswersView, SegmentAnswers,
};
use crate::globals::{
    key_at, law_default_globals_wf, law_with_value_keeps_wf, with_value, GlobalKey,
};
use crate::keys::{commanded, Command};
use crate::number::{decimal, lemma_decimal};
use crate::segment::{
    body_of, command_tail, has_color, has_gap, has_interval, hash_separable, interval_tail,
    SegmentView,
};
use crate::segment_laws::{is_trimmed, lemma_color_place, one_word, rereadable};
use crate::text::{is_digit, no_feed, trim};

verus! {

/// A file can hold the state without a file.
pub proof fn law_blank_persists()
    ensures
        persists(blank_app()),
{
    law_default_globals_wf();
}

/// A segment is held by a file whether it is switched on or off.
proof fn lemma_switch_persists(v: SegmentView)
    requires
        segment_persists(v),
    ensures
        segment_persists(SegmentView { enabled: !v.enabled, ..v }),
{
    assert(body_of(SegmentView { enabled: !v.enabled, ..v }) == body_of(v));
}

/// No key makes of a state that a file can hold one that it cannot.
pub proof fn law_commands_persist(a: AppView, c: Command)
    requires
        persists(a),
    ensures
        persists(commanded(a, c)),
{
    let i = a.item_index as int;
    if c == Command::Toggle && on_segment(a) {
        lemma_switch_persists(a.segments[i]);
    }
}

/// Deleting a segment leaves a state that a file can hold.
pub proof fn law_deletion_persists(a: AppView)
    requires
        persists(a),
    ensures
        persists(deleted(a)),
{
    let i = a.item_index as int;
    if on_segment(a) {
        let rest = a.segments.remove(i);
        assert forall|k: int| 0 <= k < rest.len() implies segment_persists(#[trigger] rest[k])
            && rest[k] == a.segments[if k < i {
            k
        } else {
            k + 1
        }] by {}
    }
}

/// An answer for a setting leaves a state that a file can hold. A font must be on
/// one line.
pub proof fn law_setting_persists(a: AppView, answer: Seq<char>)
    requires
        persists(a),
        key_at(a.item_index as int) == Some(GlobalKey::Font) ==> no_feed(trim(answer)),
    ensures
        persists(global_edited(a, answer)),
{
    let t = trim(answer);
    lemma_trimmed(answer);
    if let Some(k) = key_at(a.item_index as int) {
        law_with_value_keeps_wf(a.globals, k, t);
        assert(globals_persist(with_value(a.globals, k, t)));
    }
}

/// Whether a command, behind the given gap and colour and before the given
/// interval, is told from them. Where a part is absent, the command must not look
/// like it; an interval needs a command before it.
pub open spec fn stands_apart(
    command: Seq<char>,
    gap: u32,
    color: Seq<char>,
    interval: u32,
) -> bool {
    &&& gap == 0 && color.len() == 0 ==> !has_gap(command)
    &&& color.len() == 0 ==> !has_color(command) && hash_separable(command)
    &&& interval == 0 ==> !has_interval(command)
    &&& interval > 0 ==> command.len() > 0
}

/// A command before an interval can be looked at as it can alone.
proof fn lemma_hash_before_interval(v: SegmentView)
    requires
        v.command.len() > 0,
    ensures
        hash_separable(v.command + interval_tail(v)) == hash_separable(v.command),
{
    let c = v.command;
    let t = interval_tail(v);
    let s = c + t;
    assert(s[0] == c[0]);
    if c[0] == '#' {
        let x = c.skip(1);
        assert(s.skip(1) =~= x + t);
        lemma_decimal(v.interval as nat);
        assert(is_ascii_chars(t)) by {
            assert forall|i: int| 0 <= i < t.len() implies '\0' <= #[trigger] t[i] <= '\u{7f}' by {
                if i > 0 {
                    assert(t[i] == decimal(v.interval as nat)[i - 1]);
                    assert(is_digit(decimal(v.interval as nat)[i - 1]));
                }
            }
        }
        let n = encode_utf8(x).len();
        lemma_cut(x, t, 0);
        lemma_ascii_cut(t, 0);
        if n + t.len() >= 6 {
            lemma_cut(x, t, 6);
            if n < 6 {
                lemma_ascii_cut(t, 6 - n);
            }
        }
    }
}

/// A canonical colour can be looked at, whatever follows it.
proof fn lemma_hash_of_color(color: Seq<char>, t: Seq<char>)
    requires
        is_canonical(color),
    ensures
        hash_separable(color + t),
{
    let x = color.skip(1);
    let s = color + t;
    assert(s.skip(1) =~= x + t);
    assert(is_ascii_chars(x)) by {
        assert forall|i: int| 0 <= i < x.len() implies '\0' <= #[trigger] x[i] <= '\u{7f}' by {
            assert(x[i] == color[i + 1]);
            assert(is_lower_hex(color[i + 1]));
        }
    }
    lemma_ascii_cut(x, 6);
    lemma_cut(x, t, 6);
}

/// Which segments a file can hold, said of their parts.
pub proof fn law_segment_persists(v: SegmentView)
    requires
        v.color.len() == 0 || is_canonical(v.color),
    ensures
        segment_persists(v) <==> {
            &&& v.name.len() > 0
            &&& one_word(v.name)
            &&& no_feed(v.command)
            &&& is_trimmed(v.command)
            &&& stands_apart(v.command, v.gap_override, v.color, v.interval)
        },
{
    if rereadable(v) && v.name.len() > 0 {
        lemma_color_place(v);
        if v.color.len() > 0 {
            lemma_hash_of_color(v.color, command_tail(v));
        } else if v.command.len() > 0 {
            lemma_hash_before_interval(v);
        }
    }
}

/// Whether the answers for a segment make of it one that a file can hold: the
/// name is one word, the command is on one line and, as it stands with what is
/// kept of the segment, is told from the other parts.
pub open spec fn answers_fit(v: SegmentView, t: AnswersView) -> bool {
    &&& one_word(t.name)
    &&& no_feed(t.command)
    &&& stands_apart(
        text_or(t.command, v.command),
        number_or(t.gap, v.gap_override),
        color_or(t.color, v.color),
        number_or(t.interval, v.interval),
    )
}

/// The answers for a segment leave a state that a file can hold if and only if
/// they fit.
pub proof fn law_segment_edit_persists(a: AppView, answers: SegmentAnswers)
    requires
        persists(a),
        a.item_index < a.segments.len(),
    ensures
        persists(selected_edited(a, answers@)) <==> answers_fit(
            a.segments[a.item_index as int],
            answers@,
        ),
{
    let i = a.item_index as int;
    let v = a.segments[i];
    let t = answers@;
    let w = segment_edited(v, t);
    assert(segment_persists(v));
    lemma_trimmed(answers.command@);
    if normal_form(t.color) is Some {
        law_normal_form_is_stable(t.color);
    }
    law_segment_persists(w);
    let b = selected_edited(a, t);
    assert(b.segments[i] == w);
    if segment_persists(w) {
        assert forall|k: int| 0 <= k < b.segments.len() implies {
            &&& segment_persists(#[trigger] b.segments[k])
            &&& kept(unmarked_lines(b.segments[k].comments_above))
            &&& kept(tail_lines(b.segments[k].comments_above))
        } by {
            assert(segment_persists(a.segments[k]));
        }
    }
}

/// A name of one word and a command of one line that looks neither like a gap
/// nor like a colour nor like an interval fit into any segment.
pub proof fn law_plain_answers_fit(v: SegmentView, t: AnswersView)
    requires
        one_word(t.name),
        t.command.len() > 0,
        no_feed(t.command),
        !has_gap(t.command),
        !has_color(t.command),
        hash_separable(t.command),
        !has_interval(t.command),
    ensures
        answers_fit(v, t),
{
}

/// The three answers for a new segment, none of the first two empty, leave a
/// state that a file can hold if and only if the name is one word and the command
/// is on one line and is told from the interval and from the parts that a new
/// segment does not have.
pub proof fn law_new_segment_persists(
    a: AppView,
    name: Seq<char>,
    command: Seq<char>,
    interval: Seq<char>,
)
    requires
        persists(a),
        trim(name).len() > 0,
        trim(command).len() > 0,
    ensures
        ({
            let second = AddView::Command(trim(name));
            let third = AddView::Interval(trim(name), trim(command));
            &&& add_next(AddView::Name, name) == Some(second)
            &&& add_next(second, command) == Some(third)
            &&& added(a, AddView::Name, name) == a
            &&& added(a, second, command) == a
            &&& persists(added(a, third, interval)) <==> {
                &&& one_word(trim(name))
                &&& no_feed(trim(command))
                &&& stands_apart(
                    trim(command),
                    0,
                    Seq::empty(),
                    number_or(trim(interval), 0),
                )
            }
        }),
{
    let w = new_segment(trim(name), trim(command), trim(interval));
    let b = added(a, AddView::Interval(trim(name), trim(command)), interval);
    let n = a.segments.len() as int;
    lemma_trimmed(command);
    law_segment_persists(w);
    assert(b.segments[n] == w);
    if segment_persists(w) {
        assert forall|k: int| 0 <= k < b.segments.len() implies {
            &&& segment_persists(#[trigger] b.segments[k])
            &&& kept(unmarked_lines(b.segments[k].comments_above))
            &&& kept(tail_lines(b.segments[k].comments_above))
        } by {
            if k < n {
                assert(segment_persists(a.segments[k]));
            }
        }
    }
}

} // verus!
