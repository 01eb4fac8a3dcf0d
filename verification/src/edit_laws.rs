//! What the answers to the prompts do: to the setting or segment that was asked
//! about, and to nothing else.

use vstd::prelude::*;

use crate::app::AppView;
use crate::basic_laws::{law_color_needs_digits, law_decimal};
use crate::color::{color_of, is_canonical, law_canonical_code, law_color_code};
use crate::config_laws::persists;
use crate::edit::{
    add_next, add_prompt, added, global_edited, global_prompt, is_yes, key_view, prompt_views,
    segment_edited, segment_prompts, selected_edited, AddStep, AddView, AnswersView, Prompt,
    SegmentAnswers,
};
use crate::globals::{key_at, key_name, number_of, text_of, GlobalKey};
use crate::number::{decimal, law_number_of_decimal, number};
use crate::segment::SegmentView;
use crate::setting_laws::{is_readable, is_what_it_says, law_given_value};
use crate::text::{is_white, lemma_end_run_is, lemma_run_is, trim, white};

verus! {

/// What prompts, answers and steps hold is what their fields hold; of answers
/// counts what is left without white space around.
pub proof fn law_prompt_views(p: Prompt, ps: Seq<Prompt>, s: SegmentAnswers, step: AddStep)
    ensures
        prompt_views(ps).len() == ps.len(),
        forall|i: int| 0 <= i < ps.len() ==> #[trigger] prompt_views(ps)[i] == ps[i]@,
        p@.label == p.label@ && p@.initial == p.initial@,
        s@.name == trim(s.name@),
        s@.gap == trim(s.gap@),
        s@.color == trim(s.color@),
        s@.command == trim(s.command@),
        s@.interval == trim(s.interval@),
        match step {
            AddStep::Name => step@ == AddView::Name,
            AddStep::Command(n) => step@ == AddView::Command(n@),
            AddStep::Interval(n, c) => step@ == AddView::Interval(n@, c@),
        },
{
}

/// The answer for a setting gives it what it says, if it is not empty and the
/// setting can take it; otherwise nothing changes. No other setting changes, and
/// there is something to save only after an answer that counts.
pub proof fn law_setting_answer(a: AppView, k: GlobalKey, answer: Seq<char>, other: GlobalKey)
    requires
        key_at(a.item_index as int) == Some(k),
    ensures
        ({
            let t = trim(answer);
            let b = global_edited(a, answer);
            let counts = t.len() > 0 && is_readable(k, t);
            &&& counts ==> is_what_it_says(b.globals, k, t) && b.dirty
            &&& !counts ==> b == a
            &&& other != k ==> text_of(b.globals, other) == text_of(a.globals, other)
            &&& b.segments == a.segments && b.leading_comments == a.leading_comments
            &&& b.cat_index == a.cat_index && b.item_index == a.item_index
        }),
{
    law_given_value(a.globals, k, trim(answer), other);
}

/// The question for a setting names it and shows what it is; without a setting at
/// the place there is none, and no answer changes anything.
pub proof fn law_setting_question(a: AppView, answer: Seq<char>)
    ensures
        match key_at(a.item_index as int) {
            Some(k) => {
                let p = global_prompt(a);
                &&& p is Some
                &&& p->0.label == key_name(k) + seq![':', ' ']
                &&& p->0.initial == text_of(a.globals, k)
            },
            None => global_prompt(a) is None && global_edited(a, answer) == a,
        },
{
    reveal_strlit(": ");
    assert(": "@ =~= seq![':', ' ']);
}

/// Whether a text has no white space around it.
pub open spec fn is_bare(s: Seq<char>) -> bool {
    trim(s) == s
}

/// Answering the question for a setting with what it shows keeps all settings.
pub proof fn law_setting_answer_as_shown(a: AppView)
    requires
        persists(a),
    ensures
        global_prompt(a) is Some ==> global_edited(a, global_prompt(a)->0.initial).globals
            == a.globals,
{
    if let Some(k) = key_at(a.item_index as int) {
        let t = text_of(a.globals, k);
        lemma_bare_decimal(number_of(a.globals, k));
        law_number_of_decimal(number_of(a.globals, k));
        law_canonical_code(a.globals.bg);
        law_canonical_code(a.globals.fg);
        lemma_bare(a.globals.bg);
        lemma_bare(a.globals.fg);
        lemma_bare(a.globals.font);
        assert(global_edited(a, t).globals =~= a.globals);
    }
}

proof fn lemma_bare(s: Seq<char>)
    requires
        s.len() > 0 ==> !is_white(s[0]) && !is_white(s.last()),
    ensures
        is_bare(s),
{
    lemma_run_is(s, white(), 0);
    assert(s.skip(0) =~= s);
    lemma_end_run_is(s, white(), 0);
    assert(s.take(s.len() as int) =~= s);
}

proof fn lemma_bare_decimal(n: u32)
    ensures
        is_bare(decimal(n as nat)),
        decimal(n as nat).len() > 0,
{
    law_decimal(n as nat);
    let d = decimal(n as nat);
    assert('0' <= d[0] <= '9');
    assert('0' <= d[d.len() - 1] <= '9');
    lemma_bare(d);
}

/// The colour after its answer: the one that the answer denotes, if it denotes
/// one, whatever the colour was; none after an empty answer; otherwise the one
/// that it was.
pub proof fn law_color_answer(v: SegmentView, t: AnswersView)
    ensures
        ({
            let c = segment_edited(v, t).color;
            &&& color_of(t.color) is Some ==> color_of(c) == color_of(t.color)
            &&& color_of(t.color) is Some ==> is_canonical(c) || (c == v.color && c == t.color)
            &&& t.color.len() == 0 ==> c.len() == 0
            &&& color_of(t.color) is None && t.color.len() > 0 ==> c == v.color
        }),
{
    if let Some(c) = color_of(t.color) {
        law_color_code(c);
    }
    if t.color.len() == 0 {
        lemma_bare(t.color);
        assert(color_of(t.color) is None) by {
            if color_of(t.color) is Some {
                law_color_needs_digits(t.color);
            }
        }
        if v.color.len() == 0 {
            assert(t.color =~= v.color);
        }
    }
}

/// Each other answer changes its own part: a name or a command that is not empty
/// becomes the name or the command, a number the gap or the interval; any other
/// answer keeps the part. Whether the segment is on, and its lines, are not asked.
pub proof fn law_segment_answers(v: SegmentView, t: AnswersView)
    ensures
        ({
            let w = segment_edited(v, t);
            &&& t.name.len() > 0 ==> w.name == t.name
            &&& t.name.len() == 0 ==> w.name == v.name
            &&& number(t.gap) is Some ==> w.gap_override == number(t.gap)->0
            &&& number(t.gap) is None ==> w.gap_override == v.gap_override
            &&& t.command.len() > 0 ==> w.command == t.command
            &&& t.command.len() == 0 ==> w.command == v.command
            &&& number(t.interval) is Some ==> w.interval == number(t.interval)->0
            &&& number(t.interval) is None ==> w.interval == v.interval
            &&& w.enabled == v.enabled && w.comments_above == v.comments_above
        }),
{
}

/// The answers for a segment change the selected one and no other, and nothing
/// else of the state. There is something to save if there was, or if an answer
/// counts: a name, a command, a number, or another colour.
pub proof fn law_selected_answers(a: AppView, t: AnswersView, k: int)
    ensures
        ({
            let b = selected_edited(a, t);
            let i = a.item_index as int;
            let n = a.segments.len();
            &&& b.segments.len() == n
            &&& i < n ==> b.segments[i] == segment_edited(a.segments[i], t)
            &&& 0 <= k < n && k != i ==> b.segments[k] == a.segments[k]
            &&& b.globals == a.globals && b.leading_comments == a.leading_comments
            &&& b.cat_index == a.cat_index && b.item_index == a.item_index
            &&& i < n ==> (b.dirty <==> {
                ||| a.dirty
                ||| t.name.len() > 0 || t.command.len() > 0
                ||| number(t.gap) is Some || number(t.interval) is Some
                ||| t.color != a.segments[i].color && (t.color.len() == 0 || color_of(t.color)
                    is Some)
            })
            &&& i >= n ==> b == a
        }),
{
}

/// The questions for a segment show its parts, and answering them as they are
/// shown keeps the segment.
pub proof fn law_segment_questions(v: SegmentView, t: AnswersView)
    requires
        v.color.len() == 0 || is_canonical(v.color),
    ensures
        ({
            let p = segment_prompts(v);
            &&& p.len() == 5
            &&& p[0].initial == v.name && p[2].initial == v.color && p[3].initial == v.command
            &&& p[1].initial == decimal(v.gap_override as nat)
            &&& p[4].initial == decimal(v.interval as nat)
            &&& p[0].label == "Name: "@
            &&& p[1].label == "Extra gap (px, 0 for none): "@
            &&& p[2].label == "Color (#RRGGBB, blank to use default fg): "@
            &&& p[3].label == "Command (full, with args): "@
            &&& p[4].label == "Interval seconds (0 = static): "@
            &&& t.name == p[0].initial && t.gap == p[1].initial && t.color == p[2].initial
                && t.command == p[3].initial && t.interval == p[4].initial ==> segment_edited(v, t)
                == v
        }),
{
    law_number_of_decimal(v.gap_override);
    law_number_of_decimal(v.interval);
    let p = segment_prompts(v);
    if t.name == p[0].initial && t.gap == p[1].initial && t.color == p[2].initial && t.command
        == p[3].initial && t.interval == p[4].initial {
        assert(segment_edited(v, t) =~= v);
    }
}

/// A new segment comes to be in three steps. The first two take a name and a
/// command that are not empty, and end the making otherwise; neither changes the
/// state.
pub proof fn law_new_segment_steps(a: AppView, name: Seq<char>, command: Seq<char>)
    ensures
        trim(name).len() > 0 ==> add_next(AddView::Name, name) == Some(
            AddView::Command(trim(name)),
        ),
        trim(name).len() == 0 ==> add_next(AddView::Name, name) is None,
        trim(command).len() > 0 ==> add_next(AddView::Command(name), command) == Some(
            AddView::Interval(name, trim(command)),
        ),
        trim(command).len() == 0 ==> add_next(AddView::Command(name), command) is None,
        add_next(AddView::Interval(name, command), command) is None,
        added(a, AddView::Name, name) == a,
        added(a, AddView::Command(name), command) == a,
        add_prompt(AddView::Name).label == "New segment name: "@,
        add_prompt(AddView::Command(name)).label == "Command: "@,
        add_prompt(AddView::Interval(name, command)).label == "Interval (0 = static): "@,
        add_prompt(AddView::Name).initial.len() == 0,
        add_prompt(AddView::Command(name)).initial.len() == 0,
        add_prompt(AddView::Interval(name, command)).initial == "0"@,
{
}

/// The last step appends the segment and selects it: switched on, with the name,
/// the command and the interval that were answered, zero if that is no number,
/// and without gap, colour and lines. All other segments stay where they are.
pub proof fn law_new_segment(
    a: AppView,
    name: Seq<char>,
    command: Seq<char>,
    answer: Seq<char>,
    k: int,
)
    ensures
        ({
            let b = added(a, AddView::Interval(name, command), answer);
            let n = a.segments.len() as int;
            let v = b.segments[n];
            &&& b.segments.len() == n + 1
            &&& 0 <= k < n ==> b.segments[k] == a.segments[k]
            &&& v.enabled && v.name == name && v.command == command
            &&& v.gap_override == 0 && v.color.len() == 0 && v.comments_above.len() == 0
            &&& number(trim(answer)) is Some ==> v.interval == number(trim(answer))->0
            &&& number(trim(answer)) is None ==> v.interval == 0
            &&& b.item_index == n && b.dirty
            &&& b.globals == a.globals && b.leading_comments == a.leading_comments
            &&& b.cat_index == a.cat_index
        }),
{
}

/// Only the keys `y` and `Y` say yes.
pub proof fn law_yes(key: Option<&str>)
    ensures
        is_yes(key_view(key)) <==> key is Some && (key->0@ == seq!['y'] || key->0@ == seq!['Y']),
{
    reveal_strlit("y");
    reveal_strlit("Y");
    assert("y"@ =~= seq!['y']);
    assert("Y"@ =~= seq!['Y']);
}

} // verus!
