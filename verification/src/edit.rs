//! Editing by prompts: what is asked, and what the answers change.

use vstd::prelude::*;
use vstd::string::StringExecFns;

use crate::app::{app_wf, deleted, segment_views, App, AppView};
use crate::color::{is_separable, law_normal_form_is_stable, normal_form, normalize_hex, separable};
use crate::globals::{
    is_color_key, key_at, key_name, law_with_value_keeps_wf, text_of, with_value, GlobalKey,
};
use crate::number::{decimal, decimal_of, number, read_number};
use crate::segment::{Segment, SegmentView};
use crate::text::{chars_of, is_text, string_of, strip, trim};

verus! {

/// A question on the status line: what is asked, and the text to begin with.
pub struct Prompt {
    pub label: String,
    pub initial: String,
}

/// What a [`Prompt`] holds.
#[verifier::ext_equal]
pub struct PromptView {
    pub label: Seq<char>,
    pub initial: Seq<char>,
}

impl View for Prompt {
    type V = PromptView;

    open spec fn view(&self) -> PromptView {
        PromptView { label: self.label@, initial: self.initial@ }
    }
}

impl Prompt {
    /// A prompt with the given texts.
    fn with(label: &str, initial: String) -> (p: Prompt)
        ensures
            p@ == (PromptView { label: label@, initial: initial@ }),
    {
        Prompt { label: label.to_owned(), initial }
    }
}

/// Whether a setting takes a text: a font any, a colour a colour code, the
/// others a number.
pub open spec fn takes(k: GlobalKey, t: Seq<char>) -> bool {
    if k == GlobalKey::Font {
        true
    } else if is_color_key(k) {
        normal_form(t) is Some
    } else {
        number(t) is Some
    }
}

/// The question for the selected setting.
pub open spec fn global_prompt(a: AppView) -> Option<PromptView> {
    match key_at(a.item_index as int) {
        Some(k) => Some(
            PromptView { label: key_name(k) + ": "@, initial: text_of(a.globals, k) },
        ),
        None => None,
    }
}

/// The state after the answer for the selected setting. An empty answer and one
/// that the setting does not take change nothing.
pub open spec fn global_edited(a: AppView, answer: Seq<char>) -> AppView {
    let t = trim(answer);
    match key_at(a.item_index as int) {
        Some(k) if t.len() > 0 && takes(k, t) => AppView {
            globals: with_value(a.globals, k, t),
            dirty: true,
            ..a
        },
        _ => a,
    }
}

/// Whether the answer for the selected setting can be looked at, if it is a colour.
pub open spec fn answer_separable(a: AppView, answer: Seq<char>) -> bool {
    match key_at(a.item_index as int) {
        Some(k) => is_color_key(k) ==> separable(trim(answer)),
        None => true,
    }
}

/// The answers for a segment.
pub struct SegmentAnswers {
    pub name: String,
    pub gap: String,
    pub color: String,
    pub command: String,
    pub interval: String,
}

/// What [`SegmentAnswers`] hold, without white space around it.
#[verifier::ext_equal]
pub struct AnswersView {
    pub name: Seq<char>,
    pub gap: Seq<char>,
    pub color: Seq<char>,
    pub command: Seq<char>,
    pub interval: Seq<char>,
}

impl View for SegmentAnswers {
    type V = AnswersView;

    open spec fn view(&self) -> AnswersView {
        AnswersView {
            name: trim(self.name@),
            gap: trim(self.gap@),
            color: trim(self.color@),
            command: trim(self.command@),
            interval: trim(self.interval@),
        }
    }
}

/// A text that an empty answer keeps.
pub open spec fn text_or(answer: Seq<char>, current: Seq<char>) -> Seq<char> {
    if answer.len() > 0 {
        answer
    } else {
        current
    }
}

/// A number that an answer which is no number keeps.
pub open spec fn number_or(answer: Seq<char>, current: u32) -> u32 {
    match number(answer) {
        Some(n) => n,
        None => current,
    }
}

/// Whether an answer changes the colour: one that differs from it and is empty
/// or a colour code.
pub open spec fn recolors(answer: Seq<char>, current: Seq<char>) -> bool {
    answer != current && (answer.len() == 0 || normal_form(answer) is Some)
}

/// The colour after the answer. An empty answer clears it.
pub open spec fn color_or(answer: Seq<char>, current: Seq<char>) -> Seq<char> {
    if recolors(answer, current) {
        if answer.len() == 0 {
            Seq::empty()
        } else {
            normal_form(answer)->0
        }
    } else {
        current
    }
}

/// A segment after the answers for it.
pub open spec fn segment_edited(v: SegmentView, t: AnswersView) -> SegmentView {
    SegmentView {
        name: text_or(t.name, v.name),
        gap_override: number_or(t.gap, v.gap_override),
        color: color_or(t.color, v.color),
        command: text_or(t.command, v.command),
        interval: number_or(t.interval, v.interval),
        ..v
    }
}

/// Whether some answer counts.
pub open spec fn some_answer(v: SegmentView, t: AnswersView) -> bool {
    ||| t.name.len() > 0
    ||| number(t.gap) is Some
    ||| recolors(t.color, v.color)
    ||| t.command.len() > 0
    ||| number(t.interval) is Some
}

/// The state after the answers for the selected segment.
pub open spec fn selected_edited(a: AppView, t: AnswersView) -> AppView {
    let i = a.item_index as int;
    if i < a.segments.len() {
        AppView {
            segments: a.segments.update(i, segment_edited(a.segments[i], t)),
            dirty: a.dirty || some_answer(a.segments[i], t),
            ..a
        }
    } else {
        a
    }
}

/// Whether the answer for the colour can be looked at, if it has to be.
pub open spec fn answers_separable(a: AppView, t: AnswersView) -> bool {
    let i = a.item_index as int;
    i < a.segments.len() && t.color != a.segments[i].color && t.color.len() > 0 ==> separable(
        t.color,
    )
}

/// The questions for a segment, in their order.
pub open spec fn segment_prompts(v: SegmentView) -> Seq<PromptView> {
    seq![
        PromptView { label: "Name: "@, initial: v.name },
        PromptView {
            label: "Extra gap (px, 0 for none): "@,
            initial: decimal(v.gap_override as nat),
        },
        PromptView { label: "Color (#RRGGBB, blank to use default fg): "@, initial: v.color },
        PromptView { label: "Command (full, with args): "@, initial: v.command },
        PromptView {
            label: "Interval seconds (0 = static): "@,
            initial: decimal(v.interval as nat),
        },
    ]
}

/// What a list of prompts holds.
pub open spec fn prompt_views(v: Seq<Prompt>) -> Seq<PromptView> {
    Seq::new(v.len(), |i: int| v[i]@)
}

/// How far the making of a new segment has come: the next question and the
/// answers so far.
pub enum AddStep {
    Name,
    Command(String),
    Interval(String, String),
}

/// What an [`AddStep`] holds.
pub enum AddView {
    Name,
    Command(Seq<char>),
    Interval(Seq<char>, Seq<char>),
}

impl View for AddStep {
    type V = AddView;

    open spec fn view(&self) -> AddView {
        match *self {
            AddStep::Name => AddView::Name,
            AddStep::Command(name) => AddView::Command(name@),
            AddStep::Interval(name, command) => AddView::Interval(name@, command@),
        }
    }
}

/// The question of a step.
pub open spec fn add_prompt(step: AddView) -> PromptView {
    match step {
        AddView::Name => PromptView { label: "New segment name: "@, initial: Seq::empty() },
        AddView::Command(_) => PromptView { label: "Command: "@, initial: Seq::empty() },
        AddView::Interval(_, _) => PromptView { label: "Interval (0 = static): "@, initial: "0"@ },
    }
}

/// The step after an answer. An empty name or command ends the making.
pub open spec fn add_next(step: AddView, answer: Seq<char>) -> Option<AddView> {
    let t = trim(answer);
    match step {
        AddView::Name if t.len() > 0 => Some(AddView::Command(t)),
        AddView::Command(name) if t.len() > 0 => Some(AddView::Interval(name, t)),
        _ => None,
    }
}

/// A new segment.
pub open spec fn new_segment(
    name: Seq<char>,
    command: Seq<char>,
    interval: Seq<char>,
) -> SegmentView {
    SegmentView {
        enabled: true,
        name,
        gap_override: 0,
        color: Seq::empty(),
        command,
        interval: number_or(interval, 0),
        comments_above: Seq::empty(),
    }
}

/// The state after an answer for a new segment: the last answer appends it and
/// selects it.
pub open spec fn added(a: AppView, step: AddView, answer: Seq<char>) -> AppView {
    match step {
        AddView::Interval(name, command) => AppView {
            segments: a.segments.push(new_segment(name, command, trim(answer))),
            item_index: a.segments.len(),
            dirty: true,
            ..a
        },
        _ => a,
    }
}

/// Whether a key says yes.
pub open spec fn is_yes(key: Option<Seq<char>>) -> bool {
    key == Some("y"@) || key == Some("Y"@)
}

/// The characters of a key that may be missing.
pub open spec fn key_view(key: Option<&str>) -> Option<Seq<char>> {
    match key {
        Some(k) => Some(k@),
        None => None,
    }
}

/// Whether a key says yes.
pub fn says_yes(key: Option<&str>) -> (b: bool)
    ensures
        b == is_yes(key_view(key)),
{
    match key {
        Some(k) => {
            let cs = chars_of(k);
            is_text(cs.as_slice(), "y") || is_text(cs.as_slice(), "Y")
        },
        None => false,
    }
}

/// What a file would hold of a state changes only together with the flag that
/// there is something to save, whatever is answered.
pub proof fn law_answers_are_noted(
    a: AppView,
    answer: Seq<char>,
    answers: AnswersView,
    step: AddView,
)
    ensures
        !global_edited(a, answer).dirty ==> global_edited(a, answer) == a,
        !selected_edited(a, answers).dirty ==> selected_edited(a, answers) == a,
        !added(a, step, answer).dirty ==> added(a, step, answer) == a,
        !deleted(a).dirty ==> deleted(a) == a,
{
    let i = a.item_index as int;
    if i < a.segments.len() && !some_answer(a.segments[i], answers) {
        assert(segment_edited(a.segments[i], answers) =~= a.segments[i]);
        assert(a.segments.update(i, a.segments[i]) =~= a.segments);
    }
}

/// A question for a new segment.
pub fn add_question(step: &AddStep) -> (p: Prompt)
    ensures
        p@ == add_prompt(step@),
{
    match step {
        AddStep::Name => Prompt::with("New segment name: ", String::new()),
        AddStep::Command(_) => Prompt::with("Command: ", String::new()),
        AddStep::Interval(_, _) => Prompt::with("Interval (0 = static): ", "0".to_owned()),
    }
}

impl App {
    /// An answer as it counts: without white space around it.
    pub fn ask(answer: &str) -> (r: String)
        ensures
            r@ == trim(answer@),
    {
        let cs = chars_of(answer);
        string_of(strip(cs.as_slice()))
    }

    /// The question for the selected setting, `None` if there is none.
    pub fn edit_global_prompt(&self) -> (p: Option<Prompt>)
        ensures
            p is Some <==> global_prompt(self@) is Some,
            p is Some ==> p->0@ == global_prompt(self@)->0,
    {
        match GlobalKey::at(self.item_index) {
            Some(k) => {
                let mut label = k.name().to_owned();
                label.append(": ");
                Some(Prompt { label, initial: self.globals.text(k) })
            },
            None => None,
        }
    }

    /// Decides whether the answer for the selected setting can be looked at,
    /// which [`App::edit_global`] asks of it.
    pub fn is_answer_separable(&self, answer: &str) -> (b: bool)
        ensures
            b == answer_separable(self@, answer@),
    {
        match GlobalKey::at(self.item_index) {
            Some(GlobalKey::Bg) | Some(GlobalKey::Fg) => {
                let t = App::ask(answer);
                is_separable(t.as_str())
            },
            _ => true,
        }
    }

    /// Takes the answer for the selected setting.
    pub fn edit_global(&mut self, answer: &str)
        requires
            answer_separable(old(self)@, answer@),
        ensures
            final(self)@ == global_edited(old(self)@, answer@),
            app_wf(old(self)@) ==> app_wf(final(self)@),
    {
        let k = match GlobalKey::at(self.item_index) {
            Some(k) => k,
            None => return,
        };
        let cs = chars_of(answer);
        let t = strip(cs.as_slice());
        if t.len() == 0 {
            return;
        }
        let taken: bool = match k {
            GlobalKey::Font => true,
            GlobalKey::Bg | GlobalKey::Fg => {
                let code = string_of(t);
                normalize_hex(code.as_str()).is_some()
            },
            _ => read_number(t).is_some(),
        };
        if taken {
            self.globals.set(k, t);
            self.dirty = true;
            proof {
                if app_wf(old(self)@) {
                    law_with_value_keeps_wf(old(self)@.globals, k, t@);
                }
            }
        }
    }

    /// The questions for the selected segment, `None` if there is none.
    pub fn edit_segment_prompts(&self) -> (p: Option<Vec<Prompt>>)
        ensures
            p is Some <==> self@.item_index < self@.segments.len(),
            p is Some ==> prompt_views(p->0@) == segment_prompts(
                self@.segments[self@.item_index as int],
            ),
    {
        if self.item_index >= self.segments.len() {
            return None;
        }
        let s = &self.segments[self.item_index];
        let mut v: Vec<Prompt> = Vec::new();
        v.push(Prompt::with("Name: ", s.name.clone()));
        v.push(Prompt::with("Extra gap (px, 0 for none): ", decimal_of(s.gap_override)));
        v.push(Prompt::with("Color (#RRGGBB, blank to use default fg): ", s.color.clone()));
        v.push(Prompt::with("Command (full, with args): ", s.command.clone()));
        v.push(Prompt::with("Interval seconds (0 = static): ", decimal_of(s.interval)));
        assert(prompt_views(v@) =~= segment_prompts(s@));
        Some(v)
    }

    /// Decides whether the answer for the colour can be looked at, which
    /// [`App::edit_segment`] asks of it.
    pub fn are_answers_separable(&self, answers: &SegmentAnswers) -> (b: bool)
        ensures
            b == answers_separable(self@, answers@),
    {
        if self.item_index >= self.segments.len() {
            return true;
        }
        let color = App::ask(answers.color.as_str());
        if color.as_str().is_empty() || color == self.segments[self.item_index].color {
            true
        } else {
            is_separable(color.as_str())
        }
    }

    /// Takes the answers for the selected segment.
    pub fn edit_segment(&mut self, answers: &SegmentAnswers)
        requires
            answers_separable(old(self)@, answers@),
        ensures
            final(self)@ == selected_edited(old(self)@, answers@),
            app_wf(old(self)@) ==> app_wf(final(self)@),
    {
        let i: usize = self.item_index;
        if i >= self.segments.len() {
            return;
        }
        let ghost v = self@.segments[i as int];
        let mut seg = self.segments.remove(i);
        let mut changed: bool = false;
        let name = App::ask(answers.name.as_str());
        if !name.as_str().is_empty() {
            seg.name = name;
            changed = true;
        }
        let gap = chars_of(answers.gap.as_str());
        if let Some(n) = read_number(strip(gap.as_slice())) {
            seg.gap_override = n;
            changed = true;
        }
        let color = App::ask(answers.color.as_str());
        if color != seg.color {
            if color.as_str().is_empty() {
                seg.color = String::new();
                changed = true;
            } else if let Some(code) = normalize_hex(color.as_str()) {
                seg.color = code;
                changed = true;
            }
        }
        let command = App::ask(answers.command.as_str());
        if !command.as_str().is_empty() {
            seg.command = command;
            changed = true;
        }
        let interval = chars_of(answers.interval.as_str());
        if let Some(n) = read_number(strip(interval.as_slice())) {
            seg.interval = n;
            changed = true;
        }
        assert(seg@ =~= segment_edited(v, answers@));
        self.segments.insert(i, seg);
        if changed {
            self.dirty = true;
        }
        proof {
            assert(self@ =~= selected_edited(old(self)@, answers@));
            if normal_form(answers@.color) is Some {
                law_normal_form_is_stable(answers@.color);
            }
        }
    }

    /// The first step to a new segment, `None` outside the list of segments.
    pub fn add_segment_start(&self) -> (step: Option<AddStep>)
        ensures
            step is Some <==> self@.cat_index == 1,
            step is Some ==> step->0@ == AddView::Name,
    {
        if self.cat_index != 1 {
            None
        } else {
            Some(AddStep::Name)
        }
    }

    /// Takes an answer for a new segment. Returns the next step, if there is one.
    pub fn add_segment(&mut self, step: AddStep, answer: &str) -> (next: Option<AddStep>)
        ensures
            final(self)@ == added(old(self)@, step@, answer@),
            next is Some <==> add_next(step@, answer@) is Some,
            next is Some ==> next->0@ == add_next(step@, answer@)->0,
            app_wf(old(self)@) && old(self)@.cat_index == 1 ==> app_wf(final(self)@),
    {
        let t = App::ask(answer);
        match step {
            AddStep::Name => if t.as_str().is_empty() {
                None
            } else {
                Some(AddStep::Command(t))
            },
            AddStep::Command(name) => if t.as_str().is_empty() {
                None
            } else {
                Some(AddStep::Interval(name, t))
            },
            AddStep::Interval(name, command) => {
                let cs = chars_of(t.as_str());
                let interval: u32 = match read_number(cs.as_slice()) {
                    Some(n) => n,
                    None => 0,
                };
                let seg = Segment {
                    enabled: true,
                    name,
                    gap_override: 0,
                    color: String::new(),
                    command,
                    interval,
                    comments_above: Vec::new(),
                };
                assert(seg@ =~= new_segment(name@, command@, t@));
                self.item_index = self.segments.len();
                self.segments.push(seg);
                self.dirty = true;
                assert(self@ =~= added(old(self)@, step@, answer@));
                None
            },
        }
    }

    /// Removes the selected segment if the key says yes.
    pub fn delete_segment(&mut self, key: Option<&str>)
        ensures
            final(self)@ == if is_yes(key_view(key)) {
                deleted(old(self)@)
            } else {
                old(self)@
            },
            app_wf(old(self)@) ==> app_wf(final(self)@),
    {
        if self.cat_index != 1 || self.item_index >= self.segments.len() {
            return;
        }
        if !says_yes(key) {
            return;
        }
        let i: usize = self.item_index;
        self.segments.remove(i);
        assert(segment_views(self.segments@) =~= old(self)@.segments.remove(i as int));
        self.clamp_item_index();
        self.dirty = true;
    }
}

} // verus!
