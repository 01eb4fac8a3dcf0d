//! The state of the editor and the steps that change it.

use vstd::prelude::*;

use crate::color::is_canonical;
use crate::globals::{
    default_globals, globals_wf, key_at, law_default_globals_wf, number_of, text_of, with_number,
    GlobalKey, Globals, GlobalsView, KEY_COUNT,
};
use crate::segment::{Segment, SegmentView};
use crate::text::texts;

verus! {

/// The state of the editor.
pub struct App {
    /// The category on the left: 0 for the settings of the bar, 1 for the segments.
    pub cat_index: usize,
    /// The selected setting or segment.
    pub item_index: usize,
    pub globals: Globals,
    pub segments: Vec<Segment>,
    /// Lines of the file that stand before its first setting or segment. In a file
    /// without segments, all lines that are kept.
    pub leading_comments: Vec<String>,
    /// Whether there is something to save.
    pub dirty: bool,
}

/// What an [`App`] holds.
#[verifier::ext_equal]
pub struct AppView {
    pub cat_index: nat,
    pub item_index: nat,
    pub globals: GlobalsView,
    pub segments: Seq<SegmentView>,
    pub leading_comments: Seq<Seq<char>>,
    pub dirty: bool,
}

/// What a list of segments holds.
pub open spec fn segment_views(v: Seq<Segment>) -> Seq<SegmentView> {
    Seq::new(v.len(), |i: int| v[i]@)
}

impl View for App {
    type V = AppView;

    open spec fn view(&self) -> AppView {
        AppView {
            cat_index: self.cat_index as nat,
            item_index: self.item_index as nat,
            globals: self.globals@,
            segments: segment_views(self.segments@),
            leading_comments: texts(self.leading_comments@),
            dirty: self.dirty,
        }
    }
}

/// The number of items in the selected category.
pub open spec fn items_len(a: AppView) -> nat {
    if a.cat_index == 0 {
        KEY_COUNT as nat
    } else {
        a.segments.len()
    }
}

/// Whether the colour of a segment is absent or canonical.
pub open spec fn segment_wf(v: SegmentView) -> bool {
    v.color.len() == 0 || is_canonical(v.color)
}

/// The states of the editor. One of the two categories is selected, and one of
/// its items if it has any; all colours are canonical.
pub open spec fn app_wf(a: AppView) -> bool {
    &&& a.cat_index < 2
    &&& a.item_index < items_len(a) || a.item_index == 0
    &&& globals_wf(a.globals)
    &&& forall|i: int| 0 <= i < a.segments.len() ==> segment_wf(#[trigger] a.segments[i])
}

/// The state without a file.
pub open spec fn blank_app() -> AppView {
    AppView {
        cat_index: 0,
        item_index: 0,
        globals: default_globals(),
        segments: Seq::empty(),
        leading_comments: Seq::empty(),
        dirty: false,
    }
}

/// The name of a category.
pub open spec fn category_text(i: int) -> Seq<char> {
    if i == 0 {
        "Bar globals"@
    } else {
        "Segments"@
    }
}

/// The state with the selection inside the list.
pub open spec fn clamped(a: AppView) -> AppView {
    if a.item_index >= items_len(a) {
        AppView {
            item_index: if items_len(a) > 0 {
                (items_len(a) - 1) as nat
            } else {
                0
            },
            ..a
        }
    } else {
        a
    }
}

/// The state with the next item selected.
pub open spec fn moved_down(a: AppView) -> AppView {
    if a.item_index + 1 < items_len(a) {
        AppView { item_index: a.item_index + 1, ..a }
    } else {
        a
    }
}

/// The state with the previous item selected.
pub open spec fn moved_up(a: AppView) -> AppView {
    if a.item_index > 0 {
        AppView { item_index: (a.item_index - 1) as nat, ..a }
    } else {
        a
    }
}

/// The state with the next category selected.
pub open spec fn in_next_category(a: AppView) -> AppView {
    if a.cat_index + 1 < 2 {
        AppView { cat_index: a.cat_index + 1, item_index: 0, ..a }
    } else {
        a
    }
}

/// The state with the previous category selected.
pub open spec fn in_prev_category(a: AppView) -> AppView {
    if a.cat_index > 0 {
        AppView { cat_index: (a.cat_index - 1) as nat, item_index: 0, ..a }
    } else {
        a
    }
}

/// The largest value that stepping gives a setting, `None` for a setting that
/// is not stepped.
pub open spec fn step_limit(k: GlobalKey) -> Option<u32> {
    match k {
        GlobalKey::Height | GlobalKey::TopOffset | GlobalKey::Gap => Some(200),
        GlobalKey::CharWidth | GlobalKey::Baseline => Some(64),
        _ => None,
    }
}

/// `v` stepped by `d`, kept between 0 and `max`.
pub open spec fn bumped(v: u32, d: int, max: u32) -> u32 {
    if v + d < 0 {
        0
    } else if v + d > max {
        max
    } else {
        (v + d) as u32
    }
}

/// The state with the selected setting stepped by `delta`.
pub open spec fn adjusted(a: AppView, delta: int) -> AppView {
    match key_at(a.item_index as int) {
        Some(k) if a.cat_index == 0 && step_limit(k) is Some => AppView {
            globals: with_number(
                a.globals,
                k,
                bumped(number_of(a.globals, k), delta, step_limit(k)->0),
            ),
            dirty: true,
            ..a
        },
        _ => a,
    }
}

/// Whether a segment is selected.
pub open spec fn on_segment(a: AppView) -> bool {
    a.cat_index == 1 && a.item_index < a.segments.len()
}

/// The state with the selected segment switched on or off.
pub open spec fn toggled(a: AppView) -> AppView {
    if on_segment(a) {
        let i = a.item_index as int;
        let seg = a.segments[i];
        AppView {
            segments: a.segments.update(i, SegmentView { enabled: !seg.enabled, ..seg }),
            dirty: true,
            ..a
        }
    } else {
        a
    }
}

/// A list with the elements at `i` and `j` exchanged.
pub open spec fn exchanged(s: Seq<SegmentView>, i: int, j: int) -> Seq<SegmentView> {
    s.update(i, s[j]).update(j, s[i])
}

/// The state with the selected segment one place further down.
pub open spec fn segment_moved_down(a: AppView) -> AppView {
    if a.cat_index == 1 && a.item_index + 1 < a.segments.len() {
        AppView {
            segments: exchanged(a.segments, a.item_index as int, a.item_index as int + 1),
            item_index: a.item_index + 1,
            dirty: true,
            ..a
        }
    } else {
        a
    }
}

/// The state with the selected segment one place further up.
pub open spec fn segment_moved_up(a: AppView) -> AppView {
    if on_segment(a) && a.item_index > 0 {
        AppView {
            segments: exchanged(a.segments, a.item_index as int, a.item_index - 1),
            item_index: (a.item_index - 1) as nat,
            dirty: true,
            ..a
        }
    } else {
        a
    }
}

/// The state without the selected segment.
pub open spec fn deleted(a: AppView) -> AppView {
    if on_segment(a) {
        let b = AppView { segments: a.segments.remove(a.item_index as int), ..a };
        AppView { dirty: true, ..clamped(b) }
    } else {
        a
    }
}

/// `v` stepped by `d`, kept between 0 and `max`.
fn bump(v: u32, d: i32, max: u32) -> (r: u32)
    ensures
        r == bumped(v, d as int, max),
{
    let n: i64 = v as i64 + d as i64;
    if n < 0 {
        0
    } else if n > max as i64 {
        max
    } else {
        n as u32
    }
}

impl App {
    /// The state without a file.
    pub fn blank() -> (a: App)
        ensures
            a@ == blank_app(),
            app_wf(a@),
    {
        let a = App {
            cat_index: 0,
            item_index: 0,
            globals: Globals::default(),
            segments: Vec::new(),
            leading_comments: Vec::new(),
            dirty: false,
        };
        proof {
            law_default_globals_wf();
            assert(a@ =~= blank_app());
        }
        a
    }

    /// The number of categories.
    pub fn category_count(&self) -> (n: usize)
        ensures
            n == 2,
    {
        2
    }

    /// The name of a category.
    pub fn category_name(&self, i: usize) -> (w: &'static str)
        ensures
            w@ == category_text(i as int),
    {
        match i {
            0 => "Bar globals",
            _ => "Segments",
        }
    }

    /// The number of items in the selected category.
    pub fn current_items_len(&self) -> (n: usize)
        ensures
            n == items_len(self@),
    {
        match self.cat_index {
            0 => KEY_COUNT,
            _ => self.segments.len(),
        }
    }

    /// Brings the selection back into the list.
    pub fn clamp_item_index(&mut self)
        ensures
            final(self)@ == clamped(old(self)@),
    {
        let len: usize = self.current_items_len();
        if self.item_index >= len {
            self.item_index = if len > 0 {
                len - 1
            } else {
                0
            };
        }
    }

    /// Selects the next item.
    pub fn move_down(&mut self)
        ensures
            final(self)@ == moved_down(old(self)@),
            app_wf(old(self)@) ==> app_wf(final(self)@),
    {
        let len: usize = self.current_items_len();
        if self.item_index < len && len - self.item_index > 1 {
            self.item_index += 1;
        }
    }

    /// Selects the previous item.
    pub fn move_up(&mut self)
        ensures
            final(self)@ == moved_up(old(self)@),
            app_wf(old(self)@) ==> app_wf(final(self)@),
    {
        if self.item_index > 0 {
            self.item_index -= 1;
        }
    }

    /// Selects the next category.
    pub fn next_category(&mut self)
        ensures
            final(self)@ == in_next_category(old(self)@),
            app_wf(old(self)@) ==> app_wf(final(self)@),
    {
        if self.cat_index < self.category_count() - 1 {
            self.cat_index += 1;
            self.item_index = 0;
        }
    }

    /// Selects the previous category.
    pub fn prev_category(&mut self)
        ensures
            final(self)@ == in_prev_category(old(self)@),
            app_wf(old(self)@) ==> app_wf(final(self)@),
    {
        if self.cat_index > 0 {
            self.cat_index -= 1;
            self.item_index = 0;
        }
    }

    /// Steps the selected setting.
    pub fn adjust(&mut self, delta: i32)
        ensures
            final(self)@ == adjusted(old(self)@, delta as int),
            app_wf(old(self)@) ==> app_wf(final(self)@),
    {
        if self.cat_index != 0 {
            return;
        }
        let k = match GlobalKey::at(self.item_index) {
            Some(k) => k,
            None => return,
        };
        let max: u32 = match k {
            GlobalKey::Height | GlobalKey::TopOffset | GlobalKey::Gap => 200,
            GlobalKey::CharWidth | GlobalKey::Baseline => 64,
            _ => return,
        };
        let n: u32 = bump(self.globals.number(k), delta, max);
        self.globals.set_number(k, n);
        self.dirty = true;
    }

    /// Switches the selected segment on or off.
    pub fn toggle_segment(&mut self)
        ensures
            final(self)@ == toggled(old(self)@),
            app_wf(old(self)@) ==> app_wf(final(self)@),
    {
        if self.cat_index != 1 || self.item_index >= self.segments.len() {
            return;
        }
        let i: usize = self.item_index;
        self.segments[i].enabled = !self.segments[i].enabled;
        self.dirty = true;
        assert(self@ =~= toggled(old(self)@));
    }

    /// Moves the selected segment one place down.
    pub fn move_segment_down(&mut self)
        ensures
            final(self)@ == segment_moved_down(old(self)@),
            app_wf(old(self)@) ==> app_wf(final(self)@),
    {
        let len: usize = self.segments.len();
        if self.cat_index != 1 || self.item_index >= len || len - self.item_index < 2 {
            return;
        }
        let i: usize = self.item_index;
        swap_segments(&mut self.segments, i, i + 1);
        self.item_index += 1;
        self.dirty = true;
        assert(self@ =~= segment_moved_down(old(self)@));
    }

    /// Moves the selected segment one place up.
    pub fn move_segment_up(&mut self)
        ensures
            final(self)@ == segment_moved_up(old(self)@),
            app_wf(old(self)@) ==> app_wf(final(self)@),
    {
        if self.cat_index != 1 || self.item_index == 0 || self.item_index >= self.segments.len() {
            return;
        }
        let i: usize = self.item_index;
        swap_segments(&mut self.segments, i, i - 1);
        self.item_index -= 1;
        self.dirty = true;
        assert(self@ =~= segment_moved_up(old(self)@));
    }
}

/// Exchanges two neighbouring segments.
fn swap_segments(v: &mut Vec<Segment>, i: usize, j: usize)
    requires
        i < old(v).len(),
        j < old(v).len(),
        j == i + 1 || i == j + 1,
    ensures
        segment_views(final(v)@) == exchanged(segment_views(old(v)@), i as int, j as int),
{
    let seg = v.remove(i);
    v.insert(j, seg);
    assert(segment_views(v@) =~= exchanged(segment_views(old(v)@), i as int, j as int));
}

/// Moving a segment down and up again, or up and down again, changes nothing
/// but that there is something to save.
pub proof fn law_moves_undo_each_other(a: AppView)
    ensures
        a.cat_index == 1 && a.item_index + 1 < a.segments.len() ==> segment_moved_up(
            segment_moved_down(a),
        ) == (AppView { dirty: true, ..a }),
        on_segment(a) && a.item_index > 0 ==> segment_moved_down(segment_moved_up(a)) == (AppView {
            dirty: true,
            ..a
        }),
{
    if a.cat_index == 1 && a.item_index + 1 < a.segments.len() {
        assert(segment_moved_up(segment_moved_down(a)) =~= AppView { dirty: true, ..a });
    }
    if on_segment(a) && a.item_index > 0 {
        assert(segment_moved_down(segment_moved_up(a)) =~= AppView { dirty: true, ..a });
    }
}

/// A moved segment stays selected, and all others keep their order.
pub proof fn law_moved_segment_stays_selected(a: AppView)
    requires
        on_segment(a),
    ensures
        ({
            let i = a.item_index as int;
            let d = segment_moved_down(a);
            let u = segment_moved_up(a);
            &&& d.segments[d.item_index as int] == a.segments[i]
            &&& u.segments[u.item_index as int] == a.segments[i]
            &&& d.segments.remove(d.item_index as int) == a.segments.remove(i)
            &&& u.segments.remove(u.item_index as int) == a.segments.remove(i)
        }),
{
    let i = a.item_index as int;
    let d = segment_moved_down(a);
    let u = segment_moved_up(a);
    assert(d.segments.remove(d.item_index as int) =~= a.segments.remove(i));
    assert(u.segments.remove(u.item_index as int) =~= a.segments.remove(i));
}

/// Switching a segment twice changes nothing but that there is something to save.
pub proof fn law_toggle_twice(a: AppView)
    requires
        on_segment(a),
    ensures
        toggled(toggled(a)) == (AppView { dirty: true, ..a }),
{
    assert(toggled(toggled(a)) =~= AppView { dirty: true, ..a });
}

/// Stepping a setting keeps it within its limits and leaves the other settings alone.
pub proof fn law_adjusted_within_limits(a: AppView, delta: int, k: GlobalKey)
    requires
        a.cat_index == 0,
        key_at(a.item_index as int) is Some,
    ensures
        ({
            let sel = key_at(a.item_index as int)->0;
            let g = adjusted(a, delta).globals;
            &&& step_limit(sel) is Some ==> number_of(g, sel) <= step_limit(sel)->0
            &&& k != sel ==> text_of(g, k) == text_of(a.globals, k)
        }),
{
}

} // verus!
