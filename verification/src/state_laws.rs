//! What the steps of the editor do to its state: what changes, by how much, and
//! what stays.

use vstd::prelude::*;

use crate::app::{
    adjusted, app_wf, clamped, deleted, in_next_category, in_prev_category, items_len, moved_down,
    moved_up, segment_moved_down, segment_moved_up, segment_wf, toggled, App, AppView,
};
use crate::color::is_canonical;
use crate::globals::{key_at, number_of, text_of, GlobalKey};
use crate::segment::Segment;
use crate::setting_laws::is_number_key;

verus! {

/// What a state holds is what its fields hold, the segments and lines in their order.
pub proof fn law_state_view(a: App)
    ensures
        a@.cat_index == a.cat_index,
        a@.item_index == a.item_index,
        a@.globals == a.globals@,
        a@.dirty == a.dirty,
        a@.segments.len() == a.segments@.len(),
        forall|i: int|
            0 <= i < a.segments@.len() ==> #[trigger] a@.segments[i] == a.segments@[i]@,
        a@.leading_comments.len() == a.leading_comments@.len(),
        forall|i: int|
            0 <= i < a.leading_comments@.len() ==> #[trigger] a@.leading_comments[i]
                == a.leading_comments@[i]@,
{
}

/// What a segment holds is what its fields hold.
pub proof fn law_segment_view(s: Segment)
    ensures
        s@.enabled == s.enabled,
        s@.name == s.name@,
        s@.gap_override == s.gap_override,
        s@.color == s.color@,
        s@.command == s.command@,
        s@.interval == s.interval,
        s@.comments_above.len() == s.comments_above@.len(),
        forall|i: int|
            0 <= i < s.comments_above@.len() ==> #[trigger] s@.comments_above[i]
                == s.comments_above@[i]@,
{
}

/// The states of the editor: one of two categories and one of its items is
/// selected, the first place of an empty list counts as one, and all colours are
/// canonical or absent.
pub proof fn law_states(a: AppView)
    ensures
        app_wf(a) <==> {
            &&& a.cat_index == 0 || a.cat_index == 1
            &&& a.item_index == 0 || a.item_index < item_count(a)
            &&& is_canonical(a.globals.bg) && is_canonical(a.globals.fg)
            &&& forall|i: int|
                0 <= i < a.segments.len() ==> (#[trigger] a.segments[i]).color.len() == 0
                    || is_canonical(a.segments[i].color)
        },
{
    if app_wf(a) {
        assert forall|i: int| 0 <= i < a.segments.len() implies (
        #[trigger] a.segments[i]).color.len() == 0 || is_canonical(a.segments[i].color) by {
            assert(segment_wf(a.segments[i]));
        }
    }
}

/// Whether two states differ in nothing but what is selected.
pub open spec fn same_content(a: AppView, b: AppView) -> bool {
    &&& a.globals == b.globals
    &&& a.segments == b.segments
    &&& a.leading_comments == b.leading_comments
    &&& a.dirty == b.dirty
}

/// The number of items that can be selected: the eight settings, or the segments.
pub open spec fn item_count(a: AppView) -> int {
    if a.cat_index == 0 {
        8
    } else {
        a.segments.len() as int
    }
}

/// The items are counted so.
pub proof fn law_items(a: AppView)
    ensures
        items_len(a) == item_count(a),
{
}

/// Going down selects the next item if there is one, going up the previous one;
/// at the ends of the list the selection stays. Nothing else changes.
pub proof fn law_selection_moves(a: AppView)
    ensures
        ({
            let d = moved_down(a);
            let u = moved_up(a);
            &&& same_content(a, d) && d.cat_index == a.cat_index
            &&& same_content(a, u) && u.cat_index == a.cat_index
            &&& a.item_index + 1 < item_count(a) ==> d.item_index == a.item_index + 1
            &&& a.item_index + 1 >= item_count(a) ==> d.item_index == a.item_index
            &&& a.item_index > 0 ==> u.item_index == a.item_index - 1
            &&& a.item_index == 0 ==> u.item_index == 0
            &&& a.item_index + 1 < item_count(a) ==> moved_up(d) == a
            &&& 0 < a.item_index < item_count(a) ==> moved_down(u) == a
        }),
{
}

/// There are two categories. Going to another one selects its first item; beyond
/// the ends the selection stays. Nothing else changes.
pub proof fn law_categories(a: AppView)
    ensures
        ({
            let n = in_next_category(a);
            let p = in_prev_category(a);
            &&& same_content(a, n) && same_content(a, p)
            &&& a.cat_index == 0 ==> n.cat_index == 1 && n.item_index == 0
            &&& a.cat_index >= 1 ==> n.cat_index == a.cat_index && n.item_index == a.item_index
            &&& a.cat_index > 0 ==> p.cat_index == a.cat_index - 1 && p.item_index == 0
            &&& a.cat_index == 0 ==> p.cat_index == 0 && p.item_index == a.item_index
        }),
{
}

/// A selection behind the end of the list is brought back to the last item, or to
/// the first place of an empty list; any other stays.
pub proof fn law_clamped(a: AppView)
    ensures
        ({
            let c = clamped(a);
            &&& same_content(a, c) && c.cat_index == a.cat_index
            &&& a.item_index < item_count(a) ==> c.item_index == a.item_index
            &&& item_count(a) == 0 ==> c.item_index == 0
            &&& 0 < item_count(a) <= a.item_index ==> c.item_index == item_count(a) - 1
        }),
{
}

/// Stepping moves the selected number by the step, as far as it stays between
/// zero and its limit: 64 for the width and the baseline, 200 for the others. No
/// other setting and nothing else changes. Colours and the font are not stepped.
pub proof fn law_stepped(a: AppView, delta: int, k: GlobalKey, other: GlobalKey)
    requires
        key_at(a.item_index as int) == Some(k),
    ensures
        ({
            let b = adjusted(a, delta);
            let max: int = if k == GlobalKey::CharWidth || k == GlobalKey::Baseline {
                64
            } else {
                200
            };
            let n = number_of(a.globals, k) + delta;
            &&& a.cat_index == 0 && is_number_key(k) ==> {
                &&& 0 <= n <= max ==> number_of(b.globals, k) == n
                &&& n < 0 ==> number_of(b.globals, k) == 0
                &&& n > max ==> number_of(b.globals, k) == max
                &&& b.dirty
            }
            &&& other != k ==> text_of(b.globals, other) == text_of(a.globals, other)
            &&& b.segments == a.segments && b.leading_comments == a.leading_comments
            &&& b.cat_index == a.cat_index && b.item_index == a.item_index
            &&& a.cat_index != 0 || !is_number_key(k) ==> b == a
        }),
{
}

/// Where there is no setting, nothing is stepped.
pub proof fn law_nothing_to_step(a: AppView, delta: int)
    requires
        a.cat_index != 0 || a.item_index >= 8,
    ensures
        adjusted(a, delta) == a,
{
}

/// Stepping up and down again gives the number back, unless a limit was in the way.
pub proof fn law_steps_undo_each_other(a: AppView, k: GlobalKey)
    requires
        key_at(a.item_index as int) == Some(k),
        a.cat_index == 0,
    ensures
        number_of(a.globals, k) < 64 ==> adjusted(adjusted(a, 1), -1).globals == a.globals,
        0 < number_of(a.globals, k) <= 64 ==> adjusted(adjusted(a, -1), 1).globals == a.globals,
{
    assert(number_of(a.globals, k) < 64 ==> adjusted(adjusted(a, 1), -1).globals =~= a.globals);
    assert(0 < number_of(a.globals, k) <= 64 ==> adjusted(adjusted(a, -1), 1).globals
        =~= a.globals);
}

/// Switching changes whether the selected segment is on, and nothing else of it
/// or of any other segment.
pub proof fn law_toggled(a: AppView, i: int)
    requires
        0 <= i < a.segments.len(),
    ensures
        ({
            let b = toggled(a);
            let s = a.segments[i];
            let t = b.segments[i];
            &&& b.segments.len() == a.segments.len()
            &&& t.name == s.name && t.gap_override == s.gap_override && t.color == s.color
            &&& t.command == s.command && t.interval == s.interval
            &&& t.comments_above == s.comments_above
            &&& a.cat_index == 1 && i == a.item_index ==> t.enabled != s.enabled && b.dirty
            &&& a.cat_index != 1 || i != a.item_index ==> t.enabled == s.enabled
            &&& a.cat_index != 1 || a.item_index >= a.segments.len() ==> b == a
            &&& b.globals == a.globals && b.leading_comments == a.leading_comments
            &&& b.cat_index == a.cat_index && b.item_index == a.item_index
        }),
{
}

/// Moving a segment exchanges it with its neighbour and keeps it selected; every
/// other segment stays at its place. At the end of the list nothing moves.
pub proof fn law_segment_moves(a: AppView, k: int)
    requires
        a.cat_index == 1,
        a.item_index < a.segments.len(),
        0 <= k < a.segments.len(),
    ensures
        ({
            let i = a.item_index as int;
            let n = a.segments.len() as int;
            let d = segment_moved_down(a);
            let u = segment_moved_up(a);
            &&& i + 1 < n ==> {
                &&& d.segments[i + 1] == a.segments[i] && d.segments[i] == a.segments[i + 1]
                &&& k != i && k != i + 1 ==> d.segments[k] == a.segments[k]
                &&& d.item_index == i + 1 && d.dirty
            }
            &&& i + 1 == n ==> d == a
            &&& i > 0 ==> {
                &&& u.segments[i - 1] == a.segments[i] && u.segments[i] == a.segments[i - 1]
                &&& k != i && k != i - 1 ==> u.segments[k] == a.segments[k]
                &&& u.item_index == i - 1 && u.dirty
            }
            &&& i == 0 ==> u == a
            &&& d.segments.len() == n && u.segments.len() == n
            &&& d.globals == a.globals && d.leading_comments == a.leading_comments
            &&& u.globals == a.globals && u.leading_comments == a.leading_comments
            &&& d.cat_index == 1 && u.cat_index == 1
        }),
{
}

/// Outside the list of segments, and with none selected, nothing moves.
pub proof fn law_nothing_to_move(a: AppView)
    requires
        a.cat_index != 1 || a.item_index >= a.segments.len(),
    ensures
        segment_moved_down(a) == a,
        segment_moved_up(a) == a,
        toggled(a) == a,
        deleted(a) == a,
{
}

/// Deleting takes out the selected segment and no other: those before it stay at
/// their places, those behind it move up by one. The selection stays at its place,
/// or goes to the last segment if the last one was deleted.
pub proof fn law_deleted(a: AppView, k: int)
    requires
        a.cat_index == 1,
        a.item_index < a.segments.len(),
        0 <= k < a.segments.len() - 1,
    ensures
        ({
            let i = a.item_index as int;
            let b = deleted(a);
            &&& k < i ==> b.segments[k] == a.segments[k]
            &&& k >= i ==> b.segments[k] == a.segments[k + 1]
        }),
{
}

/// What else deleting does: the list is one shorter, there is something to save,
/// and the selection is inside the list.
pub proof fn law_deleted_rest(a: AppView)
    requires
        a.cat_index == 1,
        a.item_index < a.segments.len(),
    ensures
        ({
            let n = a.segments.len() as int;
            let b = deleted(a);
            &&& b.segments.len() == n - 1
            &&& b.dirty
            &&& b.globals == a.globals && b.leading_comments == a.leading_comments
            &&& b.cat_index == 1
            &&& a.item_index < n - 1 ==> b.item_index == a.item_index
            &&& a.item_index == n - 1 && n > 1 ==> b.item_index == n - 2
            &&& n == 1 ==> b.item_index == 0
        }),
{
}

} // verus!
