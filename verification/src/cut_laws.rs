//! Which texts can be looked at: those in which a cut between two bytes does not
//! lie inside a character. Everything else is refused, and nothing more.

use vstd::prelude::*;
use vstd::utf8::{encode_utf8, is_char_boundary};

use crate::app::AppView;
use crate::basic_laws::{all_white, law_trim, solid_end, solid_start};
use crate::color::{code_digits, hash, separable};
use crate::config::{line_separable, line_view, loadable, LineView};
use crate::edit::{answer_separable, answers_separable, AnswersView};
use crate::globals::{key_at, GlobalKey};
use crate::number::hex_pair;
use crate::render::showable;
use crate::segment::hash_separable;
use crate::text::{lemma_run_is, lines, trim};

verus! {

/// Behind white space and hash signs, a code that is six bytes long can be cut
/// after two of them and, if those are a pair of digits, after four.
pub proof fn law_separable(w1: Seq<char>, hashes: Seq<char>, h: Seq<char>, w2: Seq<char>)
    requires
        all_white(w1),
        all_white(w2),
        forall|i: int| 0 <= i < hashes.len() ==> #[trigger] hashes[i] == '#',
        h.len() > 0 ==> h[0] != '#',
        solid_start(hashes + h),
        solid_end(hashes + h),
    ensures
        separable(w1 + (hashes + h + w2)) <==> {
            ||| encode_utf8(h).len() != 6
            ||| is_char_boundary(encode_utf8(h), 2) && (h.len() < 2 || hex_pair(h[0], h[1]) is None
                || is_char_boundary(encode_utf8(h), 4))
        },
{
    let t = hashes + h;
    law_trim(w1, t, w2);
    assert forall|i: int| 0 <= i < hashes.len() implies hash()(#[trigger] t[i]) by {
        assert(t[i] == hashes[i]);
    }
    if h.len() > 0 {
        assert(t[hashes.len() as int] == h[0]);
    }
    lemma_run_is(t, hash(), hashes.len() as int);
    assert(t.skip(hashes.len() as int) =~= h);
    assert(code_digits(w1 + (hashes + h + w2)) == h);
}

/// Where a colour may stand, a text behind a hash sign that is six bytes long or
/// longer can be cut after six of them.
pub proof fn law_hash_separable(s: Seq<char>)
    ensures
        hash_separable(s) <==> {
            ||| s.len() == 0 || s[0] != '#'
            ||| encode_utf8(s.skip(1)).len() < 6
            ||| is_char_boundary(encode_utf8(s.skip(1)), 6)
        },
{
}

/// A line can be looked at unless it gives a colour that cannot be cut, or has
/// none that can be cut where the colour of a segment may stand. A kept line
/// always can.
pub proof fn law_line_separable(raw: Seq<char>)
    ensures
        line_view(raw) == LineView::Kept ==> line_separable(raw),
        match line_view(raw) {
            LineView::Global(k, val) => line_separable(raw) <==> (k == GlobalKey::Bg || k
                == GlobalKey::Fg ==> separable(val)),
            _ => true,
        },
{
}

/// A file can be read if and only if each of its lines can be looked at.
pub proof fn law_loadable(content: Seq<char>)
    ensures
        loadable(content) <==> forall|i: int|
            0 <= i < lines(content).len() ==> line_separable(#[trigger] lines(content)[i]),
{
}

/// The answer for a setting is refused only if a colour is selected and it cannot
/// be cut; the answers for a segment only if the colour changes and cannot be cut.
pub proof fn law_answers_separable(a: AppView, answer: Seq<char>, t: AnswersView)
    ensures
        answer_separable(a, answer) <==> {
            ||| key_at(a.item_index as int) != Some(GlobalKey::Bg) && key_at(a.item_index as int)
                != Some(GlobalKey::Fg)
            ||| separable(trim(answer))
        },
        answers_separable(a, t) <==> {
            ||| a.item_index >= a.segments.len()
            ||| t.color.len() == 0 || t.color == a.segments[a.item_index as int].color
            ||| separable(t.color)
        },
{
}

/// A state can be shown if and only if the colours that are shown can be cut and
/// the place of the selected item can be counted from one.
pub proof fn law_showable(a: AppView)
    ensures
        showable(a) <==> {
            &&& separable(a.globals.bg) && separable(a.globals.fg)
            &&& a.cat_index == 0 || forall|i: int|
                0 <= i < a.segments.len() ==> separable(#[trigger] a.segments[i].color)
            &&& a.item_index < usize::MAX
        },
{
}

} // verus!
