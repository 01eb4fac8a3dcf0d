//! What a written file holds: each line of it, and in which order.

use vstd::prelude::*;

use crate::app::AppView;
use crate::config::{
    global_block, line_if, save_lines, save_text, segment_block, tail_block, tail_lines,
    unmarked_lines,
};
use crate::globals::GlobalsView;
use crate::number::decimal;
use crate::segment::{line_of, SegmentView};
use crate::text::{lemma_unlines_add, unlines};

verus! {

/// The text, or nothing.
pub open spec fn text_if(b: bool, s: Seq<char>) -> Seq<char> {
    if b {
        s
    } else {
        Seq::empty()
    }
}

/// A segment is written on one line: a comment sign if it is switched off, the
/// keyword, the name; then each part that it has, behind a blank and in this
/// order: a plus sign and the gap, the colour, the command, the interval.
pub proof fn law_segment_written(v: SegmentView)
    ensures
        ({
            let gap = text_if(v.gap_override > 0, seq![' ', '+'] + decimal(v.gap_override as nat));
            let color = text_if(v.color.len() > 0, seq![' '] + v.color);
            let command = text_if(v.command.len() > 0, seq![' '] + v.command);
            let interval = text_if(v.interval > 0, seq![' '] + decimal(v.interval as nat));
            line_of(v) == text_if(!v.enabled, seq!['#', ' ']) + "segment "@ + (v.name + (gap + (
            color + (command + interval))))
        }),
{
    reveal_strlit("");
    reveal_strlit("# ");
    assert(""@ =~= Seq::<char>::empty());
    assert("# "@ =~= seq!['#', ' ']);
}

/// Of the lines attached to a segment, those behind the sign for the end of the
/// file are written there, without it; all others before the segment. Both keep
/// their order.
pub proof fn law_attached_written(ls: Seq<Seq<char>>, l: Seq<char>)
    ensures
        unmarked_lines(Seq::empty()).len() == 0,
        tail_lines(Seq::empty()).len() == 0,
        l.len() > 0 && l[0] == '\u{1}' ==> {
            &&& unmarked_lines(ls.push(l)) == unmarked_lines(ls)
            &&& tail_lines(ls.push(l)) == tail_lines(ls).push(l.skip(1))
        },
        l.len() == 0 || l[0] != '\u{1}' ==> {
            &&& unmarked_lines(ls.push(l)) == unmarked_lines(ls).push(l)
            &&& tail_lines(ls.push(l)) == tail_lines(ls)
        },
{
    assert(ls.push(l).drop_last() =~= ls);
}

/// Segments are written in their order, each directly behind its lines; their
/// lines for the end of the file in the same order.
pub proof fn law_segments_written(segs: Seq<SegmentView>, v: SegmentView)
    ensures
        segment_block(Seq::empty()).len() == 0,
        tail_block(Seq::empty()).len() == 0,
        segment_block(segs.push(v)) == segment_block(segs) + unmarked_lines(v.comments_above)
            + seq![line_of(v)],
        tail_block(segs.push(v)) == tail_block(segs) + tail_lines(v.comments_above),
{
    assert(segs.push(v).drop_last() =~= segs);
    assert(segment_block(segs.push(v)) =~= segment_block(segs) + unmarked_lines(v.comments_above)
        + seq![line_of(v)]);
}

/// The settings are written one to a line, the numbers in decimal; the font, the
/// width and the baseline only if they are not the bar's own.
pub proof fn law_settings_written(g: GlobalsView)
    ensures
        ({
            let b = global_block(g);
            let f: int = if g.font.len() > 0 {
                1
            } else {
                0
            };
            let w: int = if g.char_width != 0 {
                1
            } else {
                0
            };
            let l: int = if g.baseline != 0 {
                1
            } else {
                0
            };
            &&& b.len() == 5 + f + w + l
            &&& b[0] == "height     = "@ + decimal(g.height as nat)
            &&& b[1] == "top_offset = "@ + decimal(g.top_offset as nat)
            &&& b[2] == "bg         = "@ + g.bg
            &&& b[3] == "fg         = "@ + g.fg
            &&& b[4] == "gap        = "@ + decimal(g.gap as nat)
            &&& f == 1 ==> b[5] == "font       = "@ + g.font
            &&& w == 1 ==> b[5 + f] == "char_width = "@ + decimal(g.char_width as nat)
            &&& l == 1 ==> b[5 + f + w] == "baseline   = "@ + decimal(g.baseline as nat)
        }),
{
}

/// A file is written in this order: the lines that lead it, and a blank one behind
/// them if there are any; the settings, and a blank line; the segments with their
/// lines; the lines for the end of the file.
pub proof fn law_file_written(a: AppView)
    ensures
        save_text(a) == unlines(a.leading_comments) + text_if(
            a.leading_comments.len() > 0,
            seq!['\n'],
        ) + unlines(global_block(a.globals)) + seq!['\n'] + unlines(segment_block(a.segments))
            + unlines(tail_block(a.segments)),
{
    let e = Seq::<char>::empty();
    let gap = line_if(a.leading_comments.len() > 0, e);
    let blank = seq![e];
    let h1 = a.leading_comments + gap;
    let h2 = h1 + global_block(a.globals);
    let h3 = h2 + blank;
    let h4 = h3 + segment_block(a.segments);
    lemma_unlines_add(a.leading_comments, gap);
    lemma_unlines_add(h1, global_block(a.globals));
    lemma_unlines_add(h2, blank);
    lemma_unlines_add(h3, segment_block(a.segments));
    lemma_unlines_add(h4, tail_block(a.segments));
    assert(save_lines(a) =~= h4 + tail_block(a.segments));
    assert(blank.skip(1) =~= Seq::<Seq<char>>::empty());
    assert(unlines(blank.skip(1)) =~= e);
    assert(unlines(blank) =~= seq!['\n']);
    if a.leading_comments.len() > 0 {
        assert(gap =~= blank);
    } else {
        assert(gap =~= Seq::<Seq<char>>::empty());
        assert(unlines(gap) =~= e);
    }
    assert(unlines(gap) =~= text_if(a.leading_comments.len() > 0, seq!['\n']));
}

} // verus!
