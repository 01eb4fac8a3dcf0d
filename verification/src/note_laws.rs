//! Which lines of a written file are kept lines: those that were kept from the
//! file that was read, and blank ones.

use vstd::prelude::*;

use crate::app::{blank_app, AppView};
use crate::color::is_lower_hex;
use crate::config::{
    global_block, is_marked, keyword, line_if, line_view, loaded, save_lines, save_text,
    segment_block, tail_block, tail_lines, tail_mark, uncommented, unmarked_lines, LineView,
};
use crate::config_laws::{
    is_kept_line, is_setting_line, kept, lemma_blank_line, lemma_decimal_text, lemma_global_lines,
    lemma_no_feed_add, lemma_reread_add, lemma_trim_without_cr,
};
use crate::keep_laws::{
    attached_block, is_heading_line, is_segment_line, is_writable, keeps_lines, kept_in, kept_of,
    kept_unmarked, law_kept_lines_are_read, law_loaded_keeps_lines, plain_start,
    segments_keep_lines, stays_kept, unmixed,
};
use crate::number::decimal;
use crate::segment::{
    body_of, color_tail, command_tail, gap_tail, interval_tail, line_of, SegmentView,
};
use crate::text::{
    end_run, in_line, is_white, law_lines_of_unlines, lemma_end_run, lemma_run, lemma_run_is, lines,
    no_feed, reread, run, trim, white, without_cr,
};

verus! {

/// The lines that are not blank, in their order.
pub open spec fn nonblank(ls: Seq<Seq<char>>) -> Seq<Seq<char>>
    decreases ls.len(),
{
    if ls.len() == 0 {
        Seq::empty()
    } else {
        let front = nonblank(ls.drop_last());
        if trim(ls.last()).len() > 0 {
            front.push(ls.last())
        } else {
            front
        }
    }
}

/// The kept lines that say something: comments, unknown settings, unknown lines.
pub open spec fn notes_of(ls: Seq<Seq<char>>) -> Seq<Seq<char>> {
    nonblank(kept_of(ls))
}

proof fn lemma_kept_of_add(a: Seq<Seq<char>>, b: Seq<Seq<char>>)
    ensures
        kept_of(a + b) == kept_of(a) + kept_of(b),
    decreases b.len(),
{
    if b.len() == 0 {
        assert(a + b =~= a);
        assert(kept_of(a) + kept_of(b) =~= kept_of(a));
    } else {
        assert((a + b).drop_last() =~= a + b.drop_last());
        assert((a + b).last() == b.last());
        lemma_kept_of_add(a, b.drop_last());
        assert(kept_of(a + b) =~= kept_of(a) + kept_of(b));
    }
}

proof fn lemma_nonblank_add(a: Seq<Seq<char>>, b: Seq<Seq<char>>)
    ensures
        nonblank(a + b) == nonblank(a) + nonblank(b),
    decreases b.len(),
{
    if b.len() == 0 {
        assert(a + b =~= a);
        assert(nonblank(a) + nonblank(b) =~= nonblank(a));
    } else {
        assert((a + b).drop_last() =~= a + b.drop_last());
        assert((a + b).last() == b.last());
        lemma_nonblank_add(a, b.drop_last());
        assert(nonblank(a + b) =~= nonblank(a) + nonblank(b));
    }
}

proof fn lemma_notes_add(a: Seq<Seq<char>>, b: Seq<Seq<char>>)
    ensures
        notes_of(a + b) == notes_of(a) + notes_of(b),
{
    lemma_kept_of_add(a, b);
    lemma_nonblank_add(kept_of(a), kept_of(b));
}

/// Lines of which none is kept hold no notes.
proof fn lemma_no_notes(ls: Seq<Seq<char>>)
    requires
        forall|i: int| 0 <= i < ls.len() ==> line_view(#[trigger] ls[i]) != LineView::Kept,
    ensures
        notes_of(ls).len() == 0,
    decreases ls.len(),
{
    if ls.len() > 0 {
        let front = ls.drop_last();
        assert forall|i: int| 0 <= i < front.len() implies line_view(#[trigger] front[i])
            != LineView::Kept by {
            assert(front[i] == ls[i]);
        }
        lemma_no_notes(front);
        assert(line_view(ls[ls.len() - 1]) != LineView::Kept);
        assert(kept_of(ls) == kept_of(front));
    }
}

/// Kept lines that are read again hold their notes.
proof fn lemma_notes_of_kept(ls: Seq<Seq<char>>)
    requires
        kept(ls),
    ensures
        notes_of(reread(ls)) == reread(nonblank(ls)),
    decreases ls.len(),
{
    let r = reread(ls);
    if ls.len() == 0 {
        assert(r =~= Seq::<Seq<char>>::empty());
        assert(reread(nonblank(ls)) =~= Seq::<Seq<char>>::empty());
        assert(kept_of(r) =~= Seq::<Seq<char>>::empty());
    } else {
        let front = ls.drop_last();
        let l = ls.last();
        assert forall|i: int| 0 <= i < front.len() implies is_kept_line(#[trigger] front[i]) by {
            assert(front[i] == ls[i]);
        }
        lemma_notes_of_kept(front);
        assert(is_kept_line(ls[ls.len() - 1]));
        lemma_trim_without_cr(l);
        assert(r.drop_last() =~= reread(front));
        assert(r.last() == without_cr(l));
        assert(kept_of(r) == kept_of(reread(front)).push(without_cr(l)));
        assert(kept_of(r).drop_last() =~= kept_of(reread(front)));
        assert(notes_of(r) =~= reread(nonblank(ls)));
    }
}

/// Trimming a line that begins solid keeps everything up to a solid character.
proof fn lemma_trim_keeps(l: Seq<char>, k: int)
    requires
        0 <= k < l.len(),
        !is_white(l[0]),
        !is_white(l[k]),
    ensures
        k < trim(l).len() <= l.len(),
        forall|i: int| 0 <= i < trim(l).len() ==> #[trigger] trim(l)[i] == l[i],
{
    lemma_run_is(l, white(), 0);
    assert(l.skip(0) =~= l);
    lemma_end_run(l, white());
    if l.len() - end_run(l, white()) <= k {
        assert(white()(l[k]));
    }
}

/// The line of a segment denotes some segment and fits in one line.
proof fn lemma_segment_line_is_one(v: SegmentView)
    requires
        is_writable(v),
    ensures
        line_view(without_cr(line_of(v))) is Segment,
        no_feed(line_of(v)),
{
    reveal_strlit("");
    reveal_strlit("# ");
    reveal_strlit("segment ");
    let l = line_of(v);
    let kb = keyword() + body_of(v);
    lemma_trim_without_cr(l);
    assert(kb[8] == v.name[0]);
    assert(!is_white(v.name[0]));
    let t = trim(l);
    if v.enabled {
        assert(l =~= kb);
        lemma_trim_keeps(l, 8);
        assert(t.take(8) =~= keyword());
        assert(t[0] == 's');
    } else {
        assert(l =~= seq!['#', ' '] + kb);
        assert(l[10] == kb[8]);
        lemma_trim_keeps(l, 10);
        let r = t.skip(1);
        assert(r[0] == ' ' && r[1] == 's');
        lemma_run_is(r, white(), 1);
        let u = uncommented(t);
        assert(u =~= t.skip(2));
        assert(u.take(8) =~= keyword());
    }
    lemma_body_has_no_feed(v);
    assert(no_feed(keyword()));
    lemma_no_feed_add(keyword(), body_of(v));
    if !v.enabled {
        lemma_no_feed_add(seq!['#', ' '], kb);
    }
}

proof fn lemma_body_has_no_feed(v: SegmentView)
    requires
        is_writable(v),
    ensures
        no_feed(body_of(v)),
{
    let blank = seq![' '];
    let plus = seq![' ', '+'];
    lemma_decimal_text(v.interval as nat);
    lemma_decimal_text(v.gap_override as nat);
    lemma_no_feed_add(blank, decimal(v.interval as nat));
    lemma_no_feed_add(blank, v.command);
    lemma_no_feed_add(plus, decimal(v.gap_override as nat));
    assert(no_feed(v.color)) by {
        assert forall|i: int| 0 <= i < v.color.len() implies #[trigger] v.color[i] != '\n' by {
            if i > 0 {
                assert(is_lower_hex(v.color[i]));
            }
        }
    }
    lemma_no_feed_add(blank, v.color);
    assert(no_feed(v.name)) by {
        assert forall|i: int| 0 <= i < v.name.len() implies #[trigger] v.name[i] != '\n' by {
            assert(!is_white(v.name[i]));
        }
    }
    let p1 = interval_tail(v);
    let p2 = if v.command.len() > 0 {
        blank + v.command
    } else {
        Seq::empty()
    };
    let p3 = if v.color.len() > 0 {
        blank + v.color
    } else {
        Seq::empty()
    };
    let p4 = if v.gap_override > 0 {
        plus + decimal(v.gap_override as nat)
    } else {
        Seq::empty()
    };
    lemma_no_feed_add(p2, p1);
    lemma_no_feed_add(p3, command_tail(v));
    lemma_no_feed_add(p4, color_tail(v));
    lemma_no_feed_add(v.name, gap_tail(v));
}

/// Whether every line fits in one line.
spec fn no_feeds(ls: Seq<Seq<char>>) -> bool {
    forall|i: int| 0 <= i < ls.len() ==> no_feed(#[trigger] ls[i])
}

proof fn lemma_no_feeds_add(a: Seq<Seq<char>>, b: Seq<Seq<char>>)
    requires
        no_feeds(a),
        no_feeds(b),
    ensures
        no_feeds(a + b),
{
    let s = a + b;
    assert forall|i: int| 0 <= i < s.len() implies no_feed(#[trigger] s[i]) by {
        if i < a.len() {
            assert(s[i] == a[i]);
        } else {
            assert(s[i] == b[i - a.len()]);
        }
    }
}

proof fn lemma_no_feeds_kept(ls: Seq<Seq<char>>)
    requires
        kept(ls),
    ensures
        no_feeds(ls),
{
    assert forall|i: int| 0 <= i < ls.len() implies no_feed(#[trigger] ls[i]) by {
        assert(is_kept_line(ls[i]));
    }
}

/// The notes among the segments are the lines attached to them.
proof fn lemma_notes_of_segments(segs: Seq<SegmentView>)
    requires
        segments_keep_lines(segs),
    ensures
        notes_of(reread(segment_block(segs))) == reread(nonblank(attached_block(segs))),
        no_feeds(segment_block(segs)),
        kept(tail_block(segs)),
    decreases segs.len(),
{
    let block = segment_block(segs);
    if segs.len() == 0 {
        lemma_notes_of_kept(block);
        assert(attached_block(segs) =~= block);
    } else {
        let front = segs.drop_last();
        let v = segs.last();
        assert(v == segs[segs.len() - 1]);
        assert forall|i: int| 0 <= i < front.len() implies is_writable(#[trigger] front[i])
            && kept(unmarked_lines(front[i].comments_above)) && kept(
            tail_lines(front[i].comments_above),
        ) by {
            assert(front[i] == segs[i]);
        }
        lemma_notes_of_segments(front);
        assert(is_writable(v));
        let above = unmarked_lines(v.comments_above);
        let line = seq![line_of(v)];
        lemma_segment_line_is_one(v);
        assert(above.push(line_of(v)) =~= above + line);
        assert(block =~= segment_block(front) + above + line);
        lemma_reread_add(segment_block(front) + above, line);
        lemma_reread_add(segment_block(front), above);
        lemma_notes_add(reread(segment_block(front)) + reread(above), reread(line));
        lemma_notes_add(reread(segment_block(front)), reread(above));
        lemma_notes_of_kept(above);
        assert(reread(line)[0] == without_cr(line_of(v)));
        lemma_no_notes(reread(line));
        lemma_nonblank_add(attached_block(front), above);
        lemma_reread_add(nonblank(attached_block(front)), nonblank(above));
        assert(notes_of(reread(block)) =~= reread(nonblank(attached_block(segs))));
        lemma_no_feeds_kept(above);
        lemma_no_feeds_add(segment_block(front), above);
        assert(no_feeds(line));
        lemma_no_feeds_add(segment_block(front) + above, line);
        let a = tail_block(front);
        let b = tail_lines(v.comments_above);
        assert forall|i: int| 0 <= i < (a + b).len() implies is_kept_line(
            #[trigger] (a + b)[i],
        ) by {
            if i < a.len() {
                assert((a + b)[i] == a[i]);
            } else {
                assert((a + b)[i] == b[i - a.len()]);
            }
        }
    }
}

/// A blank line or none holds no notes.
proof fn lemma_notes_of_gap(b: bool)
    ensures
        notes_of(reread(line_if(b, Seq::empty()))).len() == 0,
        no_feeds(line_if(b, Seq::empty())),
{
    let e = Seq::<char>::empty();
    let ls = line_if(b, e);
    lemma_blank_line();
    assert(kept(ls));
    lemma_notes_of_kept(ls);
    lemma_no_feeds_kept(ls);
    lemma_run(e, white());
    lemma_end_run(e, white());
    assert(trim(e).len() == 0);
    if b {
        assert(ls.drop_last() =~= Seq::<Seq<char>>::empty());
        assert(nonblank(ls.drop_last()).len() == 0);
    }
}

/// The kept lines of a written file that are not blank are exactly those of the
/// state, in the same order, but for a carriage return at the end of a line.
pub proof fn law_notes_are_written(a: AppView)
    requires
        keeps_lines(a),
    ensures
        notes_of(lines(save_text(a))) == reread(nonblank(kept_in(a))),
{
    let e = Seq::<char>::empty();
    let gap = line_if(a.leading_comments.len() > 0, e);
    let blank = line_if(true, e);
    let globals = global_block(a.globals);
    let block = segment_block(a.segments);
    let tail = tail_block(a.segments);
    let h1 = a.leading_comments;
    let h2 = h1 + gap;
    let h3 = h2 + globals;
    let h4 = h3 + blank;
    let h5 = h4 + block;
    let all = save_lines(a);
    assert(all =~= h5 + tail);
    lemma_notes_of_gap(a.leading_comments.len() > 0);
    lemma_notes_of_gap(true);
    lemma_global_lines(a.globals);
    lemma_notes_of_segments(a.segments);
    // The text is read back line by line.
    assert forall|i: int| 0 <= i < globals.len() implies no_feed(#[trigger] globals[i]) by {
        assert(is_setting_line(globals[i]));
    }
    lemma_no_feeds_kept(h1);
    lemma_no_feeds_kept(tail);
    lemma_no_feeds_add(h1, gap);
    lemma_no_feeds_add(h2, globals);
    lemma_no_feeds_add(h3, blank);
    lemma_no_feeds_add(h4, block);
    lemma_no_feeds_add(h5, tail);
    law_lines_of_unlines(all);
    // Block by block.
    lemma_reread_add(h5, tail);
    lemma_reread_add(h4, block);
    lemma_reread_add(h3, blank);
    lemma_reread_add(h2, globals);
    lemma_reread_add(h1, gap);
    lemma_notes_add(reread(h5), reread(tail));
    lemma_notes_add(reread(h4), reread(block));
    lemma_notes_add(reread(h3), reread(blank));
    lemma_notes_add(reread(h2), reread(globals));
    lemma_notes_add(reread(h1), reread(gap));
    lemma_notes_of_kept(h1);
    lemma_notes_of_kept(tail);
    assert forall|i: int| 0 <= i < globals.len() implies line_view(#[trigger] reread(globals)[i])
        != LineView::Kept by {
        assert(is_setting_line(globals[i]));
    }
    lemma_no_notes(reread(globals));
    let attached = attached_block(a.segments);
    lemma_nonblank_add(h1 + attached, tail);
    lemma_nonblank_add(h1, attached);
    lemma_reread_add(nonblank(h1) + nonblank(attached), nonblank(tail));
    lemma_reread_add(nonblank(h1), nonblank(attached));
    assert(notes_of(reread(all)) =~= reread(nonblank(kept_in(a))));
}

/// The comments, unknown settings and unknown lines of a file that was read and
/// written again are exactly those that it had, each once and in the same order.
/// They are the same to the letter but for a carriage return at the end of a line.
pub proof fn law_notes_survive(content: Seq<char>)
    requires
        unmixed(lines(content)),
    ensures
        ({
            let before = notes_of(lines(content));
            let after = notes_of(lines(save_text(loaded(blank_app(), content))));
            &&& after == reread(before)
            &&& (forall|i: int|
                0 <= i < before.len() ==> without_cr(#[trigger] before[i]) == before[i]) ==> after
                == before
        }),
{
    let ls = lines(content);
    let before = notes_of(ls);
    assert(stays_kept(ls)) by {
        assert forall|i: int, j: int, k: int|
            0 <= i < j < k < ls.len() && #[trigger] is_heading_line(ls[i])
                && #[trigger] is_segment_line(ls[k]) && line_view(ls[j])
                == LineView::Kept implies kept_unmarked()(#[trigger] ls[j]) by {
            assert(plain_start()(ls[j]));
        }
    }
    law_loaded_keeps_lines(content);
    law_notes_are_written(loaded(blank_app(), content));
    law_kept_lines_are_read(content);
    if forall|i: int| 0 <= i < before.len() ==> without_cr(#[trigger] before[i]) == before[i] {
        assert(reread(before) =~= before);
    }
}

proof fn lemma_lines_have_no_mark(s: Seq<char>)
    requires
        forall|i: int| 0 <= i < s.len() ==> #[trigger] s[i] != tail_mark(),
    ensures
        forall|i: int| 0 <= i < lines(s).len() ==> !is_marked(#[trigger] lines(s)[i]),
    decreases s.len(),
{
    lemma_run(s, in_line());
    let n = run(s, in_line());
    if n < s.len() {
        let rest = s.skip(n + 1);
        assert forall|i: int| 0 <= i < rest.len() implies #[trigger] rest[i] != tail_mark() by {
            assert(rest[i] == s[i + n + 1]);
        }
        lemma_lines_have_no_mark(rest);
        assert forall|i: int| 0 <= i < lines(s).len() implies !is_marked(
            #[trigger] lines(s)[i],
        ) by {
            if i > 0 {
                assert(lines(s)[i] == lines(rest)[i - 1]);
            } else {
                assert(lines(s)[0] == without_cr(s.take(n)));
                if n > 0 {
                    assert(s.take(n)[0] == s[0]);
                }
            }
        }
    }
}

/// A file without the sign for the end of the file has no line that begins with it.
pub proof fn law_unmarked_file(content: Seq<char>)
    requires
        forall|i: int| 0 <= i < content.len() ==> #[trigger] content[i] != tail_mark(),
    ensures
        unmixed(lines(content)),
        stays_kept(lines(content)),
{
    lemma_lines_have_no_mark(content);
}

} // verus!
