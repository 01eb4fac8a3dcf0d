//! What the editor keeps of the file that it has read.

use vstd::prelude::*;

use crate::app::{blank_app, segment_wf, AppView};
use crate::config::{
    at_heading, before_equals, global_block, is_disabled_segment, is_marked, key_in, keyword,
    line_if, line_view, load_line, load_lines, load_start, loadable, loaded, marked, save_lines,
    save_text, segment_block, tail_block, tail_lines, tail_mark, uncommented, unmarked_lines,
    LineView, LoadView,
};
use crate::config_laws::{
    globals_persist, is_kept_line, kept, law_save_then_load, lemma_load_lines_add,
    lemma_load_one_line, lemma_trimmed, persists, reloaded, segment_persists, unattached,
};
use crate::globals::{law_default_globals_wf, law_with_value_keeps_wf};
use crate::segment::{
    after_color, after_gap, after_name, body_of, body_separable, has_color, has_gap, has_interval,
    line_of, name_in, segment_of, SegmentView,
};
use crate::segment_laws::{is_trimmed, lemma_color_in, one_word, rereadable};
use crate::text::{
    digit, end_run, is_white, lemma_end_run, lemma_lines_have_no_feed, lemma_run, lines, no_feed,
    run, solid, starts_with, trim, trim_end, trim_start, white,
};

verus! {

/// The lines that say nothing that the editor knows, in their order.
pub open spec fn kept_of(ls: Seq<Seq<char>>) -> Seq<Seq<char>>
    decreases ls.len(),
{
    if ls.len() == 0 {
        Seq::empty()
    } else {
        let front = kept_of(ls.drop_last());
        if line_view(ls.last()) == LineView::Kept {
            front.push(ls.last())
        } else {
            front
        }
    }
}

/// Whether a line denotes a segment.
pub open spec fn is_segment_line(l: Seq<char>) -> bool {
    line_view(l) is Segment
}

/// Whether a line denotes a setting or a segment.
pub open spec fn is_heading_line(l: Seq<char>) -> bool {
    line_view(l) != LineView::Kept
}

/// Whether `p` holds of every kept line that belongs to a later segment: those
/// behind the first setting or segment.
pub open spec fn before_segments(ls: Seq<Seq<char>>, p: spec_fn(Seq<char>) -> bool) -> bool {
    forall|i: int, j: int, k: int|
        0 <= i < j < k < ls.len() && #[trigger] is_heading_line(ls[i])
            && #[trigger] is_segment_line(ls[k]) && line_view(ls[j]) == LineView::Kept ==> p(
            #[trigger] ls[j],
        )
}

/// The lines that do not begin with the sign by which lines are marked for the
/// end of the file.
pub open spec fn plain_start() -> spec_fn(Seq<char>) -> bool {
    |l: Seq<char>| !is_marked(l)
}

/// The lines that are kept lines also without that sign.
pub open spec fn kept_unmarked() -> spec_fn(Seq<char>) -> bool {
    |l: Seq<char>| is_marked(l) ==> line_view(l.skip(1)) == LineView::Kept
}

/// Whether no kept line that belongs to a later segment begins with the sign by
/// which lines are marked for the end of the file.
pub open spec fn unmixed(ls: Seq<Seq<char>>) -> bool {
    before_segments(ls, plain_start())
}

/// Whether every kept line that belongs to a later segment and begins with that
/// sign is still a kept line without it.
pub open spec fn stays_kept(ls: Seq<Seq<char>>) -> bool {
    before_segments(ls, kept_unmarked())
}

/// The lines attached to segments that are written where they are attached.
pub open spec fn attached_block(segs: Seq<SegmentView>) -> Seq<Seq<char>>
    decreases segs.len(),
{
    if segs.len() == 0 {
        Seq::empty()
    } else {
        attached_block(segs.drop_last()) + unmarked_lines(segs.last().comments_above)
    }
}

/// The kept lines of a state, in the order in which they are written.
pub open spec fn kept_in(a: AppView) -> Seq<Seq<char>> {
    a.leading_comments + attached_block(a.segments) + tail_block(a.segments)
}

/// Whether `x` is what is left of `y` after striking out some elements.
pub open spec fn subsequence(x: Seq<Seq<char>>, y: Seq<Seq<char>>) -> bool
    decreases y.len(),
{
    ||| x.len() == 0
    ||| y.len() > 0 && x.len() > 0 && x.last() == y.last() && subsequence(
        x.drop_last(),
        y.drop_last(),
    )
    ||| y.len() > 0 && subsequence(x, y.drop_last())
}

proof fn lemma_subsequence_same(x: Seq<Seq<char>>)
    ensures
        subsequence(x, x),
    decreases x.len(),
{
    if x.len() > 0 {
        lemma_subsequence_same(x.drop_last());
    }
}

proof fn lemma_subsequence_add(
    x: Seq<Seq<char>>,
    y: Seq<Seq<char>>,
    u: Seq<Seq<char>>,
    v: Seq<Seq<char>>,
)
    requires
        subsequence(x, y),
        subsequence(u, v),
    ensures
        subsequence(x + u, y + v),
    decreases v.len(),
{
    if v.len() == 0 {
        assert(u.len() == 0);
        assert(x + u =~= x);
        assert(y + v =~= y);
    } else {
        assert((y + v).last() == v.last());
        assert((y + v).drop_last() =~= y + v.drop_last());
        if u.len() > 0 && u.last() == v.last() && subsequence(u.drop_last(), v.drop_last()) {
            lemma_subsequence_add(x, y, u.drop_last(), v.drop_last());
            assert((x + u).last() == u.last());
            assert((x + u).drop_last() =~= x + u.drop_last());
        } else {
            lemma_subsequence_add(x, y, u, v.drop_last());
        }
    }
}

proof fn lemma_attached_in_block(segs: Seq<SegmentView>)
    ensures
        subsequence(attached_block(segs), segment_block(segs)),
    decreases segs.len(),
{
    if segs.len() > 0 {
        lemma_attached_in_block(segs.drop_last());
        let above = unmarked_lines(segs.last().comments_above);
        let l = line_of(segs.last());
        lemma_subsequence_same(above);
        assert(above.push(l).drop_last() =~= above);
        assert(subsequence(above, above.push(l)));
        lemma_subsequence_add(
            attached_block(segs.drop_last()),
            segment_block(segs.drop_last()),
            above,
            above.push(l),
        );
    }
}

/// Every kept line of a state is written, and in order.
pub proof fn law_kept_lines_are_written(a: AppView)
    ensures
        subsequence(kept_in(a), save_lines(a)),
{
    let e = Seq::<Seq<char>>::empty();
    let gap = line_if(a.leading_comments.len() > 0, Seq::empty());
    let globals = global_block(a.globals);
    let blank = seq![Seq::<char>::empty()];
    lemma_subsequence_same(a.leading_comments);
    lemma_subsequence_same(tail_block(a.segments));
    lemma_attached_in_block(a.segments);
    assert(subsequence(e, gap));
    assert(subsequence(e, globals));
    assert(subsequence(e, blank));
    let x = a.leading_comments;
    lemma_subsequence_add(x, x, e, gap);
    lemma_subsequence_add(x + e, x + gap, e, globals);
    lemma_subsequence_add(x + e + e, x + gap + globals, e, blank);
    lemma_subsequence_add(
        x + e + e + e,
        x + gap + globals + blank,
        attached_block(a.segments),
        segment_block(a.segments),
    );
    assert(x + e + e + e =~= x);
    lemma_subsequence_add(
        x + attached_block(a.segments),
        x + gap + globals + blank + segment_block(a.segments),
        tail_block(a.segments),
        tail_block(a.segments),
    );
}

/// All lines attached to segments.
spec fn all_comments(segs: Seq<SegmentView>) -> Seq<Seq<char>>
    decreases segs.len(),
{
    if segs.len() == 0 {
        Seq::empty()
    } else {
        all_comments(segs.drop_last()) + segs.last().comments_above
    }
}

/// Whether `p` holds of every line.
spec fn each(ls: Seq<Seq<char>>, p: spec_fn(Seq<char>) -> bool) -> bool {
    forall|i: int| 0 <= i < ls.len() ==> p(#[trigger] ls[i])
}

/// Whether `p` holds of every line attached to a segment.
spec fn each_attached(segs: Seq<SegmentView>, p: spec_fn(Seq<char>) -> bool) -> bool {
    forall|i: int| 0 <= i < segs.len() ==> each(#[trigger] segs[i].comments_above, p)
}

/// Whether a line is a kept line after a setting or a segment.
spec fn is_after_heading(l: Seq<char>, ls: Seq<Seq<char>>) -> bool {
    exists|i: int, j: int|
        0 <= i < j < ls.len() && #[trigger] is_heading_line(ls[i]) && line_view(ls[j])
            == LineView::Kept && #[trigger] ls[j] == l
}

/// Where the lines in waiting come from, once a setting or a segment was read.
spec fn pending_from(st: LoadView, ls: Seq<Seq<char>>) -> bool {
    st.headed ==> forall|p: int|
        0 <= p < st.pending.len() ==> is_after_heading(#[trigger] st.pending[p], ls)
}

/// What holds after the lines `ls`, if `p` holds of those that belong to a later
/// segment.
spec fn load_inv(st: LoadView, ls: Seq<Seq<char>>, p: spec_fn(Seq<char>) -> bool) -> bool {
    &&& st.leading + all_comments(st.segments) + st.pending == kept_of(ls)
    &&& each_attached(st.segments, p)
    &&& pending_from(st, ls)
    &&& !st.headed ==> st.segments.len() == 0
    &&& st.headed ==> exists|i: int| 0 <= i < ls.len() && #[trigger] is_heading_line(ls[i])
}

proof fn lemma_load_inv(ls: Seq<Seq<char>>, p: spec_fn(Seq<char>) -> bool)
    requires
        before_segments(ls, p),
    ensures
        load_inv(load_lines(load_start(blank_app()), ls), ls, p),
    decreases ls.len(),
{
    let st0 = load_start(blank_app());
    if ls.len() == 0 {
        assert(st0.leading + all_comments(st0.segments) + st0.pending =~= kept_of(ls));
    } else {
        let front = ls.drop_last();
        let l = ls.last();
        assert(before_segments(front, p)) by {
            assert forall|i: int, j: int, k: int|
                0 <= i < j < k < front.len() && #[trigger] is_heading_line(front[i])
                    && #[trigger] is_segment_line(front[k]) && line_view(front[j])
                    == LineView::Kept implies p(#[trigger] front[j]) by {
                assert(front[i] == ls[i] && front[j] == ls[j] && front[k] == ls[k]);
            }
        }
        lemma_load_inv(front, p);
        let st = load_lines(st0, front);
        assert(ls =~= front + seq![l]);
        lemma_load_lines_add(st0, front, seq![l]);
        lemma_load_one_line(st, l);
        lemma_load_inv_step(st, front, l, p);
    }
}

proof fn lemma_load_inv_step(
    st: LoadView,
    front: Seq<Seq<char>>,
    l: Seq<char>,
    p: spec_fn(Seq<char>) -> bool,
)
    requires
        load_inv(st, front, p),
        before_segments(front + seq![l], p),
    ensures
        load_inv(load_line(st, l), front + seq![l], p),
{
    let ls = front + seq![l];
    let n = front.len() as int;
    let next = load_line(st, l);
    let h = at_heading(st);
    assert(ls.drop_last() =~= front);
    assert(ls.last() == l);
    assert forall|i: int| 0 <= i < n implies ls[i] == front[i] by {}
    assert(h.leading + all_comments(h.segments) + h.pending =~= kept_of(front)) by {
        if !st.headed {
            assert(all_comments(st.segments) =~= Seq::<Seq<char>>::empty());
        }
    }
    match line_view(l) {
        LineView::Segment(v) => {
            assert(next.segments.drop_last() =~= h.segments);
            assert(is_segment_line(ls[n]));
            assert(is_heading_line(ls[n]));
            assert(each(h.pending, p)) by {
                assert forall|q: int| 0 <= q < h.pending.len() implies p(
                    #[trigger] h.pending[q],
                ) by {
                    assert(is_after_heading(st.pending[q], front));
                    let (i, j) = choose|i: int, j: int|
                        0 <= i < j < front.len() && #[trigger] is_heading_line(front[i])
                            && line_view(front[j]) == LineView::Kept && #[trigger] front[j]
                            == st.pending[q];
                    assert(is_heading_line(ls[i]) && ls[j] == front[j]);
                    assert(p(ls[j]));
                }
            }
            assert(next.leading + all_comments(next.segments) + next.pending =~= h.leading
                + all_comments(h.segments) + h.pending);
            assert forall|i: int| 0 <= i < next.segments.len() implies each(
                #[trigger] next.segments[i].comments_above,
                p,
            ) by {
                if i < st.segments.len() {
                    assert(next.segments[i] == st.segments[i]);
                }
            }
        },
        LineView::Global(k, val) => {
            assert(is_heading_line(ls[n]));
            if st.headed {
                lemma_pending_from_longer(st, next, front, l, p);
            }
        },
        LineView::Kept => {
            lemma_pending_from_longer(st, next, front, l, p);
            if st.headed {
                let i = choose|i: int| 0 <= i < front.len() && #[trigger] is_heading_line(front[i]);
                assert(is_heading_line(ls[i]));
            }
            assert(next.leading + all_comments(next.segments) + next.pending =~= (st.leading
                + all_comments(st.segments) + st.pending).push(l));
        },
    }
}

proof fn lemma_pending_from_longer(
    st: LoadView,
    next: LoadView,
    front: Seq<Seq<char>>,
    l: Seq<char>,
    p: spec_fn(Seq<char>) -> bool,
)
    requires
        load_inv(st, front, p),
        next.headed == st.headed,
        next.pending == st.pending || (next.pending == st.pending.push(l) && line_view(l)
            == LineView::Kept),
    ensures
        pending_from(next, front + seq![l]),
{
    let ls = front + seq![l];
    if st.headed {
        assert forall|q: int| 0 <= q < next.pending.len() implies is_after_heading(
            #[trigger] next.pending[q],
            ls,
        ) by {
            if q < st.pending.len() {
                assert(next.pending[q] == st.pending[q]);
                assert(is_after_heading(st.pending[q], front));
                let (i, j) = choose|i: int, j: int|
                    0 <= i < j < front.len() && #[trigger] is_heading_line(front[i]) && line_view(
                        front[j],
                    ) == LineView::Kept && #[trigger] front[j] == st.pending[q];
                assert(is_heading_line(ls[i]) && ls[j] == next.pending[q]);
            } else {
                let i = choose|i: int| 0 <= i < front.len() && #[trigger] is_heading_line(front[i]);
                let j = front.len() as int;
                assert(is_heading_line(ls[i]) && ls[j] == next.pending[q]);
            }
        }
    }
}

/// Unmarked lines are written where they are attached; marked ones at the end.
proof fn lemma_split_marked(c: Seq<Seq<char>>, p: Seq<Seq<char>>)
    requires
        each(c, plain_start()),
    ensures
        unmarked_lines(c + marked(p)) == c,
        tail_lines(c + marked(p)) == p,
    decreases p.len(), c.len(),
{
    let s = c + marked(p);
    if p.len() > 0 {
        assert(s.drop_last() =~= c + marked(p.drop_last()));
        assert(s.last() == seq![tail_mark()] + p.last());
        assert(s.last().skip(1) =~= p.last());
        lemma_split_marked(c, p.drop_last());
        assert(p.drop_last().push(p.last()) =~= p);
    } else {
        assert(s =~= c);
        if c.len() > 0 {
            let d = c.drop_last();
            assert(each(d, plain_start())) by {
                assert forall|i: int| 0 <= i < d.len() implies plain_start()(#[trigger] d[i]) by {
                    assert(d[i] == c[i]);
                }
            }
            lemma_split_marked(d, p);
            assert(d + marked(p) =~= d);
            assert(plain_start()(c[c.len() - 1]));
            assert(d.push(c.last()) =~= c);
        } else {
            assert(p =~= Seq::<Seq<char>>::empty());
        }
    }
}

/// Without marked lines, all attached lines are written where they are attached.
proof fn lemma_attached_unmarked(segs: Seq<SegmentView>)
    requires
        each_attached(segs, plain_start()),
    ensures
        attached_block(segs) == all_comments(segs),
        tail_block(segs).len() == 0,
    decreases segs.len(),
{
    if segs.len() > 0 {
        let front = segs.drop_last();
        assert forall|i: int| 0 <= i < front.len() implies each(
            #[trigger] front[i].comments_above,
            plain_start(),
        ) by {
            assert(front[i] == segs[i]);
        }
        lemma_attached_unmarked(front);
        let c = segs[segs.len() - 1].comments_above;
        let e = Seq::<Seq<char>>::empty();
        lemma_split_marked(c, e);
        assert(c + marked(e) =~= c);
    }
}

/// The kept lines of a file are the kept lines of the state that it is read
/// into, in the same order.
pub proof fn law_kept_lines_are_read(content: Seq<char>)
    requires
        unmixed(lines(content)),
    ensures
        kept_in(loaded(blank_app(), content)) == kept_of(lines(content)),
{
    let ls = lines(content);
    let st = load_lines(load_start(blank_app()), ls);
    lemma_load_inv(ls, plain_start());
    let a = loaded(blank_app(), content);
    let segs = st.segments;
    lemma_attached_unmarked(segs);
    let e = Seq::<Seq<char>>::empty();
    assert(tail_block(segs) =~= e);
    if st.pending.len() == 0 {
        assert(st.pending =~= e);
        assert(kept_in(a) =~= st.leading + all_comments(segs) + st.pending);
    } else if segs.len() > 0 {
        let last = segs.last();
        let front = segs.drop_last();
        assert(each(segs[segs.len() - 1].comments_above, plain_start()));
        lemma_split_marked(last.comments_above, st.pending);
        lemma_split_marked(last.comments_above, e);
        assert(last.comments_above + marked(e) =~= last.comments_above);
        assert(a.segments.drop_last() =~= front);
        assert(tail_block(segs) =~= tail_block(front) + tail_lines(last.comments_above));
        assert(tail_block(front) =~= e);
        assert(kept_in(a) =~= st.leading + all_comments(segs) + st.pending);
    } else {
        assert(kept_in(a) =~= st.leading + all_comments(segs) + st.pending);
    }
}

/// Every comment, blank line, unknown setting and unknown line of a file that
/// was read stands, unchanged and in order, in the file that is written.
pub proof fn law_kept_lines_survive(content: Seq<char>)
    requires
        unmixed(lines(content)),
    ensures
        subsequence(kept_of(lines(content)), save_lines(loaded(blank_app(), content))),
{
    law_kept_lines_are_read(content);
    law_kept_lines_are_written(loaded(blank_app(), content));
}

/// A part of a text that fits in one line does so too.
proof fn lemma_no_feed_part(s: Seq<char>, from: int, to: int)
    requires
        no_feed(s),
        0 <= from <= to <= s.len(),
    ensures
        no_feed(s.skip(from)),
        no_feed(s.take(to)),
{
    assert forall|i: int| 0 <= i < s.skip(from).len() implies #[trigger] s.skip(from)[i]
        != '\n' by {
        assert(s.skip(from)[i] == s[i + from]);
    }
    assert forall|i: int| 0 <= i < s.take(to).len() implies #[trigger] s.take(to)[i] != '\n' by {
        assert(s.take(to)[i] == s[i]);
    }
}

proof fn lemma_no_feed_trim(s: Seq<char>)
    requires
        no_feed(s),
    ensures
        no_feed(trim_start(s)),
        no_feed(trim_end(s)),
        no_feed(trim(s)),
{
    let n = s.len() as int;
    lemma_run(s, white());
    lemma_end_run(s, white());
    lemma_no_feed_part(s, run(s, white()), n);
    lemma_no_feed_part(s, 0, n - end_run(s, white()));
    let t = trim_start(s);
    lemma_end_run(t, white());
    lemma_no_feed_part(t, 0, t.len() - end_run(t, white()));
}

/// The command in a line fits in one line.
proof fn lemma_no_feed_command(body: Seq<char>)
    requires
        no_feed(body),
    ensures
        no_feed(segment_of(body).command),
{
    let s0 = trim_start(body);
    lemma_no_feed_trim(body);
    lemma_run(s0, solid());
    lemma_no_feed_part(s0, run(s0, solid()), s0.len() as int);
    lemma_no_feed_trim(s0.skip(run(s0, solid())));
    let s1 = after_name(body);
    if has_gap(s1) {
        let rest = s1.skip(1);
        lemma_no_feed_part(s1, 1, s1.len() as int);
        lemma_run(rest, digit());
        lemma_no_feed_part(rest, run(rest, digit()), rest.len() as int);
        lemma_no_feed_trim(rest.skip(run(rest, digit())));
    }
    let s2 = after_gap(s1);
    assert(no_feed(s2));
    if has_color(s2) {
        lemma_no_feed_part(s2, 7, s2.len() as int);
        lemma_no_feed_trim(s2.skip(7));
    }
    let s3 = after_color(s2);
    assert(no_feed(s3));
    lemma_no_feed_trim(s3);
    let c = trim_end(s3);
    if has_interval(c) {
        lemma_end_run(c, digit());
        let k = c.len() - end_run(c, digit());
        lemma_no_feed_part(c, 0, k);
        lemma_no_feed_trim(c.take(k));
    }
}

/// A body with something solid in it has a name.
proof fn lemma_has_name(body: Seq<char>)
    requires
        body.len() > 0,
        !is_white(body.last()),
    ensures
        name_in(body).len() > 0,
{
    lemma_run(body, white());
    let s = trim_start(body);
    assert(s.len() > 0) by {
        if run(body, white()) == body.len() {
            assert(white()(body[body.len() - 1]));
        }
    }
    assert(!is_white(s[0]));
    lemma_run(s, solid());
    if run(s, solid()) == 0 {
        assert(!solid()(s[0]));
    }
}

/// The segments that are written as one line which denotes some segment: the
/// name is one word, the colour absent or canonical, the command on one line.
pub open spec fn is_writable(v: SegmentView) -> bool {
    v.name.len() > 0 && one_word(v.name) && segment_wf(v) && no_feed(v.command)
}

/// What the body behind a keyword is like.
proof fn lemma_keyword_body(t: Seq<char>)
    requires
        starts_with(t, keyword()),
        !is_white(t.last()),
        no_feed(t),
    ensures
        is_writable(segment_of(t.skip(8))),
{
    let body = t.skip(8);
    reveal_strlit("segment ");
    assert(t.take(8)[7] == t[7]);
    assert(keyword()[7] == ' ');
    assert(t.len() > 8);
    assert(t.skip(8).last() == t.last());
    lemma_has_name(body);
    lemma_run(trim_start(body), solid());
    lemma_color_in(after_gap(after_name(body)));
    lemma_no_feed_part(t, 8, t.len() as int);
    lemma_no_feed_command(body);
    assert forall|i: int| 0 <= i < name_in(body).len() implies !is_white(
        #[trigger] name_in(body)[i],
    ) by {
        assert(solid()(trim_start(body)[i]));
    }
}

/// What a line denotes fits in one line.
proof fn lemma_line_parts(raw: Seq<char>)
    requires
        no_feed(raw),
    ensures
        match line_view(raw) {
            LineView::Segment(v) => is_writable(v) && v.comments_above.len() == 0,
            LineView::Global(k, val) => is_trimmed(val) && no_feed(val),
            LineView::Kept => is_kept_line(raw),
        },
{
    let t = trim(raw);
    lemma_trimmed(raw);
    lemma_no_feed_trim(raw);
    if is_disabled_segment(t) {
        let r = t.skip(1);
        let u = uncommented(t);
        lemma_no_feed_part(t, 1, t.len() as int);
        lemma_no_feed_trim(r);
        reveal_strlit("segment ");
        lemma_run(r, white());
        assert(u.len() >= 8);
        assert(u.last() == t.last());
        lemma_keyword_body(u);
    } else if t.len() == 0 || t[0] == '#' {
    } else if starts_with(t, keyword()) {
        lemma_keyword_body(t);
    } else if key_in(t) is Some {
        let n = run(t, before_equals());
        lemma_run(t, before_equals());
        lemma_no_feed_part(t, n + 1, t.len() as int);
        lemma_trimmed(t.skip(n + 1));
        lemma_no_feed_trim(t.skip(n + 1));
    }
}

/// What holds of a segment that was read.
spec fn segment_inv(v: SegmentView) -> bool {
    kept(v.comments_above) && is_writable(v)
}

/// What holds of everything that was read, but for the notation of the segments.
spec fn read_inv(st: LoadView) -> bool {
    &&& globals_persist(st.globals)
    &&& kept(st.leading)
    &&& kept(st.pending)
    &&& forall|i: int| 0 <= i < st.segments.len() ==> segment_inv(#[trigger] st.segments[i])
}

proof fn lemma_kept_add(a: Seq<Seq<char>>, b: Seq<Seq<char>>)
    requires
        kept(a),
        kept(b),
    ensures
        kept(a + b),
{
    assert forall|i: int| 0 <= i < (a + b).len() implies is_kept_line(#[trigger] (a + b)[i]) by {
        if i < a.len() {
            assert((a + b)[i] == a[i]);
        } else {
            assert((a + b)[i] == b[i - a.len()]);
        }
    }
}

proof fn lemma_read_inv_step(st: LoadView, raw: Seq<char>)
    requires
        read_inv(st),
        no_feed(raw),
    ensures
        read_inv(load_line(st, raw)),
{
    lemma_line_parts(raw);
    lemma_kept_add(st.leading, st.pending);
    let next = load_line(st, raw);
    match line_view(raw) {
        LineView::Segment(v) => {
            assert forall|i: int| 0 <= i < next.segments.len() implies segment_inv(
                #[trigger] next.segments[i],
            ) by {
                if i < st.segments.len() {
                    assert(next.segments[i] == st.segments[i]);
                }
            }
        },
        LineView::Global(k, val) => {
            law_with_value_keeps_wf(st.globals, k, val);
        },
        LineView::Kept => {
            assert(kept(seq![raw]));
            lemma_kept_add(st.pending, seq![raw]);
            assert(st.pending.push(raw) =~= st.pending + seq![raw]);
        },
    }
}

proof fn lemma_read_inv(st: LoadView, ls: Seq<Seq<char>>)
    requires
        read_inv(st),
        forall|i: int| 0 <= i < ls.len() ==> no_feed(#[trigger] ls[i]),
    ensures
        read_inv(load_lines(st, ls)),
    decreases ls.len(),
{
    if ls.len() > 0 {
        let rest = ls.skip(1);
        assert forall|i: int| 0 <= i < rest.len() implies no_feed(#[trigger] rest[i]) by {
            assert(rest[i] == ls[i + 1]);
        }
        lemma_read_inv_step(st, ls[0]);
        lemma_read_inv(load_line(st, ls[0]), rest);
    }
}

/// Whether every segment can be written so that it is read back.
pub open spec fn notation_persists(segs: Seq<SegmentView>) -> bool {
    forall|i: int|
        0 <= i < segs.len() ==> rereadable(#[trigger] segs[i]) && body_separable(body_of(segs[i]))
}

/// Kept lines are kept lines at both places where they are written.
proof fn lemma_split_kept(c: Seq<Seq<char>>, p: Seq<Seq<char>>)
    requires
        kept(c),
        each(c, kept_unmarked()),
        kept(p),
    ensures
        kept(unmarked_lines(c + marked(p))),
        kept(tail_lines(c + marked(p))),
    decreases p.len(), c.len(),
{
    let s = c + marked(p);
    if p.len() > 0 {
        let q = p.drop_last();
        assert(s.drop_last() =~= c + marked(q));
        assert(s.last() == seq![tail_mark()] + p.last());
        assert(s.last().skip(1) =~= p.last());
        assert forall|i: int| 0 <= i < q.len() implies is_kept_line(#[trigger] q[i]) by {
            assert(q[i] == p[i]);
        }
        lemma_split_kept(c, q);
        assert(is_kept_line(p[p.len() - 1]));
    } else if c.len() > 0 {
        let d = c.drop_last();
        assert(s =~= c);
        assert(d + marked(p) =~= d);
        assert forall|i: int| 0 <= i < d.len() implies is_kept_line(#[trigger] d[i])
            && kept_unmarked()(d[i]) by {
            assert(d[i] == c[i]);
        }
        lemma_split_kept(d, p);
        let l = c[c.len() - 1];
        assert(is_kept_line(l));
        assert(kept_unmarked()(l));
        if is_marked(l) {
            lemma_no_feed_part(l, 1, l.len() as int);
        }
    }
}

/// The states whose kept lines are written as kept lines, and whose settings and
/// segments are written as settings and segments.
pub open spec fn keeps_lines(a: AppView) -> bool {
    &&& globals_persist(a.globals)
    &&& kept(a.leading_comments)
    &&& segments_keep_lines(a.segments)
}

/// The segments of such a state.
pub open spec fn segments_keep_lines(segs: Seq<SegmentView>) -> bool {
    forall|i: int|
        0 <= i < segs.len() ==> {
            &&& is_writable(#[trigger] segs[i])
            &&& kept(unmarked_lines(segs[i].comments_above))
            &&& kept(tail_lines(segs[i].comments_above))
        }
}

/// A state that was read from a file is written with its kept lines as kept
/// lines, its settings as settings and its segments as segments.
pub proof fn law_loaded_keeps_lines(content: Seq<char>)
    requires
        stays_kept(lines(content)),
    ensures
        keeps_lines(loaded(blank_app(), content)),
{
    let ls = lines(content);
    let st0 = load_start(blank_app());
    let st = load_lines(st0, ls);
    let a = loaded(blank_app(), content);
    law_default_globals_wf();
    lemma_lines_have_no_feed(content);
    lemma_read_inv(st0, ls);
    lemma_load_inv(ls, kept_unmarked());
    lemma_kept_add(st.leading, st.pending);
    let e = Seq::<Seq<char>>::empty();
    assert forall|i: int| 0 <= i < a.segments.len() implies is_writable(#[trigger] a.segments[i])
        && kept(unmarked_lines(a.segments[i].comments_above)) && kept(
        tail_lines(a.segments[i].comments_above),
    ) by {
        let c = st.segments[i].comments_above;
        assert(each(c, kept_unmarked()));
        assert(segment_inv(st.segments[i]));
        let p = if st.pending.len() > 0 && i == st.segments.len() - 1 {
            st.pending
        } else {
            e
        };
        lemma_split_kept(c, p);
        assert(c + marked(e) =~= c);
        assert(a.segments[i].comments_above =~= c + marked(p));
    }
}

/// A state that was read from a file can be held by a file, if the notation of
/// its segments denotes them.
pub proof fn law_loaded_persists(content: Seq<char>)
    requires
        stays_kept(lines(content)),
        notation_persists(loaded(blank_app(), content).segments),
    ensures
        persists(loaded(blank_app(), content)),
{
    law_loaded_keeps_lines(content);
    let segs = loaded(blank_app(), content).segments;
    assert forall|i: int| 0 <= i < segs.len() implies segment_persists(#[trigger] segs[i]) by {
        assert(is_writable(segs[i]));
        assert(rereadable(segs[i]));
    }
}

/// Reading a file, writing what was read and reading that again gives the same
/// settings and the same segments.
pub proof fn law_load_save_load(content: Seq<char>)
    requires
        stays_kept(lines(content)),
        notation_persists(loaded(blank_app(), content).segments),
    ensures
        ({
            let a = loaded(blank_app(), content);
            let b = loaded(blank_app(), save_text(a));
            &&& loadable(save_text(a))
            &&& b == reloaded(a)
            &&& b.globals == a.globals
            &&& b.segments.len() == a.segments.len()
            &&& forall|i: int|
                0 <= i < a.segments.len() ==> unattached(#[trigger] b.segments[i]) == unattached(
                    a.segments[i],
                )
        }),
{
    law_loaded_persists(content);
    law_save_then_load(loaded(blank_app(), content));
}

} // verus!
