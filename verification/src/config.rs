//! The configuration file: reading it into the editor's state and writing the
//! state back.

use vstd::prelude::*;
use vstd::slice::slice_subrange;
use vstd::string::StringExecFns;

use crate::app::{app_wf, blank_app, segment_views, segment_wf, App, AppView};
use crate::color::{is_separable, separable};
use crate::globals::{
    globals_wf, is_color_key, key_named, law_with_value_keeps_wf, with_value, GlobalKey, Globals,
    GlobalsView,
};
use crate::number::{decimal, push_decimal};
use crate::segment::{
    after_gap, after_name, body_separable, is_body_separable, line_of, read_body, segment_of,
    serialize_segment, Segment, SegmentView,
};
use crate::segment_laws::lemma_color_in;
use crate::text::{
    chars_of, in_line, is_text, lemma_run_is, lemma_texts_add, lemma_texts_push, lemma_unlines_add,
    lemma_unlines_push, lines, run, skip_white, starts_with, string_of, strip, texts, trim,
    trim_start, unlines,
};

verus! {

/// What a line of the file says.
pub enum LineView {
    /// A segment, switched on or off.
    Segment(SegmentView),
    /// The value of a setting.
    Global(GlobalKey, Seq<char>),
    /// Nothing that the editor knows: a comment, a blank line, an unknown setting.
    Kept,
}

/// Everything but the equals sign.
pub open spec fn before_equals() -> spec_fn(char) -> bool {
    |c: char| c != '='
}

/// The keyword that introduces a segment.
pub open spec fn keyword() -> Seq<char> {
    "segment "@
}

/// A line after its comment sign: where the keyword of a switched-off segment stands.
pub open spec fn uncommented(t: Seq<char>) -> Seq<char> {
    trim_start(t.skip(1))
}

/// Whether a trimmed line denotes a switched-off segment.
pub open spec fn is_disabled_segment(t: Seq<char>) -> bool {
    t.len() > 0 && t[0] == '#' && starts_with(uncommented(t), keyword())
}

/// The setting that a trimmed line names: the word before the first equals sign.
pub open spec fn key_in(t: Seq<char>) -> Option<GlobalKey> {
    let n = run(t, before_equals());
    if n < t.len() {
        key_named(trim(t.take(n)))
    } else {
        None
    }
}

/// What stands behind the first equals sign.
pub open spec fn value_in(t: Seq<char>) -> Seq<char> {
    trim(t.skip(run(t, before_equals()) + 1))
}

/// What a line says.
pub open spec fn line_view(raw: Seq<char>) -> LineView {
    let t = trim(raw);
    if is_disabled_segment(t) {
        LineView::Segment(
            SegmentView { enabled: false, ..segment_of(uncommented(t).skip(8)) },
        )
    } else if t.len() == 0 || t[0] == '#' {
        LineView::Kept
    } else if starts_with(t, keyword()) {
        LineView::Segment(segment_of(t.skip(8)))
    } else {
        match key_in(t) {
            Some(k) => LineView::Global(k, value_in(t)),
            None => LineView::Kept,
        }
    }
}

/// Whether the colour in a line, if there is a place for one, can be looked at.
pub open spec fn line_separable(raw: Seq<char>) -> bool {
    let t = trim(raw);
    if is_disabled_segment(t) {
        body_separable(uncommented(t).skip(8))
    } else if t.len() == 0 || t[0] == '#' {
        true
    } else if starts_with(t, keyword()) {
        body_separable(t.skip(8))
    } else {
        match key_in(t) {
            Some(k) => is_color_key(k) ==> separable(value_in(t)),
            None => true,
        }
    }
}

/// Whether every line of a text can be looked at.
pub open spec fn loadable(content: Seq<char>) -> bool {
    forall|i: int| 0 <= i < lines(content).len() ==> line_separable(#[trigger] lines(content)[i])
}

/// The state of reading a file: what was read, and the kept lines that wait for
/// the segment they belong to.
#[verifier::ext_equal]
pub struct LoadView {
    pub globals: GlobalsView,
    pub segments: Seq<SegmentView>,
    pub leading: Seq<Seq<char>>,
    pub pending: Seq<Seq<char>>,
    /// Whether a setting or a segment was read.
    pub headed: bool,
}

/// The state at a setting or a segment: at the first one, the lines in waiting
/// turn out to lead the file.
pub open spec fn at_heading(st: LoadView) -> LoadView {
    if st.headed {
        st
    } else {
        LoadView {
            leading: st.leading + st.pending,
            pending: Seq::empty(),
            headed: true,
            ..st
        }
    }
}

/// One line further. The lines kept before the first setting or segment lead the
/// file; those kept later belong to the next segment.
pub open spec fn load_line(st: LoadView, raw: Seq<char>) -> LoadView {
    let h = at_heading(st);
    match line_view(raw) {
        LineView::Segment(v) => LoadView {
            segments: h.segments.push(SegmentView { comments_above: h.pending, ..v }),
            pending: Seq::empty(),
            ..h
        },
        LineView::Global(k, val) => LoadView { globals: with_value(h.globals, k, val), ..h },
        LineView::Kept => LoadView { pending: st.pending.push(raw), ..st },
    }
}

/// All lines, one after the other.
pub open spec fn load_lines(st: LoadView, ls: Seq<Seq<char>>) -> LoadView
    decreases ls.len(),
{
    if ls.len() == 0 {
        st
    } else {
        load_lines(load_line(st, ls[0]), ls.skip(1))
    }
}

/// The sign that marks a line for the end of the file.
pub open spec fn tail_mark() -> char {
    '\u{1}'
}

/// Lines marked for the end of the file.
pub open spec fn marked(ls: Seq<Seq<char>>) -> Seq<Seq<char>> {
    Seq::new(ls.len(), |i: int| seq![tail_mark()] + ls[i])
}

/// The end of the file. Lines kept after the last segment are attached to it
/// with a mark, or lead the file if it has no segment.
pub open spec fn settled(st: LoadView) -> LoadView {
    if st.pending.len() == 0 {
        st
    } else if st.segments.len() > 0 {
        let last = st.segments.last();
        LoadView {
            segments: st.segments.update(
                st.segments.len() - 1,
                SegmentView { comments_above: last.comments_above + marked(st.pending), ..last },
            ),
            pending: Seq::empty(),
            ..st
        }
    } else {
        LoadView { leading: st.leading + st.pending, pending: Seq::empty(), ..st }
    }
}

/// The state of reading before the first line.
pub open spec fn load_start(a: AppView) -> LoadView {
    LoadView {
        globals: a.globals,
        segments: a.segments,
        leading: a.leading_comments,
        pending: Seq::empty(),
        headed: false,
    }
}

/// The state after a file was read into `a`.
pub open spec fn loaded(a: AppView, content: Seq<char>) -> AppView {
    let st = settled(load_lines(load_start(a), lines(content)));
    AppView {
        globals: st.globals,
        segments: st.segments,
        leading_comments: st.leading,
        ..a
    }
}

/// Whether a line is marked for the end of the file.
pub open spec fn is_marked(l: Seq<char>) -> bool {
    l.len() > 0 && l[0] == tail_mark()
}

/// The lines that are written where they are attached.
pub open spec fn unmarked_lines(ls: Seq<Seq<char>>) -> Seq<Seq<char>>
    decreases ls.len(),
{
    if ls.len() == 0 {
        Seq::empty()
    } else {
        let front = unmarked_lines(ls.drop_last());
        if is_marked(ls.last()) {
            front
        } else {
            front.push(ls.last())
        }
    }
}

/// The lines that are written at the end of the file, without their marks.
pub open spec fn tail_lines(ls: Seq<Seq<char>>) -> Seq<Seq<char>>
    decreases ls.len(),
{
    if ls.len() == 0 {
        Seq::empty()
    } else {
        let front = tail_lines(ls.drop_last());
        if is_marked(ls.last()) {
            front.push(ls.last().skip(1))
        } else {
            front
        }
    }
}

/// The segments, each after the lines that are attached to it.
pub open spec fn segment_block(segs: Seq<SegmentView>) -> Seq<Seq<char>>
    decreases segs.len(),
{
    if segs.len() == 0 {
        Seq::empty()
    } else {
        let last = segs.last();
        segment_block(segs.drop_last()) + unmarked_lines(last.comments_above).push(line_of(last))
    }
}

/// The lines that all segments carry for the end of the file.
pub open spec fn tail_block(segs: Seq<SegmentView>) -> Seq<Seq<char>>
    decreases segs.len(),
{
    if segs.len() == 0 {
        Seq::empty()
    } else {
        tail_block(segs.drop_last()) + tail_lines(segs.last().comments_above)
    }
}

/// One line, or none.
pub open spec fn line_if(b: bool, l: Seq<char>) -> Seq<Seq<char>> {
    if b {
        seq![l]
    } else {
        Seq::empty()
    }
}

/// The settings. Those with a default of the bar's own are left out while they
/// have it.
pub open spec fn global_block(g: GlobalsView) -> Seq<Seq<char>> {
    seq![
        "height     = "@ + decimal(g.height as nat),
        "top_offset = "@ + decimal(g.top_offset as nat),
        "bg         = "@ + g.bg,
        "fg         = "@ + g.fg,
        "gap        = "@ + decimal(g.gap as nat),
    ] + line_if(g.font.len() > 0, "font       = "@ + g.font) + line_if(
        g.char_width != 0,
        "char_width = "@ + decimal(g.char_width as nat),
    ) + line_if(g.baseline != 0, "baseline   = "@ + decimal(g.baseline as nat))
}

/// The lines of the file that holds a state.
pub open spec fn save_lines(a: AppView) -> Seq<Seq<char>> {
    a.leading_comments + line_if(a.leading_comments.len() > 0, Seq::empty()) + global_block(
        a.globals,
    ) + seq![Seq::<char>::empty()] + segment_block(a.segments) + tail_block(a.segments)
}

/// The file that holds a state.
pub open spec fn save_text(a: AppView) -> Seq<char> {
    unlines(save_lines(a))
}

/// What a line says, as the reader hands it on.
enum Line {
    Segment(Segment),
    Global(GlobalKey, Vec<char>),
    Kept,
}

/// Whether a text begins with the keyword of a segment.
fn has_keyword(s: &[char]) -> (b: bool)
    ensures
        b == starts_with(s@, keyword()),
{
    proof {
        reveal_strlit("segment ");
    }
    s.len() >= 8 && is_text(slice_subrange(s, 0, 8), "segment ")
}

/// The position of the first equals sign, or the length if there is none.
fn find_equals(t: &[char]) -> (n: usize)
    ensures
        n == run(t@, before_equals()),
        n <= t.len(),
{
    let mut n: usize = 0;
    while n < t.len() && t[n] != '='
        invariant
            n <= t.len(),
            forall|k: int| 0 <= k < n ==> #[trigger] t@[k] != '=',
        decreases t.len() - n,
    {
        n += 1;
    }
    proof {
        lemma_run_is(t@, before_equals(), n as int);
    }
    n
}

/// Reads one line.
fn read_line(raw: &[char]) -> (r: Line)
    requires
        line_separable(raw@),
    ensures
        match r {
            Line::Segment(seg) => line_view(raw@) == LineView::Segment(seg@),
            Line::Global(k, val) => line_view(raw@) == LineView::Global(k, val@),
            Line::Kept => line_view(raw@) == LineView::Kept,
        },
{
    proof {
        reveal_strlit("segment ");
    }
    let t = strip(raw);
    if t.len() == 0 {
        return Line::Kept;
    }
    if t[0] == '#' {
        let rest = slice_subrange(t, 1, t.len());
        assert(rest@ == t@.skip(1));
        let s = skip_white(rest);
        if has_keyword(s) {
            let body = slice_subrange(s, 8, s.len());
            assert(body@ == s@.skip(8));
            let mut seg = read_body(body);
            seg.enabled = false;
            return Line::Segment(seg);
        }
        return Line::Kept;
    }
    if has_keyword(t) {
        let body = slice_subrange(t, 8, t.len());
        assert(body@ == t@.skip(8));
        return Line::Segment(read_body(body));
    }
    let n: usize = find_equals(t);
    if n < t.len() {
        let word = slice_subrange(t, 0, n);
        let val = slice_subrange(t, n + 1, t.len());
        assert(word@ == t@.take(n as int));
        assert(val@ == t@.skip(n + 1));
        if let Some(k) = GlobalKey::named(strip(word)) {
            return Line::Global(k, vstd::slice::slice_to_vec(strip(val)));
        }
    }
    Line::Kept
}

/// Decides [`line_separable`].
fn is_line_separable(raw: &[char]) -> (b: bool)
    ensures
        b == line_separable(raw@),
{
    proof {
        reveal_strlit("segment ");
    }
    let t = strip(raw);
    if t.len() == 0 {
        return true;
    }
    if t[0] == '#' {
        let rest = slice_subrange(t, 1, t.len());
        assert(rest@ == t@.skip(1));
        let s = skip_white(rest);
        if has_keyword(s) {
            let body = slice_subrange(s, 8, s.len());
            assert(body@ == s@.skip(8));
            return is_body_separable(body);
        }
        return true;
    }
    if has_keyword(t) {
        let body = slice_subrange(t, 8, t.len());
        assert(body@ == t@.skip(8));
        return is_body_separable(body);
    }
    let n: usize = find_equals(t);
    if n < t.len() {
        let word = slice_subrange(t, 0, n);
        let val = slice_subrange(t, n + 1, t.len());
        assert(word@ == t@.take(n as int));
        assert(val@ == t@.skip(n + 1));
        match GlobalKey::named(strip(word)) {
            Some(GlobalKey::Bg) | Some(GlobalKey::Fg) => {
                let code = string_of(strip(val));
                return is_separable(code.as_str());
            },
            _ => {},
        }
    }
    true
}

/// Splits the first line off a text that is not empty.
fn first_line(s: &[char]) -> (r: (&[char], &[char]))
    requires
        s@.len() > 0,
    ensures
        lines(s@) == seq![r.0@] + lines(r.1@),
        r.1@.len() < s@.len(),
{
    let mut n: usize = 0;
    while n < s.len() && s[n] != '\n'
        invariant
            n <= s.len(),
            forall|k: int| 0 <= k < n ==> #[trigger] s@[k] != '\n',
        decreases s.len() - n,
    {
        n += 1;
    }
    proof {
        lemma_run_is(s@, in_line(), n as int);
    }
    if n == s.len() {
        let rest = slice_subrange(s, n, n);
        assert(lines(rest@) == Seq::<Seq<char>>::empty());
        assert(lines(s@) =~= seq![s@] + lines(rest@));
        return (s, rest);
    }
    let rest = slice_subrange(s, n + 1, s.len());
    assert(rest@ == s@.skip(n + 1));
    let full = slice_subrange(s, 0, n);
    assert(full@ == s@.take(n as int));
    if n > 0 && s[n - 1] == '\r' {
        let line = slice_subrange(s, 0, n - 1);
        assert(line@ == full@.drop_last());
        (line, rest)
    } else {
        (full, rest)
    }
}

/// Decides [`loadable`], which [`App::load_config`] asks of its argument.
pub fn is_loadable(content: &str) -> (b: bool)
    ensures
        b == loadable(content@),
{
    let cs = chars_of(content);
    let mut rest = cs.as_slice();
    let ghost mut done: nat = 0;
    while rest.len() > 0
        invariant
            cs@ == content@,
            done + lines(rest@).len() == lines(content@).len(),
            lines(rest@) == lines(content@).skip(done as int),
            forall|i: int| 0 <= i < done ==> line_separable(#[trigger] lines(content@)[i]),
        decreases rest@.len(),
    {
        let (line, next) = first_line(rest);
        let ghost all = lines(content@);
        assert(all[done as int] == line@) by {
            assert(all.skip(done as int)[0] == all[done as int]);
        }
        if !is_line_separable(line) {
            return false;
        }
        proof {
            assert(lines(next@) =~= all.skip(done as int + 1)) by {
                assert(lines(next@) =~= lines(rest@).skip(1));
            }
            done = done + 1;
        }
        rest = next;
    }
    assert(lines(rest@).len() == 0);
    true
}

/// Appends a line.
fn push_line(out: &mut String, line: &str)
    ensures
        final(out)@ == old(out)@ + line@.push('\n'),
{
    out.append(line);
    out.push('\n');
    assert(out@ =~= old(out)@ + line@.push('\n'));
}

/// The state of reading that a state of the editor, a list of kept lines and a
/// flag make up.
pub open spec fn load_state(a: AppView, pending: Seq<Seq<char>>, headed: bool) -> LoadView {
    LoadView { pending, headed, ..load_start(a) }
}

/// What holds of the segments and settings while a file is read.
pub open spec fn load_wf(st: LoadView) -> bool {
    &&& globals_wf(st.globals)
    &&& forall|i: int| 0 <= i < st.segments.len() ==> segment_wf(#[trigger] st.segments[i])
}

proof fn lemma_load_line_wf(st: LoadView, raw: Seq<char>)
    requires
        load_wf(st),
    ensures
        load_wf(load_line(st, raw)),
        load_line(st, raw).segments.len() >= st.segments.len(),
{
    let t = trim(raw);
    lemma_color_in(after_gap(after_name(uncommented(t).skip(8))));
    lemma_color_in(after_gap(after_name(t.skip(8))));
    match line_view(raw) {
        LineView::Global(k, val) => law_with_value_keeps_wf(st.globals, k, val),
        _ => {},
    }
}

proof fn lemma_load_lines_wf(st: LoadView, ls: Seq<Seq<char>>)
    requires
        load_wf(st),
    ensures
        load_wf(load_lines(st, ls)),
        load_lines(st, ls).segments.len() >= st.segments.len(),
    decreases ls.len(),
{
    if ls.len() > 0 {
        lemma_load_line_wf(st, ls[0]);
        lemma_load_lines_wf(load_line(st, ls[0]), ls.skip(1));
    }
}

/// Reading any file leads from a state of the editor to a state of the editor.
pub proof fn law_loaded_is_wf(a: AppView, content: Seq<char>)
    requires
        app_wf(a),
    ensures
        app_wf(loaded(a, content)),
{
    lemma_load_lines_wf(load_start(a), lines(content));
}

/// A line with the mark for the end of the file.
fn mark_line(l: &str) -> (r: String)
    ensures
        r@ == seq![tail_mark()] + l@,
{
    let mut r = String::new();
    r.push('\u{1}');
    r.append(l);
    assert(r@ =~= seq![tail_mark()] + l@);
    r
}

/// Appends lines with the mark for the end of the file.
fn attach_marked(to: &mut Vec<String>, ls: &Vec<String>)
    ensures
        texts(final(to)@) == texts(old(to)@) + marked(texts(ls@)),
{
    let mut i: usize = 0;
    while i < ls.len()
        invariant
            i <= ls.len(),
            texts(to@) == texts(old(to)@) + marked(texts(ls@)).take(i as int),
        decreases ls.len() - i,
    {
        let l = mark_line(ls[i].as_str());
        proof {
            lemma_texts_push(to@, l);
            let m = marked(texts(ls@));
            assert(m.take(i + 1) =~= m.take(i as int).push(m[i as int]));
        }
        to.push(l);
        i += 1;
    }
    assert(marked(texts(ls@)).take(i as int) =~= marked(texts(ls@)));
}

impl App {
    /// The state of the editor at its start: that of the file, if one could be read.
    pub fn new(content: Option<&str>) -> (a: App)
        requires
            content is Some ==> loadable(content->0@),
        ensures
            a@ == match content {
                Some(c) => loaded(blank_app(), c@),
                None => blank_app(),
            },
            app_wf(a@),
    {
        let mut a = App::blank();
        if let Some(c) = content {
            a.load_config(c);
        }
        a
    }

    /// Applies a line `key = val`. Returns whether `key` is a setting.
    pub fn apply_global(&mut self, key: &str, val: &str) -> (known: bool)
        requires
            key_named(key@) is Some && is_color_key(key_named(key@)->0) ==> separable(val@),
        ensures
            known == (key_named(key@) is Some),
            final(self)@ == match key_named(key@) {
                Some(k) => AppView { globals: with_value(old(self)@.globals, k, val@), ..old(self)@
                },
                None => old(self)@,
            },
            app_wf(old(self)@) ==> app_wf(final(self)@),
    {
        let word = chars_of(key);
        match GlobalKey::named(word.as_slice()) {
            Some(k) => {
                let v = chars_of(val);
                self.globals.set(k, v.as_slice());
                proof {
                    if app_wf(old(self)@) {
                        law_with_value_keeps_wf(old(self)@.globals, k, val@);
                    }
                }
                true
            },
            None => false,
        }
    }

    /// Comes to a setting or a segment.
    fn reach_heading(&mut self, pending: &mut Vec<String>, headed: &mut bool)
        ensures
            load_state(final(self)@, texts(final(pending)@), *final(headed)) == at_heading(
                load_state(old(self)@, texts(old(pending)@), *old(headed)),
            ),
            final(self)@.cat_index == old(self)@.cat_index,
            final(self)@.item_index == old(self)@.item_index,
            final(self)@.dirty == old(self)@.dirty,
    {
        if !*headed {
            proof {
                lemma_texts_add(self.leading_comments@, pending@);
            }
            self.leading_comments.append(pending);
            *headed = true;
            assert(texts(pending@) =~= Seq::<Seq<char>>::empty());
        }
    }

    /// Takes one line in.
    fn load_one(&mut self, line: &[char], pending: &mut Vec<String>, headed: &mut bool)
        requires
            line_separable(line@),
        ensures
            load_state(final(self)@, texts(final(pending)@), *final(headed)) == load_line(
                load_state(old(self)@, texts(old(pending)@), *old(headed)),
                line@,
            ),
            final(self)@.cat_index == old(self)@.cat_index,
            final(self)@.item_index == old(self)@.item_index,
            final(self)@.dirty == old(self)@.dirty,
    {
        let ghost st = load_state(self@, texts(pending@), *headed);
        match read_line(line) {
            Line::Segment(mut seg) => {
                self.reach_heading(pending, headed);
                let ghost h = at_heading(st);
                proof {
                    lemma_texts_add(seg.comments_above@, pending@);
                }
                seg.comments_above.append(pending);
                self.segments.push(seg);
                assert(texts(pending@) =~= Seq::<Seq<char>>::empty());
                assert(seg@.comments_above =~= h.pending);
                assert(segment_views(self.segments@) =~= h.segments.push(seg@));
                assert(load_state(self@, texts(pending@), *headed) =~= load_line(st, line@));
            },
            Line::Global(k, val) => {
                self.reach_heading(pending, headed);
                self.globals.set(k, val.as_slice());
            },
            Line::Kept => {
                let l = string_of(line);
                proof {
                    lemma_texts_push(pending@, l);
                }
                pending.push(l);
            },
        }
    }

    /// Reads the text of a configuration file into the state.
    pub fn load_config(&mut self, content: &str)
        requires
            loadable(content@),
        ensures
            final(self)@ == loaded(old(self)@, content@),
            app_wf(old(self)@) ==> app_wf(final(self)@),
    {
        let cs = chars_of(content);
        let mut rest = cs.as_slice();
        let mut pending: Vec<String> = Vec::new();
        let mut headed: bool = false;
        proof {
            assert(texts(pending@) =~= Seq::<Seq<char>>::empty());
            if app_wf(self@) {
                law_loaded_is_wf(self@, content@);
            }
        }
        while rest.len() > 0
            invariant
                load_lines(load_state(self@, texts(pending@), headed), lines(rest@)) == load_lines(
                    load_start(old(self)@),
                    lines(content@),
                ),
                forall|i: int|
                    0 <= i < lines(rest@).len() ==> line_separable(#[trigger] lines(rest@)[i]),
                self@.cat_index == old(self)@.cat_index,
                self@.item_index == old(self)@.item_index,
                self@.dirty == old(self)@.dirty,
            decreases rest@.len(),
        {
            let (line, next) = first_line(rest);
            proof {
                let ls = lines(rest@);
                assert(ls[0] == line@);
                assert(ls.skip(1) =~= lines(next@));
                assert forall|i: int| 0 <= i < lines(next@).len() implies line_separable(
                    #[trigger] lines(next@)[i],
                ) by {
                    assert(lines(next@)[i] == ls[i + 1]);
                }
            }
            self.load_one(line, &mut pending, &mut headed);
            rest = next;
        }
        let ghost st = load_state(self@, texts(pending@), headed);
        assert(lines(rest@).len() == 0);
        assert(st == load_lines(load_start(old(self)@), lines(content@)));
        if pending.len() > 0 {
            if let Some(mut last) = self.segments.pop() {
                attach_marked(&mut last.comments_above, &pending);
                self.segments.push(last);
                assert(segment_views(self.segments@) =~= settled(st).segments);
            } else {
                proof {
                    lemma_texts_add(self.leading_comments@, pending@);
                }
                self.leading_comments.append(&mut pending);
                assert(segment_views(self.segments@) =~= settled(st).segments);
            }
        }
        assert(self@ =~= loaded(old(self)@, content@));
    }
}

/// Appends lines.
fn push_lines(out: &mut String, ls: &Vec<String>)
    ensures
        final(out)@ == old(out)@ + unlines(texts(ls@)),
{
    let mut i: usize = 0;
    assert(texts(ls@).take(0) =~= Seq::<Seq<char>>::empty());
    while i < ls.len()
        invariant
            i <= ls.len(),
            out@ == old(out)@ + unlines(texts(ls@).take(i as int)),
        decreases ls.len() - i,
    {
        push_line(out, ls[i].as_str());
        proof {
            let t = texts(ls@);
            assert(t.take(i + 1) =~= t.take(i as int).push(t[i as int]));
            lemma_unlines_push(t.take(i as int), t[i as int]);
            assert(out@ =~= old(out)@ + unlines(t.take(i + 1)));
        }
        i += 1;
    }
    assert(texts(ls@).take(i as int) =~= texts(ls@));
}

/// Appends a line made of a label and a text.
fn push_labelled(out: &mut String, label: &str, val: &str)
    ensures
        final(out)@ == old(out)@ + (label@ + val@).push('\n'),
{
    out.append(label);
    out.append(val);
    out.push('\n');
    assert(out@ =~= old(out)@ + (label@ + val@).push('\n'));
}

/// Appends a line made of a label and a number.
fn push_numbered(out: &mut String, label: &str, n: u32)
    ensures
        final(out)@ == old(out)@ + (label@ + decimal(n as nat)).push('\n'),
{
    out.append(label);
    push_decimal(out, n as u64);
    out.push('\n');
    assert(out@ =~= old(out)@ + (label@ + decimal(n as nat)).push('\n'));
}

/// The text of one line, or of none.
proof fn lemma_unlines_line_if(b: bool, l: Seq<char>)
    ensures
        unlines(line_if(b, l)) == if b {
            l.push('\n')
        } else {
            Seq::empty()
        },
{
    if b {
        let e = Seq::<Seq<char>>::empty();
        lemma_unlines_push(e, l);
        assert(e.push(l) =~= line_if(b, l));
        assert(unlines(e) + l.push('\n') =~= l.push('\n'));
    }
}

/// Appends the settings.
fn push_globals(out: &mut String, g: &Globals)
    ensures
        final(out)@ == old(out)@ + unlines(global_block(g@)),
{
    let ghost v = g@;
    let ghost e = Seq::<Seq<char>>::empty();
    let ghost l1 = "height     = "@ + decimal(v.height as nat);
    let ghost l2 = "top_offset = "@ + decimal(v.top_offset as nat);
    let ghost l3 = "bg         = "@ + v.bg;
    let ghost l4 = "fg         = "@ + v.fg;
    let ghost l5 = "gap        = "@ + decimal(v.gap as nat);
    let ghost start = out@;
    push_numbered(out, "height     = ", g.height);
    push_numbered(out, "top_offset = ", g.top_offset);
    push_labelled(out, "bg         = ", g.bg.as_str());
    push_labelled(out, "fg         = ", g.fg.as_str());
    push_numbered(out, "gap        = ", g.gap);
    let ghost five = seq![l1, l2, l3, l4, l5];
    proof {
        lemma_unlines_push(e, l1);
        lemma_unlines_push(e.push(l1), l2);
        lemma_unlines_push(e.push(l1).push(l2), l3);
        lemma_unlines_push(e.push(l1).push(l2).push(l3), l4);
        lemma_unlines_push(e.push(l1).push(l2).push(l3).push(l4), l5);
        assert(e.push(l1).push(l2).push(l3).push(l4).push(l5) =~= five);
        assert(out@ =~= start + unlines(five));
    }
    let ghost l6 = line_if(v.font.len() > 0, "font       = "@ + v.font);
    let ghost l7 = line_if(v.char_width != 0, "char_width = "@ + decimal(v.char_width as nat));
    let ghost l8 = line_if(v.baseline != 0, "baseline   = "@ + decimal(v.baseline as nat));
    if !g.font.as_str().is_empty() {
        push_labelled(out, "font       = ", g.font.as_str());
    }
    proof {
        lemma_unlines_line_if(v.font.len() > 0, "font       = "@ + v.font);
        assert(out@ =~= start + unlines(five) + unlines(l6));
    }
    if g.char_width != 0 {
        push_numbered(out, "char_width = ", g.char_width);
    }
    proof {
        lemma_unlines_line_if(v.char_width != 0, "char_width = "@ + decimal(v.char_width as nat));
        assert(out@ =~= start + unlines(five) + unlines(l6) + unlines(l7));
    }
    if g.baseline != 0 {
        push_numbered(out, "baseline   = ", g.baseline);
    }
    proof {
        lemma_unlines_line_if(v.baseline != 0, "baseline   = "@ + decimal(v.baseline as nat));
        assert(out@ =~= start + unlines(five) + unlines(l6) + unlines(l7) + unlines(l8));
        lemma_unlines_add(five, l6);
        lemma_unlines_add(five + l6, l7);
        lemma_unlines_add(five + l6 + l7, l8);
        assert(out@ =~= start + unlines(five + l6 + l7 + l8));
    }
}

/// Whether a line is marked for the end of the file, and if so the line
/// without the mark.
fn unmark(l: &str) -> (r: Option<String>)
    ensures
        r is Some <==> is_marked(l@),
        r is Some ==> r->0@ == l@.skip(1),
{
    let cs = chars_of(l);
    if cs.len() > 0 && cs[0] == '\u{1}' {
        let rest = slice_subrange(cs.as_slice(), 1, cs.len());
        assert(rest@ =~= l@.skip(1));
        Some(string_of(rest))
    } else {
        None
    }
}

/// Appends the lines attached to a segment, and sets the marked ones aside.
fn push_attached(out: &mut String, tail: &mut Vec<String>, ls: &Vec<String>)
    ensures
        final(out)@ == old(out)@ + unlines(unmarked_lines(texts(ls@))),
        texts(final(tail)@) == texts(old(tail)@) + tail_lines(texts(ls@)),
{
    let ghost t = texts(ls@);
    let mut i: usize = 0;
    assert(t.take(0) =~= Seq::<Seq<char>>::empty());
    while i < ls.len()
        invariant
            i <= ls.len(),
            t == texts(ls@),
            out@ == old(out)@ + unlines(unmarked_lines(t.take(i as int))),
            texts(tail@) == texts(old(tail)@) + tail_lines(t.take(i as int)),
        decreases ls.len() - i,
    {
        let ghost front = t.take(i as int);
        let ghost next = t.take(i + 1);
        assert(next.drop_last() =~= front);
        assert(next.last() == ls@[i as int]@);
        match unmark(ls[i].as_str()) {
            Some(rest) => {
                proof {
                    lemma_texts_push(tail@, rest);
                }
                tail.push(rest);
            },
            None => {
                push_line(out, ls[i].as_str());
                proof {
                    lemma_unlines_push(unmarked_lines(front), next.last());
                    assert(out@ =~= old(out)@ + unlines(unmarked_lines(next)));
                }
            },
        }
        i += 1;
    }
    assert(t.take(i as int) =~= t);
}

impl App {
    /// The text of the configuration file that holds the state.
    pub fn save_config(&self) -> (text: String)
        ensures
            text@ == save_text(self@),
    {
        let ghost a = self@;
        let mut out = String::new();
        push_lines(&mut out, &self.leading_comments);
        if self.leading_comments.len() > 0 {
            push_line(&mut out, "");
        }
        let ghost gap = line_if(a.leading_comments.len() > 0, Seq::empty());
        let ghost blank = seq![Seq::<char>::empty()];
        let ghost h1 = a.leading_comments + gap;
        proof {
            reveal_strlit("");
            assert(""@ =~= Seq::<char>::empty());
            lemma_unlines_line_if(a.leading_comments.len() > 0, Seq::empty());
            lemma_unlines_add(a.leading_comments, gap);
            assert(out@ =~= unlines(h1));
        }
        push_globals(&mut out, &self.globals);
        let ghost h2 = h1 + global_block(a.globals);
        proof {
            lemma_unlines_add(h1, global_block(a.globals));
        }
        push_line(&mut out, "");
        let ghost h3 = h2 + blank;
        proof {
            lemma_unlines_push(h2, Seq::empty());
            assert(h2.push(Seq::empty()) =~= h3);
            assert(out@ =~= unlines(h3));
        }
        let mut tail: Vec<String> = Vec::new();
        let mut i: usize = 0;
        let ghost segs = a.segments;
        proof {
            assert(segs.take(0) =~= Seq::<SegmentView>::empty());
            assert(texts(tail@) =~= Seq::<Seq<char>>::empty());
            assert(h3 + segment_block(segs.take(0)) =~= h3);
        }
        while i < self.segments.len()
            invariant
                i <= self.segments.len(),
                segs == segment_views(self.segments@),
                out@ == unlines(h3 + segment_block(segs.take(i as int))),
                texts(tail@) == tail_block(segs.take(i as int)),
            decreases self.segments.len() - i,
        {
            let seg = &self.segments[i];
            let ghost front = segs.take(i as int);
            let ghost next = segs.take(i + 1);
            let ghost so_far = h3 + segment_block(front);
            let ghost above = unmarked_lines(seg@.comments_above);
            push_attached(&mut out, &mut tail, &seg.comments_above);
            let line = serialize_segment(seg);
            push_line(&mut out, line.as_str());
            proof {
                assert(next.drop_last() =~= front);
                assert(next.last() == seg@);
                lemma_unlines_add(so_far, above);
                lemma_unlines_push(so_far + above, line@);
                assert((so_far + above).push(line@) =~= h3 + segment_block(next));
            }
            i += 1;
        }
        proof {
            assert(segs.take(i as int) =~= segs);
            lemma_unlines_add(h3 + segment_block(segs), tail_block(segs));
        }
        push_lines(&mut out, &tail);
        assert(save_lines(a) =~= h3 + segment_block(segs) + tail_block(segs));
        out
    }
}

} // verus!
