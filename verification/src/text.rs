//! Text as sequences of characters: the small string operations that the
//! configuration grammar is built from, each with its mathematical meaning.

use vstd::prelude::*;
use vstd::slice::slice_subrange;

verus! {

/// `String::push` puts the character at the end of the string.
pub assume_specification[ String::push ](s: &mut String, c: char)
    ensures
        final(s)@ == old(s)@.push(c),
;

/// The characters with the Unicode `White_Space` property.
pub open spec fn is_white(c: char) -> bool {
    let u = c as u32;
    ||| 0x09 <= u <= 0x0d
    ||| u == 0x20
    ||| u == 0x85
    ||| u == 0xa0
    ||| u == 0x1680
    ||| 0x2000 <= u <= 0x200a
    ||| u == 0x2028
    ||| u == 0x2029
    ||| u == 0x202f
    ||| u == 0x205f
    ||| u == 0x3000
}

/// The ASCII decimal digits.
pub open spec fn is_digit(c: char) -> bool {
    '0' <= c <= '9'
}

/// Length of the longest prefix of `s` whose characters all satisfy `p`.
pub open spec fn run(s: Seq<char>, p: spec_fn(char) -> bool) -> int
    decreases s.len(),
{
    if s.len() == 0 || !p(s[0]) {
        0
    } else {
        1 + run(s.skip(1), p)
    }
}

/// Length of the longest suffix of `s` whose characters all satisfy `p`.
pub open spec fn end_run(s: Seq<char>, p: spec_fn(char) -> bool) -> int
    decreases s.len(),
{
    if s.len() == 0 || !p(s.last()) {
        0
    } else {
        1 + end_run(s.drop_last(), p)
    }
}

/// White space as a predicate.
pub open spec fn white() -> spec_fn(char) -> bool {
    |c: char| is_white(c)
}

/// Everything but white space.
pub open spec fn solid() -> spec_fn(char) -> bool {
    |c: char| !is_white(c)
}

/// Decimal digits as a predicate.
pub open spec fn digit() -> spec_fn(char) -> bool {
    |c: char| is_digit(c)
}

/// `s` without its leading white space.
pub open spec fn trim_start(s: Seq<char>) -> Seq<char> {
    s.skip(run(s, white()))
}

/// `s` without its trailing white space.
pub open spec fn trim_end(s: Seq<char>) -> Seq<char> {
    s.take(s.len() - end_run(s, white()))
}

/// `s` without white space at either end.
pub open spec fn trim(s: Seq<char>) -> Seq<char> {
    trim_end(trim_start(s))
}

/// Whether `s` begins with `prefix`.
pub open spec fn starts_with(s: Seq<char>, prefix: Seq<char>) -> bool {
    prefix.len() <= s.len() && s.take(prefix.len() as int) == prefix
}

/// Everything but the line feed.
pub open spec fn in_line() -> spec_fn(char) -> bool {
    |c: char| c != '\n'
}

/// A line without the carriage return that may end it.
pub open spec fn without_cr(s: Seq<char>) -> Seq<char> {
    if s.len() > 0 && s.last() == '\r' {
        s.drop_last()
    } else {
        s
    }
}

/// The lines of a text. Each ends with a line feed, or a carriage return and a
/// line feed, which are not part of it; the last one may also end with the text.
pub open spec fn lines(s: Seq<char>) -> Seq<Seq<char>>
    decreases s.len(),
{
    proof {
        lemma_run(s, in_line());
    }
    let n = run(s, in_line());
    if s.len() == 0 {
        Seq::empty()
    } else if n == s.len() {
        seq![s]
    } else {
        seq![without_cr(s.take(n))] + lines(s.skip(n + 1))
    }
}

/// The text of a list of lines, each ended by a line feed.
pub open spec fn unlines(ls: Seq<Seq<char>>) -> Seq<char>
    decreases ls.len(),
{
    if ls.len() == 0 {
        Seq::empty()
    } else {
        ls[0].push('\n') + unlines(ls.skip(1))
    }
}

/// Whether a text fits in one line.
pub open spec fn no_feed(l: Seq<char>) -> bool {
    forall|i: int| 0 <= i < l.len() ==> #[trigger] l[i] != '\n'
}

/// Lines as they are read back: a carriage return at the end of a line is lost.
pub open spec fn reread(ls: Seq<Seq<char>>) -> Seq<Seq<char>> {
    Seq::new(ls.len(), |i: int| without_cr(ls[i]))
}

/// The text of two lists of lines is the texts one after the other.
pub proof fn lemma_unlines_add(a: Seq<Seq<char>>, b: Seq<Seq<char>>)
    ensures
        unlines(a + b) == unlines(a) + unlines(b),
    decreases a.len(),
{
    if a.len() == 0 {
        assert(a + b == b);
    } else {
        lemma_unlines_add(a.skip(1), b);
        assert((a + b).skip(1) == a.skip(1) + b);
        assert(unlines(a + b) =~= unlines(a) + unlines(b));
    }
}

/// The text of a list of lines and one more.
pub proof fn lemma_unlines_push(a: Seq<Seq<char>>, l: Seq<char>)
    ensures
        unlines(a.push(l)) == unlines(a) + l.push('\n'),
{
    let b = seq![l];
    assert(a.push(l) == a + b);
    lemma_unlines_add(a, b);
    assert(b.skip(1) == Seq::<Seq<char>>::empty());
    assert(unlines(b.skip(1)) == Seq::<char>::empty());
    assert(unlines(b) =~= l.push('\n'));
}

/// Lines that were written are read back, but for a carriage return at the end
/// of a line.
pub proof fn law_lines_of_unlines(ls: Seq<Seq<char>>)
    requires
        forall|i: int| 0 <= i < ls.len() ==> no_feed(#[trigger] ls[i]),
    ensures
        lines(unlines(ls)) == reread(ls),
    decreases ls.len(),
{
    let s = unlines(ls);
    if ls.len() > 0 {
        let l = ls[0];
        let n = l.len() as int;
        let rest = ls.skip(1);
        assert forall|i: int| 0 <= i < rest.len() implies no_feed(#[trigger] rest[i]) by {
            assert(rest[i] == ls[i + 1]);
        }
        law_lines_of_unlines(rest);
        assert(no_feed(l));
        assert forall|i: int| 0 <= i < n implies in_line()(#[trigger] s[i]) by {
            assert(s[i] == l[i]);
        }
        assert(s[n] == '\n');
        lemma_run_is(s, in_line(), n);
        assert(s.take(n) == l);
        assert(s.skip(n + 1) == unlines(rest));
        assert(lines(s) =~= reread(ls));
    }
}

/// No line of a text has a line feed in it.
pub proof fn lemma_lines_have_no_feed(s: Seq<char>)
    ensures
        forall|i: int| 0 <= i < lines(s).len() ==> no_feed(#[trigger] lines(s)[i]),
    decreases s.len(),
{
    lemma_run(s, in_line());
    let n = run(s, in_line());
    let l = s.take(n);
    assert(no_feed(l)) by {
        assert forall|i: int| 0 <= i < l.len() implies #[trigger] l[i] != '\n' by {
            assert(in_line()(s[i]));
        }
    }
    if s.len() > 0 {
        if n == s.len() {
            assert(s.take(n) == s);
        } else {
            let rest = s.skip(n + 1);
            lemma_lines_have_no_feed(rest);
            assert forall|i: int| 0 <= i < lines(s).len() implies no_feed(
                #[trigger] lines(s)[i],
            ) by {
                if i > 0 {
                    assert(lines(s)[i] == lines(rest)[i - 1]);
                }
            }
        }
    }
}

/// The texts of a list of strings.
pub open spec fn texts(v: Seq<String>) -> Seq<Seq<char>> {
    Seq::new(v.len(), |i: int| v[i]@)
}

/// The texts of a list that grew.
pub proof fn lemma_texts_push(v: Seq<String>, s: String)
    ensures
        texts(v.push(s)) == texts(v).push(s@),
{
    assert(texts(v.push(s)) =~= texts(v).push(s@));
}

/// The texts of two lists.
pub proof fn lemma_texts_add(v: Seq<String>, w: Seq<String>)
    ensures
        texts(v + w) == texts(v) + texts(w),
{
    assert(texts(v + w) =~= texts(v) + texts(w));
}

/// A run is bounded, uniform, and stops where the predicate first fails.
pub proof fn lemma_run(s: Seq<char>, p: spec_fn(char) -> bool)
    ensures
        0 <= run(s, p) <= s.len(),
        forall|i: int| 0 <= i < run(s, p) ==> p(#[trigger] s[i]),
        run(s, p) < s.len() ==> !p(s[run(s, p)]),
    decreases s.len(),
{
    if s.len() > 0 && p(s[0]) {
        let t = s.skip(1);
        lemma_run(t, p);
        assert forall|i: int| 0 <= i < run(s, p) implies p(#[trigger] s[i]) by {
            if i > 0 {
                assert(t[i - 1] == s[i]);
            }
        }
        if run(s, p) < s.len() {
            assert(t[run(t, p)] == s[run(s, p)]);
        }
    }
}

/// The three properties of [`lemma_run`] single out the length of the run.
pub proof fn lemma_run_is(s: Seq<char>, p: spec_fn(char) -> bool, n: int)
    requires
        0 <= n <= s.len(),
        forall|i: int| 0 <= i < n ==> p(#[trigger] s[i]),
        n < s.len() ==> !p(s[n]),
    ensures
        run(s, p) == n,
{
    lemma_run(s, p);
    let r = run(s, p);
    if r < n {
        assert(p(s[r]));
    } else if n < r {
        assert(p(s[n]));
    }
}

/// [`lemma_run`] at the other end.
pub proof fn lemma_end_run(s: Seq<char>, p: spec_fn(char) -> bool)
    ensures
        0 <= end_run(s, p) <= s.len(),
        forall|i: int| s.len() - end_run(s, p) <= i < s.len() ==> p(#[trigger] s[i]),
        end_run(s, p) < s.len() ==> !p(s[s.len() - end_run(s, p) - 1]),
    decreases s.len(),
{
    if s.len() > 0 && p(s.last()) {
        let t = s.drop_last();
        lemma_end_run(t, p);
        assert forall|i: int| s.len() - end_run(s, p) <= i < s.len() implies p(
            #[trigger] s[i],
        ) by {
            if i < s.len() - 1 {
                assert(t[i] == s[i]);
            }
        }
    }
}

/// [`lemma_run_is`] at the other end.
pub proof fn lemma_end_run_is(s: Seq<char>, p: spec_fn(char) -> bool, n: int)
    requires
        0 <= n <= s.len(),
        forall|i: int| s.len() - n <= i < s.len() ==> p(#[trigger] s[i]),
        n < s.len() ==> !p(s[s.len() - n - 1]),
    ensures
        end_run(s, p) == n,
{
    lemma_end_run(s, p);
    let r = end_run(s, p);
    if r < n {
        assert(p(s[s.len() - r - 1]));
    } else if n < r {
        assert(p(s[s.len() - n - 1]));
    }
}

/// The characters of a string.
pub fn chars_of(s: &str) -> (r: Vec<char>)
    ensures
        r@ == s@,
{
    let mut r: Vec<char> = Vec::new();
    for c in it: s.chars()
        invariant
            r@ == it.seq().take(it.index()),
            it.seq() == s@,
    {
        r.push(c);
    }
    r
}

/// The string made of the given characters.
pub fn string_of(cs: &[char]) -> (r: String)
    ensures
        r@ == cs@,
{
    let mut r = String::new();
    let mut i: usize = 0;
    while i < cs.len()
        invariant
            i <= cs.len(),
            r@ == cs@.take(i as int),
        decreases cs.len() - i,
    {
        r.push(cs[i]);
        i += 1;
    }
    r
}

/// Whether a character has the Unicode `White_Space` property.
pub fn is_whitespace(c: char) -> (b: bool)
    ensures
        b == is_white(c),
{
    let u: u32 = c as u32;
    (0x09 <= u && u <= 0x0d) || u == 0x20 || u == 0x85 || u == 0xa0 || u == 0x1680 || (0x2000 <= u
        && u <= 0x200a) || u == 0x2028 || u == 0x2029 || u == 0x202f || u == 0x205f || u == 0x3000
}

/// Whether the characters are those of `word`.
pub fn is_text(cs: &[char], word: &str) -> (b: bool)
    ensures
        b == (cs@ == word@),
{
    let w = chars_of(word);
    if cs.len() != w.len() {
        return false;
    }
    let mut i: usize = 0;
    while i < cs.len()
        invariant
            i <= cs.len(),
            cs.len() == w.len(),
            w@ == word@,
            forall|k: int| 0 <= k < i ==> cs@[k] == #[trigger] w@[k],
        decreases cs.len() - i,
    {
        if cs[i] != w[i] {
            return false;
        }
        i += 1;
    }
    assert(cs@ =~= w@);
    true
}

/// Drops leading white space.
pub fn skip_white(s: &[char]) -> (r: &[char])
    ensures
        r@ == trim_start(s@),
{
    let mut i: usize = 0;
    while i < s.len() && is_whitespace(s[i])
        invariant
            i <= s.len(),
            forall|k: int| 0 <= k < i ==> is_white(#[trigger] s@[k]),
        decreases s.len() - i,
    {
        i += 1;
    }
    proof {
        lemma_run_is(s@, white(), i as int);
    }
    slice_subrange(s, i, s.len())
}

/// Drops trailing white space.
pub fn cut_white(s: &[char]) -> (r: &[char])
    ensures
        r@ == trim_end(s@),
{
    let mut i: usize = s.len();
    while i > 0 && is_whitespace(s[i - 1])
        invariant
            i <= s.len(),
            forall|k: int| i <= k < s.len() ==> is_white(#[trigger] s@[k]),
        decreases i,
    {
        i -= 1;
    }
    proof {
        lemma_end_run_is(s@, white(), s.len() - i);
    }
    slice_subrange(s, 0, i)
}

/// Drops white space at both ends.
pub fn strip(s: &[char]) -> (r: &[char])
    ensures
        r@ == trim(s@),
{
    cut_white(skip_white(s))
}

} // verus!
