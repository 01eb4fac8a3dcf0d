//! Every text of ASCII characters can be looked at: a cut between two bytes
//! never lies inside a character.

use vstd::prelude::*;
use vstd::utf8::{
    encode_utf8, encode_utf8_valid_utf8, is_ascii_chars, is_ascii_chars_encode_utf8,
    is_char_boundary, is_char_boundary_iff_not_is_continuation_byte,
    is_char_boundary_start_end_of_seq, is_continuation_byte,
};

use crate::app::AppView;
use crate::color::{code_digits, hash, separable};
use crate::config::{
    before_equals, is_disabled_segment, line_separable, loadable, uncommented, value_in,
};
use crate::edit::{answer_separable, answers_separable, AnswersView};
use crate::segment::{after_gap, after_name, body_separable};
use crate::text::{
    digit, end_run, in_line, lemma_end_run, lemma_run, lines, run, solid, trim, trim_start, white,
    without_cr,
};

verus! {

proof fn lemma_ascii_part(s: Seq<char>, n: int)
    requires
        is_ascii_chars(s),
        0 <= n <= s.len(),
    ensures
        is_ascii_chars(s.skip(n)),
        is_ascii_chars(s.take(n)),
{
    assert forall|i: int| 0 <= i < s.len() - n implies '\0' <= #[trigger] s.skip(n)[i]
        <= '\u{7f}' by {
        assert(s.skip(n)[i] == s[i + n]);
    }
}

proof fn lemma_ascii_trim(s: Seq<char>)
    requires
        is_ascii_chars(s),
    ensures
        is_ascii_chars(trim_start(s)),
        is_ascii_chars(trim(s)),
{
    lemma_run(s, white());
    lemma_ascii_part(s, run(s, white()));
    let t = trim_start(s);
    lemma_end_run(t, white());
    lemma_ascii_part(t, t.len() - end_run(t, white()));
}

/// Between ASCII characters every cut is one between characters.
pub proof fn lemma_ascii_cut(s: Seq<char>, n: int)
    requires
        is_ascii_chars(s),
        0 <= n <= s.len(),
    ensures
        encode_utf8(s).len() == s.len(),
        is_char_boundary(encode_utf8(s), n),
{
    let bytes = encode_utf8(s);
    is_ascii_chars_encode_utf8(s);
    encode_utf8_valid_utf8(s);
    is_char_boundary_start_end_of_seq(bytes);
    if n < s.len() {
        assert(bytes[n] == s[n] as u8);
        assert(!is_continuation_byte(bytes[n]));
        is_char_boundary_iff_not_is_continuation_byte(bytes, n);
    }
}

proof fn lemma_encode_add(x: Seq<char>, y: Seq<char>)
    ensures
        encode_utf8(x + y) == encode_utf8(x) + encode_utf8(y),
    decreases x.len(),
{
    if x.len() == 0 {
        assert(x + y =~= y);
        assert(encode_utf8(x) + encode_utf8(y) =~= encode_utf8(y));
    } else {
        let rest = x.drop_first();
        lemma_encode_add(rest, y);
        assert((x + y).drop_first() =~= rest + y);
        assert((x + y)[0] == x[0]);
        assert(encode_utf8(x + y) =~= encode_utf8(x) + encode_utf8(y));
    }
}

/// A cut through two texts is one through the first or one through the second.
pub proof fn lemma_cut(x: Seq<char>, y: Seq<char>, n: int)
    requires
        0 <= n <= encode_utf8(x).len() + encode_utf8(y).len(),
    ensures
        encode_utf8(x + y).len() == encode_utf8(x).len() + encode_utf8(y).len(),
        is_char_boundary(encode_utf8(x + y), n) == if n <= encode_utf8(x).len() {
            is_char_boundary(encode_utf8(x), n)
        } else {
            is_char_boundary(encode_utf8(y), n - encode_utf8(x).len())
        },
{
    let a = encode_utf8(x);
    let b = encode_utf8(y);
    let c = encode_utf8(x + y);
    lemma_encode_add(x, y);
    encode_utf8_valid_utf8(x);
    encode_utf8_valid_utf8(y);
    encode_utf8_valid_utf8(x + y);
    is_char_boundary_start_end_of_seq(a);
    is_char_boundary_start_end_of_seq(b);
    is_char_boundary_start_end_of_seq(c);
    if n < c.len() {
        is_char_boundary_iff_not_is_continuation_byte(c, n);
        if n < a.len() {
            assert(c[n] == a[n]);
            is_char_boundary_iff_not_is_continuation_byte(a, n);
        } else {
            assert(c[n] == b[n - a.len()]);
            is_char_boundary_iff_not_is_continuation_byte(b, n - a.len());
        }
    }
}

/// Every ASCII text can be looked at as a colour code.
pub proof fn law_ascii_code(hex: Seq<char>)
    requires
        is_ascii_chars(hex),
    ensures
        separable(hex),
{
    let t = trim(hex);
    lemma_ascii_trim(hex);
    lemma_run(t, hash());
    lemma_ascii_part(t, run(t, hash()));
    let h = code_digits(hex);
    is_ascii_chars_encode_utf8(h);
    if h.len() == 6 {
        lemma_ascii_cut(h, 2);
        lemma_ascii_cut(h, 4);
    }
}

/// Every ASCII text can be looked at as the body of a segment.
pub proof fn law_ascii_body(body: Seq<char>)
    requires
        is_ascii_chars(body),
    ensures
        body_separable(body),
{
    let s = trim_start(body);
    lemma_ascii_trim(body);
    lemma_run(s, solid());
    lemma_ascii_part(s, run(s, solid()));
    lemma_ascii_trim(s.skip(run(s, solid())));
    let t = after_name(body);
    if t.len() > 0 {
        let r = t.skip(1);
        lemma_ascii_part(t, 1);
        lemma_run(r, digit());
        lemma_ascii_part(r, run(r, digit()));
        lemma_ascii_trim(r.skip(run(r, digit())));
    }
    let u = after_gap(t);
    if u.len() > 0 {
        lemma_ascii_part(u, 1);
        let c = u.skip(1);
        is_ascii_chars_encode_utf8(c);
        if c.len() >= 6 {
            lemma_ascii_cut(c, 6);
        }
    }
}

proof fn lemma_ascii_line(raw: Seq<char>)
    requires
        is_ascii_chars(raw),
    ensures
        line_separable(raw),
{
    let t = trim(raw);
    lemma_ascii_trim(raw);
    reveal_strlit("segment ");
    if is_disabled_segment(t) {
        lemma_ascii_part(t, 1);
        lemma_ascii_trim(t.skip(1));
        lemma_ascii_part(uncommented(t), 8);
        law_ascii_body(uncommented(t).skip(8));
    } else {
        if t.len() >= 8 {
            lemma_ascii_part(t, 8);
            law_ascii_body(t.skip(8));
        }
        let n = run(t, before_equals());
        lemma_run(t, before_equals());
        if n < t.len() {
            lemma_ascii_part(t, n + 1);
            lemma_ascii_trim(t.skip(n + 1));
            law_ascii_code(value_in(t));
        }
    }
}

proof fn lemma_ascii_lines(s: Seq<char>)
    requires
        is_ascii_chars(s),
    ensures
        forall|i: int| 0 <= i < lines(s).len() ==> is_ascii_chars(#[trigger] lines(s)[i]),
    decreases s.len(),
{
    lemma_run(s, in_line());
    let n = run(s, in_line());
    if n < s.len() {
        let l = s.take(n);
        let rest = s.skip(n + 1);
        lemma_ascii_part(s, n);
        lemma_ascii_part(s, n + 1);
        if l.len() > 0 {
            lemma_ascii_part(l, l.len() - 1);
            assert(l.drop_last() =~= l.take(l.len() - 1));
        }
        lemma_ascii_lines(rest);
        assert forall|i: int| 0 <= i < lines(s).len() implies is_ascii_chars(
            #[trigger] lines(s)[i],
        ) by {
            if i > 0 {
                assert(lines(s)[i] == lines(rest)[i - 1]);
            } else {
                assert(lines(s)[0] == without_cr(l));
            }
        }
    }
}

/// Every ASCII file can be read.
pub proof fn law_ascii_file(content: Seq<char>)
    requires
        is_ascii_chars(content),
    ensures
        loadable(content),
{
    lemma_ascii_lines(content);
    assert forall|i: int| 0 <= i < lines(content).len() implies line_separable(
        #[trigger] lines(content)[i],
    ) by {
        lemma_ascii_line(lines(content)[i]);
    }
}

/// Every ASCII answer can be taken.
pub proof fn law_ascii_answers(a: AppView, answer: Seq<char>, answers: AnswersView)
    requires
        is_ascii_chars(answer),
        is_ascii_chars(answers.color),
    ensures
        answer_separable(a, answer),
        answers_separable(a, answers),
{
    lemma_ascii_trim(answer);
    law_ascii_code(trim(answer));
    law_ascii_code(answers.color);
}

} // verus!
