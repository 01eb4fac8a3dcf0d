//! What the small operations on text, numbers, colours and padding do, said of
//! their inputs and results.

use vstd::prelude::*;

use crate::color::{
    bg24_text, code_digits, color_code, color_of, fg24_text, hash, is_canonical, is_lower_hex,
    law_color_code, normal_form, Rgb,
};
use crate::number::{
    decimal, hex_char, hex_pair, hex_value, is_hex_digit, lemma_decimal, lower, number, value,
};
use crate::style::{
    in_bold, in_palette, joined, padded_left, padded_right, repeated, reversed, truncated,
    underlined,
};
use crate::text::{
    in_line, is_digit, is_white, lemma_end_run_is, lemma_run, lemma_run_is, lines, run, trim,
    trim_end, trim_start, unlines, white, without_cr,
};

verus! {

/// The decimal digits are the characters from `0` to `9`.
pub proof fn law_is_digit(c: char)
    ensures
        is_digit(c) <==> '0' <= c <= '9',
{
}

/// Whether a text is made of white space.
pub open spec fn all_white(s: Seq<char>) -> bool {
    forall|i: int| 0 <= i < s.len() ==> is_white(#[trigger] s[i])
}

/// Whether a text is made of the characters from `0` to `9`.
pub open spec fn digits_only(s: Seq<char>) -> bool {
    forall|i: int| 0 <= i < s.len() ==> '0' <= (#[trigger] s[i]) <= '9'
}

/// Whether a character is one from `0` to `9`, `a` to `f` or `A` to `F`.
pub open spec fn in_hex(c: char) -> bool {
    '0' <= c <= '9' || 'a' <= c <= 'f' || 'A' <= c <= 'F'
}

/// Whether a text is empty or begins solid.
pub open spec fn solid_start(s: Seq<char>) -> bool {
    s.len() > 0 ==> !is_white(s[0])
}

/// Whether a text is empty or ends solid.
pub open spec fn solid_end(s: Seq<char>) -> bool {
    s.len() > 0 ==> !is_white(s[s.len() - 1])
}

/// Trimming takes away the white space at the ends, all of it and nothing else.
pub proof fn law_trim(w1: Seq<char>, t: Seq<char>, w2: Seq<char>)
    requires
        all_white(w1),
        all_white(w2),
    ensures
        solid_start(t) ==> trim_start(w1 + t) == t,
        solid_end(t) ==> trim_end(t + w2) == t,
        solid_start(t) && solid_end(t) ==> trim(w1 + t + w2) == t,
        solid_start(t) && solid_end(t) ==> trim(w1 + (t + w2)) == t,
{
    if solid_start(t) {
        lemma_trim_start_of(w1, t);
    }
    if solid_end(t) {
        lemma_trim_end_of(t, w2);
    }
    if solid_start(t) && solid_end(t) {
        assert(w1 + t + w2 =~= w1 + (t + w2));
        if t.len() > 0 {
            assert((t + w2)[0] == t[0]);
            lemma_trim_start_of(w1, t + w2);
        } else {
            let all = w1 + t + w2;
            assert forall|i: int| 0 <= i < all.len() implies white()(#[trigger] all[i]) by {
                if i < w1.len() {
                    assert(all[i] == w1[i]);
                } else {
                    assert(all[i] == w2[i - w1.len()]);
                }
            }
            lemma_run_is(all, white(), all.len() as int);
            assert(trim_start(all) =~= t);
            lemma_trim_end_of(t, t);
            assert(t + t =~= t);
        }
    }
}

proof fn lemma_trim_start_of(w: Seq<char>, t: Seq<char>)
    requires
        all_white(w),
        solid_start(t),
    ensures
        trim_start(w + t) == t,
{
    let s = w + t;
    assert forall|i: int| 0 <= i < w.len() implies white()(#[trigger] s[i]) by {
        assert(s[i] == w[i]);
    }
    if t.len() > 0 {
        assert(s[w.len() as int] == t[0]);
    }
    lemma_run_is(s, white(), w.len() as int);
    assert(s.skip(w.len() as int) =~= t);
}

proof fn lemma_trim_end_of(t: Seq<char>, w: Seq<char>)
    requires
        all_white(w),
        solid_end(t),
    ensures
        trim_end(t + w) == t,
{
    let s = t + w;
    assert forall|i: int| s.len() - w.len() <= i < s.len() implies white()(#[trigger] s[i]) by {
        assert(s[i] == w[i - t.len()]);
    }
    if t.len() > 0 {
        assert(s[t.len() - 1] == t[t.len() - 1]);
    }
    lemma_end_run_is(s, white(), w.len() as int);
    assert(s.take(t.len() as int) =~= t);
}

/// A text is cut into lines at every line feed, which takes a carriage return
/// before it along. What follows the last one is a line if it is not empty.
pub proof fn law_lines(l: Seq<char>, rest: Seq<char>)
    requires
        forall|i: int| 0 <= i < l.len() ==> #[trigger] l[i] != '\n',
    ensures
        lines(Seq::empty()).len() == 0,
        l.len() > 0 ==> lines(l) == seq![l],
        l.len() == 0 || l[l.len() - 1] != '\r' ==> lines(l + seq!['\n'] + rest) == seq![l] + lines(
            rest,
        ),
        lines(l + seq!['\r', '\n'] + rest) == seq![l] + lines(rest),
{
    if l.len() > 0 {
        lemma_run_is(l, in_line(), l.len() as int);
    }
    lemma_first_line(l, rest);
    let m = l.push('\r');
    assert forall|i: int| 0 <= i < m.len() implies #[trigger] m[i] != '\n' by {
        if i < l.len() {
            assert(m[i] == l[i]);
        }
    }
    lemma_first_line(m, rest);
    assert(m + seq!['\n'] + rest =~= l + seq!['\r', '\n'] + rest);
    assert(m.drop_last() =~= l);
    assert(without_cr(m) == l);
}

proof fn lemma_first_line(l: Seq<char>, rest: Seq<char>)
    requires
        forall|i: int| 0 <= i < l.len() ==> #[trigger] l[i] != '\n',
    ensures
        lines(l + seq!['\n'] + rest) == seq![without_cr(l)] + lines(rest),
{
    let s = l + seq!['\n'] + rest;
    let n = l.len() as int;
    assert forall|i: int| 0 <= i < n implies in_line()(#[trigger] s[i]) by {
        assert(s[i] == l[i]);
    }
    assert(s[n] == '\n');
    lemma_run_is(s, in_line(), n);
    assert(s.take(n) =~= l);
    assert(s.skip(n + 1) =~= rest);
}

/// Lines are written one after the other, each ended by a line feed.
pub proof fn law_unlines(ls: Seq<Seq<char>>, l: Seq<char>)
    ensures
        unlines(Seq::empty()).len() == 0,
        unlines(seq![l] + ls) == l + seq!['\n'] + unlines(ls),
{
    let all = seq![l] + ls;
    assert(all.skip(1) =~= ls);
    assert(unlines(all) =~= l + seq!['\n'] + unlines(ls));
}

/// A decimal numeral denotes ten times what stands before its last digit, and
/// that digit.
pub proof fn law_value(s: Seq<char>, c: char)
    requires
        '0' <= c <= '9',
    ensures
        value(Seq::empty()) == 0,
        value(s.push(c)) == 10 * value(s) + (c as int - '0' as int),
{
    assert(s.push(c).drop_last() =~= s);
}

/// A text is read as a number if and only if it is made of digits, at least one,
/// after at most one plus sign, and the number fits into 32 bits. The number read
/// is the one that the digits denote.
pub proof fn law_number(s: Seq<char>, d: Seq<char>)
    ensures
        d.len() > 0 && digits_only(d) ==> {
            &&& number(d) is Some <==> value(d) <= 0xffff_ffff
            &&& value(d) <= 0xffff_ffff ==> number(d)->0 == value(d)
            &&& number(seq!['+'] + d) == number(d)
        },
        number(s) is Some ==> {
            ||| s.len() > 0 && digits_only(s)
            ||| s.len() > 1 && s[0] == '+' && digits_only(s.skip(1))
        },
{
    if d.len() > 0 && digits_only(d) {
        let p = seq!['+'] + d;
        assert(p.skip(1) =~= d);
        assert(d[0] != '+');
        assert forall|i: int| 0 <= i < d.len() implies is_digit(#[trigger] d[i]) by {}
    }
    if number(s) is Some {
        if s.len() > 1 && s[0] == '+' {
            let t = s.skip(1);
            assert forall|i: int| 0 <= i < t.len() implies '0' <= (#[trigger] t[i]) <= '9' by {
                assert(is_digit(t[i]));
            }
        } else {
            assert forall|i: int| 0 <= i < s.len() implies '0' <= (#[trigger] s[i]) <= '9' by {
                assert(is_digit(s[i]));
            }
        }
    }
}

/// A number is written as the one numeral of digits that denotes it and has no
/// zero to spare.
pub proof fn law_decimal(n: nat)
    ensures
        decimal(n).len() > 0,
        digits_only(decimal(n)),
        value(decimal(n)) == n,
        decimal(n)[0] == '0' ==> n == 0 && decimal(n).len() == 1,
    decreases n,
{
    lemma_decimal(n);
    assert forall|i: int| 0 <= i < decimal(n).len() implies '0' <= (#[trigger] decimal(n)[i])
        <= '9' by {
        assert(is_digit(decimal(n)[i]));
    }
    if n >= 10 {
        law_decimal(n / 10);
        assert(decimal(n)[0] == decimal(n / 10)[0]);
    }
}

/// The hexadecimal digits are the sixteen of either case, in their order; a
/// character of upper case turns into the one of lower case.
pub proof fn law_hex_digits(n: int, c: char)
    requires
        0 <= n < 16,
    ensures
        is_hex_digit("0123456789abcdef"@[n]),
        is_hex_digit("0123456789ABCDEF"@[n]),
        hex_value("0123456789abcdef"@[n]) == n,
        hex_value("0123456789ABCDEF"@[n]) == n,
        hex_char(n as nat) == "0123456789abcdef"@[n],
        lower("0123456789abcdef"@[n]) == "0123456789abcdef"@[n],
        lower("0123456789ABCDEF"@[n]) == "0123456789abcdef"@[n],
        is_hex_digit(c) <==> in_hex(c),
        in_hex(c) ==> hex_value(lower(c)) == hex_value(c) && hex_value(c) < 16,
        in_hex(c) ==> in_hex(lower(c)) && !('A' <= lower(c) <= 'F'),
        !('A' <= c <= 'Z') ==> lower(c) == c,
{
    reveal_strlit("0123456789abcdef");
    reveal_strlit("0123456789ABCDEF");
}

/// Two hexadecimal digits denote sixteen times the first and the second; a plus
/// sign before a digit is a sign. Nothing else denotes a byte.
pub proof fn law_hex_pair(a: char, b: char)
    ensures
        in_hex(a) && in_hex(b) ==> hex_pair(a, b) is Some && hex_pair(a, b)->0 == 16 * hex_value(a)
            + hex_value(b),
        a == '+' && in_hex(b) ==> hex_pair(a, b) is Some && hex_pair(a, b)->0 == hex_value(b),
        hex_pair(a, b) is Some ==> (in_hex(a) || a == '+') && in_hex(b),
{
}

/// Six hexadecimal digits denote the colour of which they are the components,
/// with any number of hash signs before them and white space around.
pub proof fn law_color_of(w1: Seq<char>, hashes: Seq<char>, h: Seq<char>, w2: Seq<char>)
    requires
        all_white(w1),
        all_white(w2),
        forall|i: int| 0 <= i < hashes.len() ==> #[trigger] hashes[i] == '#',
        h.len() == 6,
        forall|i: int| 0 <= i < 6 ==> in_hex(#[trigger] h[i]),
    ensures
        color_of(w1 + (hashes + h + w2)) is Some,
        ({
            let c = color_of(w1 + (hashes + h + w2))->0;
            &&& c.0 == 16 * hex_value(h[0]) + hex_value(h[1])
            &&& c.1 == 16 * hex_value(h[2]) + hex_value(h[3])
            &&& c.2 == 16 * hex_value(h[4]) + hex_value(h[5])
        }),
{
    let t = hashes + h;
    assert(in_hex(h[0]) && in_hex(h[1]) && in_hex(h[2]) && in_hex(h[3]) && in_hex(h[4]) && in_hex(
        h[5],
    ));
    if hashes.len() > 0 {
        assert(t[0] == hashes[0]);
    } else {
        assert(t[0] == h[0]);
    }
    assert(t[t.len() - 1] == h[5]);
    law_trim(w1, t, w2);
    assert forall|i: int| 0 <= i < hashes.len() implies hash()(#[trigger] t[i]) by {
        assert(t[i] == hashes[i]);
    }
    assert(t[hashes.len() as int] == h[0]);
    lemma_run_is(t, hash(), hashes.len() as int);
    assert(t.skip(hashes.len() as int) =~= h);
    law_hex_pair(h[0], h[1]);
    law_hex_pair(h[2], h[3]);
    law_hex_pair(h[4], h[5]);
}

/// What denotes a colour is six characters, each a hexadecimal digit or, first in
/// a pair, a plus sign, after hash signs and between white space.
pub proof fn law_color_needs_digits(hex: Seq<char>)
    requires
        color_of(hex) is Some,
    ensures
        ({
            let t = trim(hex);
            let n = t.len() - 6;
            &&& n >= 0
            &&& forall|i: int| 0 <= i < n ==> #[trigger] t[i] == '#'
            &&& in_hex(t[n + 1]) && in_hex(t[n + 3]) && in_hex(t[n + 5])
            &&& in_hex(t[n]) || t[n] == '+'
            &&& in_hex(t[n + 2]) || t[n + 2] == '+'
            &&& in_hex(t[n + 4]) || t[n + 4] == '+'
        }),
{
    let t = trim(hex);
    let h = code_digits(hex);
    lemma_run(t, hash());
    let n = run(t, hash());
    assert forall|i: int| 0 <= i < n implies #[trigger] t[i] == '#' by {
        assert(hash()(t[i]));
    }
    assert(h.len() == t.len() - n);
    assert(h[0] == t[n] && h[1] == t[n + 1] && h[2] == t[n + 2]);
    assert(h[3] == t[n + 3] && h[4] == t[n + 4] && h[5] == t[n + 5]);
}

/// The normal form of a code is the canonical code of the colour that it denotes,
/// and there is one if and only if it denotes one.
pub proof fn law_normal_form(hex: Seq<char>)
    ensures
        normal_form(hex) is Some <==> color_of(hex) is Some,
        color_of(hex) is Some ==> is_canonical(normal_form(hex)->0) && color_of(
            normal_form(hex)->0,
        ) == color_of(hex),
{
    if let Some(c) = color_of(hex) {
        law_color_code(c);
    }
}

/// The canonical codes are the hash signs with six digits of lower case.
pub proof fn law_canonical(s: Seq<char>)
    ensures
        is_canonical(s) <==> {
            &&& s.len() == 7
            &&& s[0] == '#'
            &&& forall|i: int|
                1 <= i < 7 ==> '0' <= (#[trigger] s[i]) <= '9' || 'a' <= s[i] <= 'f'
        },
{
    if is_canonical(s) {
        assert forall|i: int| 1 <= i < 7 implies '0' <= (#[trigger] s[i]) <= '9' || 'a' <= s[i]
            <= 'f' by {
            assert(is_lower_hex(s[i]));
        }
    }
}

/// Coloured text stands between the escape that sets the colour, its components
/// in decimal, and the one that resets it; text in no colour stays as it is.
pub proof fn law_painted(text: Seq<char>, hex: Seq<char>)
    ensures
        match color_of(hex) {
            Some((r, g, b)) => {
                let rgb = decimal(r as nat) + ";"@ + decimal(g as nat) + ";"@ + decimal(b as nat);
                &&& fg24_text(text, hex) == "\x1b[38;2;"@ + rgb + "m"@ + text + "\x1b[0m"@
                &&& bg24_text(text, hex) == "\x1b[48;2;"@ + rgb + "m"@ + text + "\x1b[0m"@
            },
            None => fg24_text(text, hex) == text && bg24_text(text, hex) == text,
        },
{
    if let Some((r, g, b)) = color_of(hex) {
        let rgb = decimal(r as nat) + ";"@ + decimal(g as nat) + ";"@ + decimal(b as nat);
        assert(fg24_text(text, hex) =~= "\x1b[38;2;"@ + rgb + "m"@ + text + "\x1b[0m"@);
        assert(bg24_text(text, hex) =~= "\x1b[48;2;"@ + rgb + "m"@ + text + "\x1b[0m"@);
    }
}

/// Terminal attributes stand around the text: an escape that sets them and the
/// one that takes them back.
pub proof fn law_attributes(text: Seq<char>, color: u8)
    ensures
        in_palette(text, color) == "\x1b[38;5;"@ + decimal(color as nat) + "m"@ + text
            + "\x1b[39m"@,
        in_bold(text) == "\x1b[1m"@ + text + "\x1b[22m"@,
        underlined(text) == "\x1b[4m"@ + text + "\x1b[24m"@,
        reversed(text) == "\x1b[7m"@ + text + "\x1b[27m"@,
{
}

/// A text is cut only if it is too long; then it keeps its first characters and
/// ends with an ellipsis.
pub proof fn law_truncated(s: Seq<char>, max: int)
    requires
        max >= 0,
    ensures
        s.len() <= max ==> truncated(s, max) == s,
        s.len() > max ==> {
            &&& truncated(s, max).len() == max + 1
            &&& forall|i: int| 0 <= i < max ==> #[trigger] truncated(s, max)[i] == s[i]
            &&& truncated(s, max)[max] == '\u{2026}'
        },
{
}

/// Filling up adds blanks on one side until the width is reached, and only then.
pub proof fn law_padded(s: Seq<char>, width: int)
    ensures
        ({
            let n = s.len() as int;
            let r = padded_right(s, width);
            let l = padded_left(s, width);
            let m = if n < width {
                width
            } else {
                n
            };
            &&& r.len() == m && l.len() == m
            &&& forall|i: int| 0 <= i < n ==> #[trigger] r[i] == s[i]
            &&& forall|i: int| n <= i < m ==> #[trigger] r[i] == ' '
            &&& forall|i: int| 0 <= i < m - n ==> #[trigger] l[i] == ' '
            &&& forall|i: int| m - n <= i < m ==> #[trigger] l[i] == s[i - (m - n)]
        }),
{
}

/// A repeated character is there as often as asked for.
pub proof fn law_repeated(c: char, n: int)
    requires
        n >= 0,
    ensures
        repeated(c, n).len() == n,
        forall|i: int| 0 <= i < n ==> #[trigger] repeated(c, n)[i] == c,
{
}

/// Lines are joined by one line feed between each two.
pub proof fn law_joined(ls: Seq<Seq<char>>, l: Seq<char>)
    ensures
        joined(Seq::empty()).len() == 0,
        joined(seq![l]) == l,
        ls.len() > 0 ==> joined(ls.push(l)) == joined(ls) + seq!['\n'] + l,
{
    reveal_strlit("\n");
    assert(ls.push(l).drop_last() =~= ls);
    assert("\n"@ =~= seq!['\n']);
}

/// Two colours have one code only if they are the same, and the code of a colour
/// is read as that colour.
pub proof fn law_color_codes_differ(c: Rgb, d: Rgb)
    ensures
        color_code(c) == color_code(d) ==> c == d,
        color_of(color_code(c)) == Some(c),
{
    law_color_code(c);
    law_color_code(d);
}

} // verus!
