//! Terminal attributes, as the terminal library writes them, and padding.

use vstd::prelude::*;
use vstd::slice::slice_subrange;
use vstd::string::StringExecFns;

use crate::number::decimal;
use crate::text::{chars_of, string_of, texts};

verus! {

/// `text` in a colour of the 256-colour palette.
pub open spec fn in_palette(text: Seq<char>, color: u8) -> Seq<char> {
    "\x1b[38;5;"@ + decimal(color as nat) + "m"@ + text + "\x1b[39m"@
}

/// `text` in bold.
pub open spec fn in_bold(text: Seq<char>) -> Seq<char> {
    "\x1b[1m"@ + text + "\x1b[22m"@
}

/// `text` underlined.
pub open spec fn underlined(text: Seq<char>) -> Seq<char> {
    "\x1b[4m"@ + text + "\x1b[24m"@
}

/// `text` in reverse video.
pub open spec fn reversed(text: Seq<char>) -> Seq<char> {
    "\x1b[7m"@ + text + "\x1b[27m"@
}

/// `crust::style::fg` puts the text between the escape that sets the foreground
/// to a palette colour, given in decimal, and the one that resets it.
pub assume_specification[ crust::style::fg ](text: &str, color: u8) -> (r: String)
    ensures
        r@ == in_palette(text@, color),
;

/// `crust::style::bold` puts the text between the escapes that switch bold on and off.
pub assume_specification[ crust::style::bold ](text: &str) -> (r: String)
    ensures
        r@ == in_bold(text@),
;

/// `crust::style::underline` puts the text between the escapes that switch
/// underlining on and off.
pub assume_specification[ crust::style::underline ](text: &str) -> (r: String)
    ensures
        r@ == underlined(text@),
;

/// `crust::style::reverse` puts the text between the escapes that switch reverse
/// video on and off.
pub assume_specification[ crust::style::reverse ](text: &str) -> (r: String)
    ensures
        r@ == reversed(text@),
;

/// A character `n` times.
pub open spec fn repeated(c: char, n: int) -> Seq<char> {
    Seq::new(
        if n > 0 {
            n as nat
        } else {
            0
        },
        |i: int| c,
    )
}

/// `s` filled up with blanks on the right to `width` characters.
pub open spec fn padded_right(s: Seq<char>, width: int) -> Seq<char> {
    s + repeated(' ', width - s.len())
}

/// `s` filled up with blanks on the left to `width` characters.
pub open spec fn padded_left(s: Seq<char>, width: int) -> Seq<char> {
    repeated(' ', width - s.len()) + s
}

/// `s` cut to `max` characters, with an ellipsis if something was cut off.
pub open spec fn truncated(s: Seq<char>, max: int) -> Seq<char> {
    if s.len() > max {
        s.take(max).push('\u{2026}')
    } else {
        s
    }
}

/// Lines with a line feed between each two.
pub open spec fn joined(ls: Seq<Seq<char>>) -> Seq<char>
    decreases ls.len(),
{
    if ls.len() == 0 {
        Seq::empty()
    } else if ls.len() == 1 {
        ls[0]
    } else {
        joined(ls.drop_last()) + "\n"@ + ls.last()
    }
}

/// Appends a character `n` times.
fn push_repeated(out: &mut String, c: char, n: usize)
    ensures
        final(out)@ == old(out)@ + repeated(c, n as int),
{
    let mut i: usize = 0;
    assert(old(out)@ + repeated(c, 0) =~= old(out)@);
    while i < n
        invariant
            i <= n,
            out@ == old(out)@ + repeated(c, i as int),
        decreases n - i,
    {
        out.push(c);
        i += 1;
        assert(out@ =~= old(out)@ + repeated(c, i as int));
    }
}

/// A character `n` times.
pub fn repeat(c: char, n: usize) -> (r: String)
    ensures
        r@ == repeated(c, n as int),
{
    let mut r = String::new();
    push_repeated(&mut r, c, n);
    assert(r@ =~= repeated(c, n as int));
    r
}

/// Blanks that are missing to a width.
fn missing(s: &str, width: usize) -> (n: usize)
    ensures
        repeated(' ', n as int) == repeated(' ', width - s@.len()),
{
    let len: usize = chars_of(s).len();
    if len < width {
        width - len
    } else {
        assert(repeated(' ', 0) =~= repeated(' ', width - s@.len()));
        0
    }
}

/// Fills a text up on the right.
pub fn pad_right(s: &str, width: usize) -> (r: String)
    ensures
        r@ == padded_right(s@, width as int),
{
    let mut r = s.to_owned();
    push_repeated(&mut r, ' ', missing(s, width));
    r
}

/// Fills a text up on the left.
pub fn pad_left(s: &str, width: usize) -> (r: String)
    ensures
        r@ == padded_left(s@, width as int),
{
    let mut r = repeat(' ', missing(s, width));
    r.append(s);
    r
}

/// Cuts a text to `max` characters.
pub fn truncate(s: &str, max: usize) -> (r: String)
    ensures
        r@ == truncated(s@, max as int),
{
    let cs = chars_of(s);
    if cs.len() > max {
        let front = slice_subrange(cs.as_slice(), 0, max);
        assert(front@ == s@.take(max as int));
        let mut r = string_of(front);
        r.push('\u{2026}');
        r
    } else {
        s.to_owned()
    }
}

/// Joins lines.
pub fn join(ls: &Vec<String>) -> (r: String)
    ensures
        r@ == joined(texts(ls@)),
{
    let ghost t = texts(ls@);
    let mut r = String::new();
    let mut i: usize = 0;
    assert(t.take(0) =~= Seq::<Seq<char>>::empty());
    while i < ls.len()
        invariant
            i <= ls.len(),
            t == texts(ls@),
            r@ == joined(t.take(i as int)),
        decreases ls.len() - i,
    {
        if i > 0 {
            r.append("\n");
        }
        r.append(ls[i].as_str());
        proof {
            let next = t.take(i + 1);
            assert(next.drop_last() =~= t.take(i as int));
            assert(next.last() == ls@[i as int]@);
            if i == 0 {
                assert(r@ =~= next[0]);
            }
        }
        i += 1;
    }
    assert(t.take(i as int) =~= t);
    r
}

} // verus!
