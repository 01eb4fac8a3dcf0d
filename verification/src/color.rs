//! Colour codes (`#RRGGBB`) and the terminal escapes made from them.

use vstd::prelude::*;
use vstd::slice::slice_subrange;
use vstd::string::StringExecFns;
use vstd::utf8::{
    encode_utf8, encode_utf8_valid_utf8, is_ascii_chars, is_ascii_chars_encode_utf8,
    is_char_boundary, is_char_boundary_iff_not_is_continuation_byte, is_continuation_byte,
};

use crate::number::{
    decimal, hex_byte, hex_char, hex_pair, hex_value, push_decimal, push_hex_byte, read_hex_pair,
};
use crate::text::{chars_of, lemma_end_run_is, lemma_run_is, run, string_of, strip, trim, white};

verus! {

/// Red, green and blue.
pub type Rgb = (u8, u8, u8);

/// Hash signs as a predicate.
pub open spec fn hash() -> spec_fn(char) -> bool {
    |c: char| c == '#'
}

/// The digits of a colour code: the trimmed text without its leading hash signs.
pub open spec fn code_digits(hex: Seq<char>) -> Seq<char> {
    let t = trim(hex);
    t.skip(run(t, hash()))
}

/// The colour that a code denotes: six hexadecimal digits after any number of
/// hash signs.
pub open spec fn color_of(hex: Seq<char>) -> Option<Rgb> {
    let h = code_digits(hex);
    if h.len() == 6 {
        match (hex_pair(h[0], h[1]), hex_pair(h[2], h[3]), hex_pair(h[4], h[5])) {
            (Some(r), Some(g), Some(b)) => Some((r, g, b)),
            _ => None,
        }
    } else {
        None
    }
}

/// Whether a colour code can be cut into pairs. A code of six bytes is cut
/// after two bytes and, if those are digits, after four: a character of several
/// bytes must not lie across a cut.
pub open spec fn separable(hex: Seq<char>) -> bool {
    let h = code_digits(hex);
    let bytes = encode_utf8(h);
    bytes.len() == 6 ==> {
        &&& is_char_boundary(bytes, 2)
        &&& h.len() >= 2 && hex_pair(h[0], h[1]) is Some ==> is_char_boundary(bytes, 4)
    }
}

/// The canonical code of a colour: a hash sign and six lower-case digits.
pub open spec fn color_code(c: Rgb) -> Seq<char> {
    seq!['#'] + hex_byte(c.0) + hex_byte(c.1) + hex_byte(c.2)
}

/// Whether a text is a canonical colour code.
pub open spec fn is_canonical(s: Seq<char>) -> bool {
    &&& s.len() == 7
    &&& s[0] == '#'
    &&& forall|i: int| 1 <= i < 7 ==> is_lower_hex(#[trigger] s[i])
}

/// The hexadecimal digits without the upper-case ones.
pub open spec fn is_lower_hex(c: char) -> bool {
    '0' <= c <= '9' || 'a' <= c <= 'f'
}

/// The canonical code of the colour that `hex` denotes.
pub open spec fn normal_form(hex: Seq<char>) -> Option<Seq<char>> {
    match color_of(hex) {
        Some(c) => Some(color_code(c)),
        None => None,
    }
}

/// `text` between the escape `intro` with the components of a colour and the
/// escape that resets all attributes.
pub open spec fn painted(intro: Seq<char>, text: Seq<char>, c: Rgb) -> Seq<char> {
    intro + decimal(c.0 as nat) + ";"@ + decimal(c.1 as nat) + ";"@ + decimal(c.2 as nat) + "m"@
        + text + "\x1b[0m"@
}

/// `text` in the foreground colour `hex`, or as it is if that is no colour.
pub open spec fn fg24_text(text: Seq<char>, hex: Seq<char>) -> Seq<char> {
    match color_of(hex) {
        Some(c) => painted("\x1b[38;2;"@, text, c),
        None => text,
    }
}

/// `text` on the background colour `hex`, or as it is if that is no colour.
pub open spec fn bg24_text(text: Seq<char>, hex: Seq<char>) -> Seq<char> {
    match color_of(hex) {
        Some(c) => painted("\x1b[48;2;"@, text, c),
        None => text,
    }
}

/// What surrounds and precedes the six digits of a canonical code is the hash sign.
pub proof fn lemma_canonical_digits(s: Seq<char>)
    requires
        is_canonical(s),
    ensures
        trim(s) == s,
        code_digits(s) == s.skip(1),
{
    assert(is_lower_hex(s[6]));
    assert(is_lower_hex(s[1]));
    lemma_run_is(s, white(), 0);
    lemma_end_run_is(s, white(), 0);
    assert(s.skip(0) == s);
    assert(s.take(7) == s);
    lemma_run_is(s, hash(), 1);
}

/// A canonical code can be cut, denotes a colour, and is the code of it.
pub proof fn law_canonical_code(s: Seq<char>)
    requires
        is_canonical(s),
    ensures
        separable(s),
        color_of(s) is Some,
        normal_form(s) == Some(s),
{
    lemma_canonical_digits(s);
    let h = s.skip(1);
    assert forall|i: int| 0 <= i < 6 implies is_lower_hex(#[trigger] h[i]) by {
        assert(h[i] == s[i + 1]);
    }
    assert(is_ascii_chars(h));
    is_ascii_chars_encode_utf8(h);
    let bytes = encode_utf8(h);
    encode_utf8_valid_utf8(h);
    assert(bytes[2] == h[2] as u8 && bytes[4] == h[4] as u8);
    assert(!is_continuation_byte(bytes[2]) && !is_continuation_byte(bytes[4]));
    is_char_boundary_iff_not_is_continuation_byte(bytes, 2);
    is_char_boundary_iff_not_is_continuation_byte(bytes, 4);
    lemma_hex_byte_of_pair(h[0], h[1]);
    lemma_hex_byte_of_pair(h[2], h[3]);
    lemma_hex_byte_of_pair(h[4], h[5]);
    let c = color_of(s)->0;
    assert(color_code(c) =~= s) by {
        assert(hex_byte(c.0) == seq![h[0], h[1]]);
        assert(hex_byte(c.1) == seq![h[2], h[3]]);
        assert(hex_byte(c.2) == seq![h[4], h[5]]);
    }
}

/// Writing a byte read from two lower-case digits gives the digits back.
proof fn lemma_hex_byte_of_pair(a: char, b: char)
    requires
        is_lower_hex(a),
        is_lower_hex(b),
    ensures
        hex_pair(a, b) is Some,
        hex_byte(hex_pair(a, b)->0) == seq![a, b],
{
    let n = hex_pair(a, b)->0;
    assert(n == 16 * hex_value(a) + hex_value(b));
    assert(n as nat / 16 == hex_value(a) && n as nat % 16 == hex_value(b));
    assert(hex_char(hex_value(a)) == a);
    assert(hex_char(hex_value(b)) == b);
}

/// Reading the two digits of a byte gives the byte back.
proof fn lemma_pair_of_hex_byte(n: u8)
    ensures
        is_lower_hex(hex_byte(n)[0]),
        is_lower_hex(hex_byte(n)[1]),
        hex_pair(hex_byte(n)[0], hex_byte(n)[1]) == Some(n),
{
    let hi = n as nat / 16;
    let lo = n as nat % 16;
    assert(hex_value(hex_char(hi)) == hi);
    assert(hex_value(hex_char(lo)) == lo);
}

/// The code of a colour is canonical and denotes that colour.
pub proof fn law_color_code(c: Rgb)
    ensures
        is_canonical(color_code(c)),
        color_of(color_code(c)) == Some(c),
{
    lemma_pair_of_hex_byte(c.0);
    lemma_pair_of_hex_byte(c.1);
    lemma_pair_of_hex_byte(c.2);
    let s = color_code(c);
    assert(s.len() == 7);
    assert(s[1] == hex_byte(c.0)[0] && s[2] == hex_byte(c.0)[1]);
    assert(s[3] == hex_byte(c.1)[0] && s[4] == hex_byte(c.1)[1]);
    assert(s[5] == hex_byte(c.2)[0] && s[6] == hex_byte(c.2)[1]);
    assert(is_canonical(s));
    lemma_canonical_digits(s);
}

/// Normalising a colour code a second time changes nothing, and the normal form
/// denotes the colour that the code denotes.
pub proof fn law_normal_form_is_stable(hex: Seq<char>)
    requires
        normal_form(hex) is Some,
    ensures
        is_canonical(normal_form(hex)->0),
        color_of(normal_form(hex)->0) == color_of(hex),
        normal_form(normal_form(hex)->0) == normal_form(hex),
{
    law_color_code(color_of(hex)->0);
}

/// Decides whether a colour code can be cut into pairs, which
/// [`parse_hex`] asks of its argument.
pub fn is_separable(hex: &str) -> (b: bool)
    ensures
        b == separable(hex@),
{
    let cs = chars_of(hex);
    let h = digits_of(strip(cs.as_slice()));
    let code = string_of(h);
    let bytes = code.as_str().as_bytes();
    if bytes.len() != 6 {
        return true;
    }
    if !code.as_str().is_char_boundary(2) {
        return false;
    }
    if h.len() >= 2 && read_hex_pair(h[0], h[1]).is_some() {
        code.as_str().is_char_boundary(4)
    } else {
        true
    }
}

/// Drops leading hash signs.
fn digits_of(t: &[char]) -> (h: &[char])
    ensures
        h@ == t@.skip(run(t@, hash())),
{
    let mut i: usize = 0;
    while i < t.len() && t[i] == '#'
        invariant
            i <= t.len(),
            forall|k: int| 0 <= k < i ==> #[trigger] t@[k] == '#',
        decreases t.len() - i,
    {
        i += 1;
    }
    proof {
        lemma_run_is(t@, hash(), i as int);
    }
    slice_subrange(t, i, t.len())
}

/// Reads a colour code.
pub fn parse_hex(hex: &str) -> (r: Option<Rgb>)
    requires
        separable(hex@),
    ensures
        r == color_of(hex@),
{
    let cs = chars_of(hex);
    let h = digits_of(strip(cs.as_slice()));
    if h.len() != 6 {
        return None;
    }
    match (read_hex_pair(h[0], h[1]), read_hex_pair(h[2], h[3]), read_hex_pair(h[4], h[5])) {
        (Some(r), Some(g), Some(b)) => Some((r, g, b)),
        _ => None,
    }
}

/// The canonical form of a colour code, `None` if it denotes no colour.
pub fn normalize_hex(hex: &str) -> (r: Option<String>)
    requires
        separable(hex@),
    ensures
        r is Some <==> normal_form(hex@) is Some,
        r is Some ==> r->0@ == normal_form(hex@)->0,
{
    match parse_hex(hex) {
        Some(c) => {
            let mut s = String::new();
            s.push('#');
            push_hex_byte(&mut s, c.0);
            push_hex_byte(&mut s, c.1);
            push_hex_byte(&mut s, c.2);
            assert(s@ =~= color_code(c));
            Some(s)
        },
        None => None,
    }
}

/// Puts `text` between a colour escape and a reset.
fn paint(intro: &str, text: &str, c: Rgb) -> (r: String)
    ensures
        r@ == painted(intro@, text@, c),
{
    let mut r = String::new();
    r.append(intro);
    push_decimal(&mut r, c.0 as u64);
    r.append(";");
    push_decimal(&mut r, c.1 as u64);
    r.append(";");
    push_decimal(&mut r, c.2 as u64);
    r.append("m");
    r.append(text);
    r.append("\x1b[0m");
    assert(r@ =~= painted(intro@, text@, c));
    r
}

/// Colours `text`.
pub fn fg24(text: &str, hex: &str) -> (r: String)
    requires
        separable(hex@),
    ensures
        r@ == fg24_text(text@, hex@),
{
    match parse_hex(hex) {
        Some(c) => paint("\x1b[38;2;", text, c),
        None => text.to_owned(),
    }
}

/// Colours what is behind `text`.
pub fn bg24(text: &str, hex: &str) -> (r: String)
    requires
        separable(hex@),
    ensures
        r@ == bg24_text(text@, hex@),
{
    match parse_hex(hex) {
        Some(c) => paint("\x1b[48;2;", text, c),
        None => text.to_owned(),
    }
}

} // verus!
