//! Numbers in text: decimal numerals and pairs of hexadecimal digits.

use vstd::prelude::*;

use crate::text::is_digit;

verus! {

/// The value of a decimal digit.
pub open spec fn digit_value(c: char) -> nat {
    (c as u32 - '0' as u32) as nat
}

/// The decimal digit of a value below ten.
pub open spec fn digit_char(n: nat) -> char {
    ('0' as u32 + n) as char
}

/// Whether every character is a decimal digit.
pub open spec fn all_digits(s: Seq<char>) -> bool {
    forall|i: int| 0 <= i < s.len() ==> is_digit(#[trigger] s[i])
}

/// The number that a sequence of decimal digits denotes.
pub open spec fn value(s: Seq<char>) -> nat
    decreases s.len(),
{
    if s.len() == 0 {
        0
    } else {
        10 * value(s.drop_last()) + digit_value(s.last())
    }
}

/// The decimal numeral of `n`, without leading zeros.
pub open spec fn decimal(n: nat) -> Seq<char>
    decreases n,
{
    if n < 10 {
        seq![digit_char(n)]
    } else {
        decimal(n / 10).push(digit_char(n % 10))
    }
}

/// The digits of a numeral: what follows an optional plus sign.
pub open spec fn unsigned_part(s: Seq<char>) -> Seq<char> {
    if s.len() > 1 && s[0] == '+' {
        s.skip(1)
    } else {
        s
    }
}

/// The 32-bit number that a text denotes: decimal digits, at least one, after
/// an optional plus sign. `None` for other texts and for larger numbers.
pub open spec fn number(s: Seq<char>) -> Option<u32> {
    let d = unsigned_part(s);
    if d.len() > 0 && all_digits(d) && value(d) <= u32::MAX {
        Some(value(d) as u32)
    } else {
        None
    }
}

/// Whether a character is a hexadecimal digit of either case.
pub open spec fn is_hex_digit(c: char) -> bool {
    is_digit(c) || 'a' <= c <= 'f' || 'A' <= c <= 'F'
}

/// The value of a hexadecimal digit.
pub open spec fn hex_value(c: char) -> nat {
    if is_digit(c) {
        digit_value(c)
    } else if 'a' <= c <= 'f' {
        (c as u32 - 'a' as u32 + 10) as nat
    } else {
        (c as u32 - 'A' as u32 + 10) as nat
    }
}

/// The lower-case hexadecimal digit of a value below sixteen.
pub open spec fn hex_char(n: nat) -> char {
    if n < 10 {
        digit_char(n)
    } else {
        ('a' as u32 + n - 10) as char
    }
}

/// The byte that two characters denote in base sixteen. As in any numeral, the
/// first of them may be a plus sign.
pub open spec fn hex_pair(a: char, b: char) -> Option<u8> {
    if a == '+' && is_hex_digit(b) {
        Some(hex_value(b) as u8)
    } else if is_hex_digit(a) && is_hex_digit(b) {
        Some((16 * hex_value(a) + hex_value(b)) as u8)
    } else {
        None
    }
}

/// The lower-case form of an ASCII character.
pub open spec fn lower(c: char) -> char {
    if 'A' <= c <= 'Z' {
        (c as u32 + 32) as char
    } else {
        c
    }
}

/// A longer numeral denotes at least what its prefixes do.
pub proof fn lemma_value_prefix(s: Seq<char>, n: int)
    requires
        0 <= n <= s.len(),
    ensures
        value(s.take(n)) <= value(s),
    decreases s.len(),
{
    if n < s.len() {
        lemma_value_prefix(s.drop_last(), n);
        assert(s.drop_last().take(n) == s.take(n));
    } else {
        assert(s.take(n) == s);
    }
}

/// A decimal numeral is made of digits and denotes the number it was made from.
pub proof fn lemma_decimal(n: nat)
    ensures
        decimal(n).len() > 0,
        all_digits(decimal(n)),
        value(decimal(n)) == n,
    decreases n,
{
    if n < 10 {
        let s = decimal(n);
        assert(s.drop_last() == Seq::<char>::empty());
        assert(value(s.drop_last()) == 0);
    } else {
        lemma_decimal(n / 10);
        assert(decimal(n).drop_last() == decimal(n / 10));
    }
}

/// Reading back a decimal numeral gives the number that it was written from.
pub proof fn law_number_of_decimal(n: u32)
    ensures
        number(decimal(n as nat)) == Some(n),
{
    lemma_decimal(n as nat);
    let s = decimal(n as nat);
    assert(is_digit(s[0]));
    assert(unsigned_part(s) == s);
}

/// Whether a character is a decimal digit.
pub fn is_ascii_digit(c: char) -> (b: bool)
    ensures
        b == is_digit(c),
{
    '0' <= c && c <= '9'
}

/// The decimal digit of a value below ten.
fn digit_of(n: u8) -> (c: char)
    requires
        n < 10,
    ensures
        c == digit_char(n as nat),
{
    (48u8 + n) as char
}

/// Appends the decimal numeral of `n`.
pub fn push_decimal(out: &mut String, n: u64)
    ensures
        final(out)@ == old(out)@ + decimal(n as nat),
    decreases n,
{
    if n >= 10 {
        push_decimal(out, n / 10);
    }
    out.push(digit_of((n % 10) as u8));
}

/// The decimal numeral of `n`.
pub fn decimal_of(n: u32) -> (r: String)
    ensures
        r@ == decimal(n as nat),
{
    let mut r = String::new();
    push_decimal(&mut r, n as u64);
    r
}

/// Reads a 32-bit decimal number.
pub fn read_number(s: &[char]) -> (r: Option<u32>)
    ensures
        r == number(s@),
{
    let first: usize = if s.len() > 1 && s[0] == '+' {
        1
    } else {
        0
    };
    let ghost d = unsigned_part(s@);
    assert(d == s@.skip(first as int));
    if first == s.len() {
        return None;
    }
    let mut n: u64 = 0;
    let mut i: usize = first;
    while i < s.len()
        invariant
            first <= i <= s.len(),
            d == unsigned_part(s@),
            d == s@.skip(first as int),
            all_digits(d.take(i - first)),
            n == value(d.take(i - first)),
            n <= u32::MAX,
        decreases s.len() - i,
    {
        let c = s[i];
        assert(d[i - first] == c);
        if !is_ascii_digit(c) {
            return None;
        }
        n = n * 10 + (c as u32 as u64 - 48);
        i += 1;
        proof {
            let t = d.take(i - first);
            assert(t.drop_last() == d.take(i - 1 - first));
            assert(t.last() == c);
            assert forall|k: int| 0 <= k < t.len() implies is_digit(#[trigger] t[k]) by {
                if k < t.len() - 1 {
                    assert(t[k] == t.drop_last()[k]);
                }
            }
            lemma_value_prefix(d, i - first);
        }
        if n > u32::MAX as u64 {
            return None;
        }
    }
    assert(d.take(s.len() - first) == d);
    Some(n as u32)
}

/// Whether a character is a hexadecimal digit.
pub fn is_ascii_hexdigit(c: char) -> (b: bool)
    ensures
        b == is_hex_digit(c),
{
    is_ascii_digit(c) || ('a' <= c && c <= 'f') || ('A' <= c && c <= 'F')
}

/// The value of a hexadecimal digit.
fn hex_digit_value(c: char) -> (n: u8)
    requires
        is_hex_digit(c),
    ensures
        n == hex_value(c),
        n < 16,
{
    let u: u32 = c as u32;
    if is_ascii_digit(c) {
        (u - 48) as u8
    } else if 'a' <= c && c <= 'f' {
        (u - 97 + 10) as u8
    } else {
        (u - 65 + 10) as u8
    }
}

/// Reads a byte from two hexadecimal digits.
pub fn read_hex_pair(a: char, b: char) -> (r: Option<u8>)
    ensures
        r == hex_pair(a, b),
{
    if a == '+' && is_ascii_hexdigit(b) {
        Some(hex_digit_value(b))
    } else if is_ascii_hexdigit(a) && is_ascii_hexdigit(b) {
        Some(16 * hex_digit_value(a) + hex_digit_value(b))
    } else {
        None
    }
}

/// The lower-case hexadecimal digit of a value below sixteen.
fn hex_digit_of(n: u8) -> (c: char)
    requires
        n < 16,
    ensures
        c == hex_char(n as nat),
{
    if n < 10 {
        digit_of(n)
    } else {
        (97u8 + (n - 10)) as char
    }
}

/// The two lower-case hexadecimal digits of a byte.
pub open spec fn hex_byte(n: u8) -> Seq<char> {
    seq![hex_char(n as nat / 16), hex_char(n as nat % 16)]
}

/// Appends a byte as two lower-case hexadecimal digits.
pub fn push_hex_byte(out: &mut String, n: u8)
    ensures
        final(out)@ == old(out)@ + hex_byte(n),
{
    out.push(hex_digit_of(n / 16));
    out.push(hex_digit_of(n % 16));
}

/// The lower-case form of an ASCII character.
pub fn to_lower(c: char) -> (r: char)
    ensures
        r == lower(c),
{
    if 'A' <= c && c <= 'Z' {
        (c as u32 as u8 + 32) as char
    } else {
        c
    }
}

} // verus!
