//! What is read from a line: the parts of a segment wherever they stand in it,
//! the value of a setting, or nothing.

use vstd::prelude::*;

use crate::basic_laws::{
    all_white, digits_only, in_hex, law_color_of, law_hex_digits, law_number, law_trim, solid_end,
    solid_start,
};
use crate::color::{color_of, is_canonical, is_lower_hex};
use crate::config::{
    before_equals, is_disabled_segment, key_in, keyword, line_separable, line_view, uncommented,
    value_in, LineView,
};
use crate::globals::{key_name, key_named, law_keys_are_named, GlobalKey};
use crate::number::{hex_value, is_hex_digit, lower, value};
use crate::segment::{
    after_color, after_gap, after_name, before_interval, body_separable, color_in, command_part,
    gap_in, has_color, has_gap, has_interval, hash_separable, interval_in, name_in, segment_of,
    SegmentView,
};
use crate::text::{
    digit, end_run, is_white, lemma_end_run, lemma_end_run_is, lemma_run, lemma_run_is, run, solid,
    starts_with, trim, trim_start,
};

verus! {

/// Whether a text is made of anything but white space.
pub open spec fn all_solid(s: Seq<char>) -> bool {
    forall|i: int| 0 <= i < s.len() ==> !is_white(#[trigger] s[i])
}

/// The parts of a segment as they stand in its notation, and the white space
/// behind each. Digits and hexadecimal digits stand for the gap, the colour and
/// the interval; an absent part is empty.
pub struct Parts {
    pub before: Seq<char>,
    pub name: Seq<char>,
    pub after_name: Seq<char>,
    pub gap: Seq<char>,
    pub after_gap: Seq<char>,
    pub hex: Seq<char>,
    pub after_hex: Seq<char>,
    pub command: Seq<char>,
    pub after_command: Seq<char>,
    pub interval: Seq<char>,
    pub after: Seq<char>,
}

/// The command and what follows it.
pub open spec fn command_on(p: Parts) -> Seq<char> {
    p.command + p.after_command + p.interval + p.after
}

/// The colour and what follows it.
pub open spec fn color_on(p: Parts) -> Seq<char> {
    if p.hex.len() > 0 {
        seq!['#'] + p.hex + (p.after_hex + command_on(p))
    } else {
        command_on(p)
    }
}

/// The gap and what follows it.
pub open spec fn gap_on(p: Parts) -> Seq<char> {
    if p.gap.len() > 0 {
        seq!['+'] + p.gap + (p.after_gap + color_on(p))
    } else {
        color_on(p)
    }
}

/// The notation with these parts.
pub open spec fn notation(p: Parts) -> Seq<char> {
    p.before + (p.name + (p.after_name + gap_on(p)))
}

/// Whether these are the parts of a segment: a name; perhaps a gap; perhaps a
/// colour; perhaps a command, which is not itself a part that is absent, and
/// then perhaps an interval behind a blank or a tab.
pub open spec fn are_parts(p: Parts) -> bool {
    &&& all_white(p.before) && all_white(p.after_name) && all_white(p.after_gap)
    &&& all_white(p.after_hex) && all_white(p.after_command) && all_white(p.after)
    &&& p.name.len() > 0 && all_solid(p.name)
    &&& gap_on(p).len() > 0 ==> p.after_name.len() > 0
    &&& digits_only(p.gap) && value(p.gap) <= 0xffff_ffff
    &&& p.gap.len() > 0 && color_on(p).len() > 0 ==> p.after_gap.len() > 0
    &&& p.hex.len() == 0 || p.hex.len() == 6
    &&& forall|i: int| 0 <= i < p.hex.len() ==> in_hex(#[trigger] p.hex[i])
    &&& p.hex.len() > 0 && command_on(p).len() > 0 ==> p.after_hex.len() > 0
    &&& solid_start(p.command) && solid_end(p.command)
    &&& p.command.len() == 0 ==> command_on(p).len() == 0
    &&& p.gap.len() == 0 && p.hex.len() == 0 ==> !has_gap(command_on(p))
    &&& p.hex.len() == 0 ==> !has_color(command_on(p))
    &&& p.interval.len() == 0 ==> p.after_command.len() == 0 && !has_interval(p.command)
    &&& p.interval.len() > 0 ==> {
        &&& digits_only(p.interval) && value(p.interval) <= 0xffff_ffff
        &&& p.after_command.len() > 0
        &&& p.after_command[p.after_command.len() - 1] == ' '
            || p.after_command[p.after_command.len() - 1] == '\t'
    }
}

proof fn lemma_name_stage(w: Seq<char>, name: Seq<char>, rest: Seq<char>)
    requires
        all_white(w),
        name.len() > 0,
        all_solid(name),
        rest.len() > 0 ==> is_white(rest[0]),
    ensures
        name_in(w + (name + rest)) == name,
        after_name(w + (name + rest)) == trim_start(rest),
{
    let s = name + rest;
    assert(s[0] == name[0]);
    law_trim(w, s, w);
    let n = name.len() as int;
    assert forall|i: int| 0 <= i < n implies solid()(#[trigger] s[i]) by {
        assert(s[i] == name[i]);
    }
    if rest.len() > 0 {
        assert(s[n] == rest[0]);
    }
    lemma_run_is(s, solid(), n);
    assert(s.take(n) =~= name);
    assert(s.skip(n) =~= rest);
}

proof fn lemma_gap_stage(gap: Seq<char>, rest: Seq<char>)
    requires
        gap.len() > 0,
        digits_only(gap),
        value(gap) <= 0xffff_ffff,
        rest.len() > 0 ==> is_white(rest[0]),
    ensures
        has_gap(seq!['+'] + gap + rest),
        gap_in(seq!['+'] + gap + rest) == value(gap),
        after_gap(seq!['+'] + gap + rest) == trim_start(rest),
{
    let s = seq!['+'] + gap + rest;
    let r = s.skip(1);
    let n = gap.len() as int;
    assert(r =~= gap + rest);
    assert forall|i: int| 0 <= i < n implies digit()(#[trigger] r[i]) by {
        assert(r[i] == gap[i]);
    }
    if rest.len() > 0 {
        assert(r[n] == rest[0]);
    }
    lemma_run_is(r, digit(), n);
    assert(r.take(n) =~= gap);
    assert(r.skip(n) =~= rest);
    law_number(gap, gap);
}

proof fn lemma_color_stage(hex: Seq<char>, rest: Seq<char>)
    requires
        hex.len() == 6,
        forall|i: int| 0 <= i < 6 ==> in_hex(#[trigger] hex[i]),
        rest.len() > 0 ==> is_white(rest[0]),
    ensures
        has_color(seq!['#'] + hex + rest),
        after_color(seq!['#'] + hex + rest) == trim_start(rest),
        color_in(seq!['#'] + hex + rest) == seq!['#'] + hex.map_values(|c: char| lower(c)),
{
    let s = seq!['#'] + hex + rest;
    assert forall|i: int| 1 <= i < 7 implies is_hex_digit(#[trigger] s[i]) by {
        assert(s[i] == hex[i - 1]);
        law_hex_digits(0, hex[i - 1]);
    }
    if rest.len() > 0 {
        assert(s[7] == rest[0]);
    }
    assert(s.skip(7) =~= rest);
    let low = seq!['#'] + hex.map_values(|c: char| lower(c));
    law_hex_digits(0, '#');
    assert forall|i: int| 0 <= i < 7 implies color_in(s)[i] == low[i] by {
        if i > 0 {
            assert(s[i] == hex[i - 1]);
        }
    }
    assert(color_in(s) =~= low);
}

/// The colour read is the one that stands there, in digits of lower case.
proof fn lemma_color_read(hex: Seq<char>)
    requires
        hex.len() == 6,
        forall|i: int| 0 <= i < 6 ==> in_hex(#[trigger] hex[i]),
    ensures
        ({
            let low = seq!['#'] + hex.map_values(|c: char| lower(c));
            &&& is_canonical(low)
            &&& color_of(low) is Some
            &&& color_of(low) == color_of(seq!['#'] + hex)
        }),
{
    let h = hex.map_values(|c: char| lower(c));
    let e = Seq::<char>::empty();
    let one = seq!['#'];
    let low = one + h;
    assert forall|i: int| 0 <= i < 6 implies in_hex(#[trigger] h[i]) && hex_value(h[i])
        == hex_value(hex[i]) && is_lower_hex(h[i]) by {
        assert(in_hex(hex[i]));
        law_hex_digits(0, hex[i]);
    }
    assert forall|i: int| 1 <= i < 7 implies is_lower_hex(#[trigger] low[i]) by {
        assert(low[i] == h[i - 1]);
    }
    law_color_of(e, one, h, e);
    law_color_of(e, one, hex, e);
    assert(e + (one + h + e) =~= one + h);
    assert(e + (one + hex + e) =~= one + hex);
    assert(in_hex(h[0]) && in_hex(h[1]) && in_hex(h[2]) && in_hex(h[3]) && in_hex(h[4]) && in_hex(
        h[5],
    ));
}

proof fn lemma_interval_stage(command: Seq<char>, w: Seq<char>, interval: Seq<char>)
    requires
        command.len() > 0,
        solid_end(command),
        all_white(w),
        w.len() > 0,
        w[w.len() - 1] == ' ' || w[w.len() - 1] == '\t',
        interval.len() > 0,
        digits_only(interval),
        value(interval) <= 0xffff_ffff,
    ensures
        has_interval(command + w + interval),
        interval_in(command + w + interval) == value(interval),
        before_interval(command + w + interval) == command,
{
    let s = command + w + interval;
    let n = interval.len() as int;
    let k = s.len() - n;
    assert forall|i: int| k <= i < s.len() implies digit()(#[trigger] s[i]) by {
        assert(s[i] == interval[i - k]);
    }
    assert(s[k - 1] == w[w.len() - 1]);
    lemma_end_run_is(s, digit(), n);
    assert(s.skip(k) =~= interval);
    assert(s.take(k) =~= command + w);
    law_number(interval, interval);
    law_trim(w, command, w);
}

/// Every part of a segment is read, wherever the others stand or are absent and
/// whatever white space is between them: the name, the number of the gap, the
/// colour of the hexadecimal digits of either case, the command to the letter,
/// the number of the interval. A part that is absent is read as none.
pub proof fn law_reads_parts(p: Parts)
    requires
        are_parts(p),
    ensures
        ({
            let v = segment_of(notation(p));
            &&& v.enabled
            &&& v.name == p.name
            &&& v.gap_override == value(p.gap)
            &&& p.hex.len() == 0 ==> v.color.len() == 0
            &&& p.hex.len() > 0 ==> {
                &&& is_canonical(v.color)
                &&& color_of(v.color) is Some
                &&& color_of(v.color) == color_of(seq!['#'] + p.hex)
            }
            &&& v.command == p.command
            &&& v.interval == value(p.interval)
            &&& v.comments_above.len() == 0
        }),
        after_gap(after_name(notation(p))) == color_on(p),
{
    let body = notation(p);
    let r1 = gap_on(p);
    let r2 = color_on(p);
    let r3 = command_on(p);
    let e = Seq::<char>::empty();
    if p.command.len() > 0 {
        assert(r3[0] == p.command[0]);
    }
    if p.hex.len() > 0 {
        assert(r2[0] == '#');
    }
    if p.gap.len() > 0 {
        assert(r1[0] == '+');
    }
    // The name.
    let t0 = p.after_name + r1;
    if t0.len() > 0 {
        assert(p.after_name.len() > 0);
        assert(t0[0] == p.after_name[0]);
    }
    lemma_name_stage(p.before, p.name, t0);
    law_trim(p.after_name, r1, e);
    assert(after_name(body) == r1);
    // The gap.
    let t1 = p.after_gap + r2;
    if p.gap.len() > 0 {
        if t1.len() > 0 {
            assert(p.after_gap.len() > 0);
            assert(t1[0] == p.after_gap[0]);
        }
        lemma_gap_stage(p.gap, t1);
        law_trim(p.after_gap, r2, e);
    } else {
        assert(p.gap =~= e);
        assert(!has_gap(r2));
    }
    assert(after_gap(r1) == r2);
    // The colour.
    let t2 = p.after_hex + r3;
    if p.hex.len() > 0 {
        if t2.len() > 0 {
            assert(p.after_hex.len() > 0);
            assert(t2[0] == p.after_hex[0]);
        }
        lemma_color_stage(p.hex, t2);
        lemma_color_read(p.hex);
        law_trim(p.after_hex, r3, e);
    }
    assert(after_color(r2) == r3);
    // The command and the interval.
    let s = p.command + p.after_command + p.interval;
    assert(r3 =~= s + p.after);
    if p.interval.len() > 0 {
        assert(s[s.len() - 1] == p.interval[p.interval.len() - 1]);
        if p.command.len() == 0 {
            assert(r3.len() > 0);
        }
        law_trim(e, s, p.after);
        lemma_interval_stage(p.command, p.after_command, p.interval);
    } else {
        assert(s =~= p.command);
        assert(p.interval =~= e);
        law_trim(e, s, p.after);
    }
    assert(command_part(body) == s);
}

/// The notation of a segment can be looked at if what stands where its colour may
/// stand can be.
pub proof fn law_body_separable(p: Parts)
    requires
        are_parts(p),
    ensures
        body_separable(notation(p)) <==> hash_separable(color_on(p)),
{
    law_reads_parts(p);
}

/// Nothing is read from white space.
pub proof fn law_reads_nothing(w: Seq<char>)
    requires
        all_white(w),
    ensures
        ({
            let v = segment_of(w);
            &&& v.enabled
            &&& v.name.len() == 0 && v.color.len() == 0 && v.command.len() == 0
            &&& v.gap_override == 0 && v.interval == 0
            &&& v.comments_above.len() == 0
        }),
{
    let e = Seq::<char>::empty();
    law_trim(w, e, e);
    law_trim(e, e, e);
    assert(w + e =~= w);
    assert(e + e =~= e);
    lemma_run_is(e, solid(), 0);
    assert(e.take(0) =~= e && e.skip(0) =~= e);
    assert(command_part(w) =~= e);
}

/// A text begins with a gap if and only if it begins with a plus sign and digits
/// of a number of 32 bits, and then ends or goes on with white space.
pub proof fn law_has_gap(s: Seq<char>)
    ensures
        has_gap(s) <==> exists|n: int|
            1 < n <= s.len() && s[0] == '+' && #[trigger] digits_only(s.subrange(1, n)) && (n
                == s.len() || is_white(s[n])) && value(s.subrange(1, n)) <= 0xffff_ffff,
{
    let r = s.skip(1);
    if has_gap(s) {
        lemma_run(r, digit());
        let n = 1 + run(r, digit());
        let d = s.subrange(1, n);
        assert(d =~= r.take(n - 1));
        assert forall|i: int| 0 <= i < d.len() implies '0' <= (#[trigger] d[i]) <= '9' by {
            assert(digit()(r[i]));
        }
        assert(digits_only(d));
        law_number(d, d);
    }
    if exists|n: int|
        1 < n <= s.len() && s[0] == '+' && #[trigger] digits_only(s.subrange(1, n)) && (n == s.len()
            || is_white(s[n])) && value(s.subrange(1, n)) <= 0xffff_ffff {
        let n = choose|n: int|
            1 < n <= s.len() && s[0] == '+' && #[trigger] digits_only(s.subrange(1, n)) && (n
                == s.len() || is_white(s[n])) && value(s.subrange(1, n)) <= 0xffff_ffff;
        let d = s.subrange(1, n);
        let rest = s.skip(n);
        assert(s =~= seq!['+'] + d + rest);
        lemma_gap_stage(d, rest);
    }
}

/// A text begins with a colour if and only if it begins with a hash sign and six
/// hexadecimal digits of either case, and then ends or goes on with white space.
pub proof fn law_has_color(s: Seq<char>)
    ensures
        has_color(s) <==> {
            &&& s.len() >= 7
            &&& s[0] == '#'
            &&& forall|i: int| 1 <= i < 7 ==> in_hex(#[trigger] s[i])
            &&& s.len() == 7 || is_white(s[7])
        },
{
    if has_color(s) {
        assert forall|i: int| 1 <= i < 7 implies in_hex(#[trigger] s[i]) by {
            assert(is_hex_digit(s[i]));
        }
    } else if s.len() >= 7 && (forall|i: int| 1 <= i < 7 ==> in_hex(#[trigger] s[i])) {
        assert forall|i: int| 1 <= i < 7 implies is_hex_digit(#[trigger] s[i]) by {
            assert(in_hex(s[i]));
        }
    }
}

/// A text ends with an interval if and only if it ends with digits of a number of
/// 32 bits behind a blank or a tab.
pub proof fn law_has_interval(s: Seq<char>)
    ensures
        has_interval(s) <==> exists|n: int|
            0 < n < s.len() && (s[n - 1] == ' ' || s[n - 1] == '\t') && #[trigger] digits_only(
                s.skip(n),
            ) && value(s.skip(n)) <= 0xffff_ffff,
{
    if has_interval(s) {
        lemma_end_run(s, digit());
        let n = s.len() - end_run(s, digit());
        let d = s.skip(n);
        assert forall|i: int| 0 <= i < d.len() implies '0' <= (#[trigger] d[i]) <= '9' by {
            assert(digit()(s[i + n]));
        }
        assert(digits_only(d));
        law_number(d, d);
    }
    if exists|n: int|
        0 < n < s.len() && (s[n - 1] == ' ' || s[n - 1] == '\t') && #[trigger] digits_only(
            s.skip(n),
        ) && value(s.skip(n)) <= 0xffff_ffff {
        let n = choose|n: int|
            0 < n < s.len() && (s[n - 1] == ' ' || s[n - 1] == '\t') && #[trigger] digits_only(
                s.skip(n),
            ) && value(s.skip(n)) <= 0xffff_ffff;
        let d = s.skip(n);
        assert forall|i: int| n <= i < s.len() implies digit()(#[trigger] s[i]) by {
            assert(s[i] == d[i - n]);
        }
        lemma_end_run_is(s, digit(), s.len() - n);
        law_number(d, d);
    }
}

/// If the text where a colour may stand begins with one, of digits of either
/// case, the colour read is canonical and is the one that stands there.
pub proof fn law_color_is_read(body: Seq<char>)
    requires
        has_color(after_gap(after_name(body))),
    ensures
        ({
            let s = after_gap(after_name(body));
            &&& is_canonical(segment_of(body).color)
            &&& color_of(s.take(7)) is Some
            &&& color_of(segment_of(body).color) == color_of(s.take(7))
        }),
{
    let s = after_gap(after_name(body));
    let hex = s.subrange(1, 7);
    let rest = s.skip(7);
    law_has_color(s);
    assert forall|i: int| 0 <= i < 6 implies in_hex(#[trigger] hex[i]) by {
        assert(hex[i] == s[i + 1]);
    }
    assert(s =~= seq!['#'] + hex + rest);
    assert(s.take(7) =~= seq!['#'] + hex);
    lemma_color_stage(hex, rest);
    lemma_color_read(hex);
}

/// A line with the keyword denotes the segment of what follows, switched on; the
/// same line as a comment denotes it switched off. White space around does not
/// count.
pub proof fn law_segment_lines(
    w1: Seq<char>,
    w2: Seq<char>,
    body: Seq<char>,
    w3: Seq<char>,
)
    requires
        all_white(w1),
        all_white(w2),
        all_white(w3),
        body.len() > 0,
        solid_end(body),
    ensures
        line_view(w1 + ("segment "@ + body + w3)) == LineView::Segment(segment_of(body)),
        line_view(w1 + (seq!['#'] + w2 + "segment "@ + body + w3)) == LineView::Segment(
            (SegmentView { enabled: false, ..segment_of(body) }),
        ),
        line_separable(w1 + ("segment "@ + body + w3)) == body_separable(body),
        line_separable(w1 + (seq!['#'] + w2 + "segment "@ + body + w3)) == body_separable(body),
{
    reveal_strlit("segment ");
    let k = "segment "@;
    let t = k + body;
    assert(t[0] == 's');
    assert(t[t.len() - 1] == body[body.len() - 1]);
    law_trim(w1, t, w3);
    assert(t.take(8) =~= k);
    assert(t.skip(8) =~= body);
    let c = seq!['#'] + w2 + k + body;
    assert(c[0] == '#');
    assert(c[c.len() - 1] == body[body.len() - 1]);
    law_trim(w1, c, w3);
    assert(c.skip(1) =~= w2 + t);
    law_trim(w2, t, w3);
    assert(uncommented(c) == t);
    assert(is_disabled_segment(c));
}

/// A line `key = value` of a setting gives it what stands behind the first equals
/// sign, without white space around.
pub proof fn law_setting_lines(
    k: GlobalKey,
    w1: Seq<char>,
    w2: Seq<char>,
    w3: Seq<char>,
    val: Seq<char>,
    w4: Seq<char>,
)
    requires
        all_white(w1),
        all_white(w2),
        all_white(w3),
        all_white(w4),
        solid_start(val),
        solid_end(val),
    ensures
        line_view(w1 + (key_name(k) + (w2 + seq!['='] + w3 + val) + w4)) == LineView::Global(
            k,
            val,
        ),
{
    let name = key_name(k);
    let t0 = name + (w2 + seq!['='] + w3 + val);
    let t1 = name + (w2 + seq!['=']);
    // White space behind an empty value goes with the line's own.
    let t = if val.len() > 0 {
        t0
    } else {
        t1
    };
    let w = if val.len() > 0 {
        w4
    } else {
        w3 + w4
    };
    let raw = w1 + (name + (w2 + seq!['='] + w3 + val) + w4);
    assert(all_white(w)) by {
        assert forall|i: int| 0 <= i < w.len() implies is_white(#[trigger] w[i]) by {
            if val.len() == 0 {
                if i < w3.len() {
                    assert(w[i] == w3[i]);
                } else {
                    assert(w[i] == w4[i - w3.len()]);
                }
            }
        }
    }
    assert(raw =~= w1 + (t + w));
    lemma_key_name(k);
    assert(t[0] == name[0]);
    if val.len() > 0 {
        assert(t[t.len() - 1] == val[val.len() - 1]);
    } else {
        assert(t[t.len() - 1] == '=');
    }
    law_trim(w1, t, w);
    let n = (name.len() + w2.len()) as int;
    assert forall|i: int| 0 <= i < n implies before_equals()(#[trigger] t[i]) by {
        if i < name.len() {
            assert(t[i] == name[i]);
        } else {
            assert(t[i] == w2[i - name.len()]);
        }
    }
    assert(t[n] == '=');
    lemma_run_is(t, before_equals(), n);
    assert(t.take(n) =~= name + w2);
    let e = Seq::<char>::empty();
    law_trim(e, name, w2);
    assert(e + (name + w2) =~= name + w2);
    law_keys_are_named(k);
    assert(key_in(t) == Some(k));
    let rest = t.skip(n + 1);
    if val.len() > 0 {
        assert(rest =~= w3 + val);
        law_trim(w3, val, e);
        assert(w3 + (val + e) =~= w3 + val);
    } else {
        assert(rest =~= e);
        law_trim(e, e, e);
        assert(e + (e + e) =~= e);
        assert(val =~= e);
    }
    assert(value_in(t) == val);
    reveal_strlit("segment ");
    assert(!starts_with(t, keyword())) by {
        if starts_with(t, keyword()) {
            assert(t.take(8)[0] == keyword()[0]);
        }
    }
}

/// The names of the settings are words without an equals sign.
proof fn lemma_key_name(k: GlobalKey)
    ensures
        key_name(k).len() > 0,
        all_solid(key_name(k)),
        key_name(k)[0] != '#' && key_name(k)[0] != 's',
        forall|i: int| 0 <= i < key_name(k).len() ==> #[trigger] key_name(k)[i] != '=',
{
    reveal_strlit("height");
    reveal_strlit("top_offset");
    reveal_strlit("bg");
    reveal_strlit("fg");
    reveal_strlit("gap");
    reveal_strlit("font");
    reveal_strlit("char_width");
    reveal_strlit("baseline");
}

/// The settings are the eight words, no others.
pub proof fn law_key_words(word: Seq<char>)
    ensures
        key_named(word) == Some(GlobalKey::Height) <==> word == "height"@,
        key_named(word) == Some(GlobalKey::TopOffset) <==> word == "top_offset"@,
        key_named(word) == Some(GlobalKey::Bg) <==> word == "bg"@,
        key_named(word) == Some(GlobalKey::Fg) <==> word == "fg"@,
        key_named(word) == Some(GlobalKey::Gap) <==> word == "gap"@,
        key_named(word) == Some(GlobalKey::Font) <==> word == "font"@,
        key_named(word) == Some(GlobalKey::CharWidth) <==> word == "char_width"@,
        key_named(word) == Some(GlobalKey::Baseline) <==> word == "baseline"@,
{
    law_keys_are_named(GlobalKey::Height);
    law_keys_are_named(GlobalKey::TopOffset);
    law_keys_are_named(GlobalKey::Bg);
    law_keys_are_named(GlobalKey::Fg);
    law_keys_are_named(GlobalKey::Gap);
    law_keys_are_named(GlobalKey::Font);
    law_keys_are_named(GlobalKey::CharWidth);
    law_keys_are_named(GlobalKey::Baseline);
}

/// A line is kept as it is if and only if, without white space around, it is
/// empty; or is a comment that is no switched-off segment; or is no segment and
/// has no equals sign, or no name of a setting before the first one.
pub proof fn law_kept_lines(raw: Seq<char>)
    ensures
        line_view(raw) == LineView::Kept <==> {
            let t = trim(raw);
            let commented = t.len() > 0 && t[0] == '#';
            let u = if commented {
                trim_start(t.skip(1))
            } else {
                t
            };
            let segment = u.len() >= 8 && u.take(8) == "segment "@;
            let setting = exists|n: int|
                0 <= n < t.len() && t[n] == '=' && (forall|i: int|
                    0 <= i < n ==> #[trigger] t[i] != '=') && key_named(trim(#[trigger] t.take(n)))
                    is Some;
            t.len() == 0 || !segment && (commented || !setting)
        },
{
    reveal_strlit("segment ");
    let t = trim(raw);
    let n = run(t, before_equals());
    lemma_run(t, before_equals());
    let setting = exists|n: int|
        0 <= n < t.len() && t[n] == '=' && (forall|i: int| 0 <= i < n ==> #[trigger] t[i] != '=')
            && key_named(trim(#[trigger] t.take(n))) is Some;
    if key_in(t) is Some {
        assert(t[n] == '=');
        assert forall|i: int| 0 <= i < n implies #[trigger] t[i] != '=' by {
            assert(before_equals()(t[i]));
        }
        assert(key_named(trim(t.take(n))) is Some);
        assert(setting);
    }
    if setting {
        let m = choose|n: int|
            0 <= n < t.len() && t[n] == '=' && (forall|i: int|
                0 <= i < n ==> #[trigger] t[i] != '=') && key_named(trim(#[trigger] t.take(n)))
                is Some;
        lemma_run_is(t, before_equals(), m);
        assert(key_in(t) is Some);
    }
}

} // verus!
