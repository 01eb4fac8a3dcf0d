//! One segment of the bar and its one-line notation:
//! `segment NAME [+GAP] [#RRGGBB] COMMAND... [INTERVAL]`, disabled by a
//! leading hash sign.

use vstd::prelude::*;
use vstd::slice::slice_subrange;
use vstd::string::StringExecFns;
use vstd::utf8::{encode_utf8, is_char_boundary};

use crate::number::{
    decimal, is_ascii_digit, is_ascii_hexdigit, is_hex_digit, lower, number, push_decimal,
    read_number, to_lower,
};
use crate::text::{
    chars_of, cut_white, digit, end_run, is_digit, is_white, is_whitespace, lemma_end_run_is,
    lemma_run_is, run, skip_white, solid, string_of, texts, trim_end, trim_start,
};

verus! {

/// A segment of the bar.
#[derive(Clone)]
pub struct Segment {
    /// A disabled segment is written as a comment.
    pub enabled: bool,
    pub name: String,
    /// Extra gap in pixels, 0 for none.
    pub gap_override: u32,
    /// Colour code, empty for the default foreground.
    pub color: String,
    /// The command with its arguments.
    pub command: String,
    /// Seconds between two runs of the command, 0 for a static segment.
    pub interval: u32,
    /// Lines of the file that stand before this segment; on the last one also,
    /// with a mark, those that stand behind it.
    pub comments_above: Vec<String>,
}

/// What a [`Segment`] holds.
#[verifier::ext_equal]
pub struct SegmentView {
    pub enabled: bool,
    pub name: Seq<char>,
    pub gap_override: u32,
    pub color: Seq<char>,
    pub command: Seq<char>,
    pub interval: u32,
    pub comments_above: Seq<Seq<char>>,
}

impl View for Segment {
    type V = SegmentView;

    open spec fn view(&self) -> SegmentView {
        SegmentView {
            enabled: self.enabled,
            name: self.name@,
            gap_override: self.gap_override,
            color: self.color@,
            command: self.command@,
            interval: self.interval,
            comments_above: texts(self.comments_above@),
        }
    }
}

/// The text between the name and the end of a segment's body.
pub open spec fn after_name(body: Seq<char>) -> Seq<char> {
    let s = trim_start(body);
    trim_start(s.skip(run(s, solid())))
}

/// The name: the first word of the body.
pub open spec fn name_in(body: Seq<char>) -> Seq<char> {
    let s = trim_start(body);
    s.take(run(s, solid()))
}

/// Whether `s` begins with a gap: a plus sign and the digits of a 32-bit
/// number, followed by white space or by nothing.
pub open spec fn has_gap(s: Seq<char>) -> bool {
    s.len() > 0 && s[0] == '+' && {
        let rest = s.skip(1);
        let d = run(rest, digit());
        &&& d > 0
        &&& d < rest.len() ==> is_white(rest[d])
        &&& number(rest.take(d)) is Some
    }
}

/// The gap that `s` begins with, 0 if it begins with none.
pub open spec fn gap_in(s: Seq<char>) -> u32 {
    if has_gap(s) {
        number(s.skip(1).take(run(s.skip(1), digit())))->0
    } else {
        0
    }
}

/// What follows the gap.
pub open spec fn after_gap(s: Seq<char>) -> Seq<char> {
    if has_gap(s) {
        trim_start(s.skip(1).skip(run(s.skip(1), digit())))
    } else {
        s
    }
}

/// Whether `s` begins with a colour: a hash sign and six hexadecimal digits,
/// followed by white space or by nothing.
pub open spec fn has_color(s: Seq<char>) -> bool {
    &&& s.len() >= 7
    &&& s[0] == '#'
    &&& forall|i: int| 1 <= i < 7 ==> is_hex_digit(#[trigger] s[i])
    &&& s.len() > 7 ==> is_white(s[7])
}

/// The colour that `s` begins with, in lower case; empty if it begins with none.
pub open spec fn color_in(s: Seq<char>) -> Seq<char> {
    if has_color(s) {
        Seq::new(7, |i: int| lower(s[i]))
    } else {
        Seq::empty()
    }
}

/// What follows the colour.
pub open spec fn after_color(s: Seq<char>) -> Seq<char> {
    if has_color(s) {
        trim_start(s.skip(7))
    } else {
        s
    }
}

/// Whether `s` ends with an interval: the digits of a 32-bit number after a
/// blank or a tab.
pub open spec fn has_interval(s: Seq<char>) -> bool {
    let d = end_run(s, digit());
    &&& 0 < d < s.len()
    &&& s[s.len() - d - 1] == ' ' || s[s.len() - d - 1] == '\t'
    &&& number(s.skip(s.len() - d)) is Some
}

/// The interval that `s` ends with, 0 if it ends with none.
pub open spec fn interval_in(s: Seq<char>) -> u32 {
    if has_interval(s) {
        number(s.skip(s.len() - end_run(s, digit())))->0
    } else {
        0
    }
}

/// What stands before the interval.
pub open spec fn before_interval(s: Seq<char>) -> Seq<char> {
    if has_interval(s) {
        trim_end(s.take(s.len() - end_run(s, digit())))
    } else {
        s
    }
}

/// The command and the interval of a body.
pub open spec fn command_part(body: Seq<char>) -> Seq<char> {
    trim_end(after_color(after_gap(after_name(body))))
}

/// The enabled segment that a body denotes.
pub open spec fn segment_of(body: Seq<char>) -> SegmentView {
    SegmentView {
        enabled: true,
        name: name_in(body),
        gap_override: gap_in(after_name(body)),
        color: color_in(after_gap(after_name(body))),
        command: before_interval(command_part(body)),
        interval: interval_in(command_part(body)),
        comments_above: Seq::empty(),
    }
}

/// Whether a text can be looked at where a colour may stand. There, the six bytes
/// after a hash sign are cut off: a character of several bytes must not lie
/// across that cut.
pub open spec fn hash_separable(s: Seq<char>) -> bool {
    s.len() > 0 && s[0] == '#' ==> {
        let bytes = encode_utf8(s.skip(1));
        bytes.len() >= 6 ==> is_char_boundary(bytes, 6)
    }
}

/// Whether the place of the colour in a body can be looked at.
pub open spec fn body_separable(body: Seq<char>) -> bool {
    hash_separable(after_gap(after_name(body)))
}

/// The interval as it stands at the end of a line.
pub open spec fn interval_tail(v: SegmentView) -> Seq<char> {
    if v.interval > 0 {
        seq![' '] + decimal(v.interval as nat)
    } else {
        Seq::empty()
    }
}

/// The command and what follows it.
pub open spec fn command_tail(v: SegmentView) -> Seq<char> {
    (if v.command.len() > 0 {
        seq![' '] + v.command
    } else {
        Seq::empty()
    }) + interval_tail(v)
}

/// The colour and what follows it.
pub open spec fn color_tail(v: SegmentView) -> Seq<char> {
    (if v.color.len() > 0 {
        seq![' '] + v.color
    } else {
        Seq::empty()
    }) + command_tail(v)
}

/// The gap and what follows it.
pub open spec fn gap_tail(v: SegmentView) -> Seq<char> {
    (if v.gap_override > 0 {
        seq![' ', '+'] + decimal(v.gap_override as nat)
    } else {
        Seq::empty()
    }) + color_tail(v)
}

/// A segment in its notation, without the introducing keyword.
pub open spec fn body_of(v: SegmentView) -> Seq<char> {
    v.name + gap_tail(v)
}

/// The line that denotes a segment.
pub open spec fn line_of(v: SegmentView) -> Seq<char> {
    (if v.enabled {
        ""@
    } else {
        "# "@
    }) + "segment "@ + body_of(v)
}

/// Decides [`body_separable`], which [`parse_segment_body`] asks of its argument.
pub fn is_body_separable(body: &[char]) -> (b: bool)
    ensures
        b == body_separable(body@),
{
    let (_name, s) = read_name(body);
    let (_gap, s) = read_gap(s);
    if s.len() == 0 || s[0] != '#' {
        return true;
    }
    let rest = slice_subrange(s, 1, s.len());
    assert(rest@ == s@.skip(1));
    let code = string_of(rest);
    let bytes = code.as_str().as_bytes();
    if bytes.len() < 6 {
        true
    } else {
        code.as_str().is_char_boundary(6)
    }
}

/// Splits the name off a body.
fn read_name(body: &[char]) -> (r: (&[char], &[char]))
    ensures
        r.0@ == name_in(body@),
        r.1@ == after_name(body@),
{
    let s = skip_white(body);
    let mut i: usize = 0;
    while i < s.len() && !is_whitespace(s[i])
        invariant
            i <= s.len(),
            forall|k: int| 0 <= k < i ==> !is_white(#[trigger] s@[k]),
        decreases s.len() - i,
    {
        i += 1;
    }
    proof {
        lemma_run_is(s@, solid(), i as int);
    }
    (slice_subrange(s, 0, i), skip_white(slice_subrange(s, i, s.len())))
}

/// Splits an optional gap off.
fn read_gap(s: &[char]) -> (r: (u32, &[char]))
    ensures
        r.0 == gap_in(s@),
        r.1@ == after_gap(s@),
{
    if s.len() == 0 || s[0] != '+' {
        return (0, s);
    }
    let rest = slice_subrange(s, 1, s.len());
    assert(rest@ == s@.skip(1));
    let mut d: usize = 0;
    while d < rest.len() && is_ascii_digit(rest[d])
        invariant
            d <= rest.len(),
            forall|k: int| 0 <= k < d ==> is_digit(#[trigger] rest@[k]),
        decreases rest.len() - d,
    {
        d += 1;
    }
    proof {
        lemma_run_is(rest@, digit(), d as int);
    }
    if d == 0 || (d < rest.len() && !is_whitespace(rest[d])) {
        return (0, s);
    }
    match read_number(slice_subrange(rest, 0, d)) {
        Some(n) => (n, skip_white(slice_subrange(rest, d, rest.len()))),
        None => (0, s),
    }
}

/// Splits an optional colour off.
fn read_color(s: &[char]) -> (r: (String, &[char]))
    ensures
        r.0@ == color_in(s@),
        r.1@ == after_color(s@),
{
    if s.len() < 7 || s[0] != '#' || (s.len() > 7 && !is_whitespace(s[7])) {
        return (String::new(), s);
    }
    let mut color = String::new();
    color.push('#');
    let mut i: usize = 1;
    while i < 7
        invariant
            1 <= i <= 7,
            s.len() >= 7,
            s@[0] == '#',
            forall|k: int| 1 <= k < i ==> is_hex_digit(#[trigger] s@[k]),
            color@ == Seq::new(i as nat, |k: int| lower(s@[k])),
        decreases 7 - i,
    {
        if !is_ascii_hexdigit(s[i]) {
            return (String::new(), s);
        }
        color.push(to_lower(s[i]));
        i += 1;
    }
    (color, skip_white(slice_subrange(s, 7, s.len())))
}

/// Splits an optional interval off the end.
fn read_interval(s: &[char]) -> (r: (&[char], u32))
    ensures
        r.0@ == before_interval(s@),
        r.1 == interval_in(s@),
{
    let mut start: usize = s.len();
    while start > 0 && is_ascii_digit(s[start - 1])
        invariant
            start <= s.len(),
            forall|k: int| start <= k < s.len() ==> is_digit(#[trigger] s@[k]),
        decreases start,
    {
        start -= 1;
    }
    proof {
        lemma_end_run_is(s@, digit(), s.len() - start);
    }
    if start == s.len() || start == 0 || (s[start - 1] != ' ' && s[start - 1] != '\t') {
        return (s, 0);
    }
    match read_number(slice_subrange(s, start, s.len())) {
        Some(n) => (cut_white(slice_subrange(s, 0, start)), n),
        None => (s, 0),
    }
}

/// Reads a segment's body.
pub fn read_body(body: &[char]) -> (seg: Segment)
    requires
        body_separable(body@),
    ensures
        seg@ == segment_of(body@),
{
    let (name, s) = read_name(body);
    let (gap_override, s) = read_gap(s);
    let (color, s) = read_color(s);
    let (command, interval) = read_interval(cut_white(s));
    let seg = Segment {
        enabled: true,
        name: string_of(name),
        gap_override,
        color,
        command: string_of(command),
        interval,
        comments_above: Vec::new(),
    };
    assert(seg@.comments_above =~= Seq::<Seq<char>>::empty());
    seg
}

/// Reads the body of a segment: name, gap, colour, command and interval.
pub fn parse_segment_body(body: &str) -> (seg: Segment)
    requires
        body_separable(body@),
    ensures
        seg@ == segment_of(body@),
{
    let cs = chars_of(body);
    read_body(cs.as_slice())
}

/// Appends a blank and `word`, unless `word` is empty.
fn push_word(out: &mut String, word: &str)
    ensures
        final(out)@ == old(out)@ + (if word@.len() > 0 {
            seq![' '] + word@
        } else {
            Seq::empty()
        }),
{
    if !word.is_empty() {
        out.push(' ');
        out.append(word);
    }
    assert(out@ =~= old(out)@ + (if word@.len() > 0 {
        seq![' '] + word@
    } else {
        Seq::empty()
    }));
}

/// Writes a segment as one line.
pub fn serialize_segment(seg: &Segment) -> (line: String)
    ensures
        line@ == line_of(seg@),
{
    let mut out = String::new();
    out.append(if seg.enabled { "" } else { "# " });
    out.append("segment ");
    out.append(seg.name.as_str());
    let ghost head = out@;
    if seg.gap_override > 0 {
        out.push(' ');
        out.push('+');
        push_decimal(&mut out, seg.gap_override as u64);
    }
    let ghost gap = if seg@.gap_override > 0 {
        seq![' ', '+'] + decimal(seg@.gap_override as nat)
    } else {
        Seq::empty()
    };
    assert(out@ =~= head + gap);
    push_word(&mut out, seg.color.as_str());
    push_word(&mut out, seg.command.as_str());
    let ghost so_far = out@;
    if seg.interval > 0 {
        out.push(' ');
        push_decimal(&mut out, seg.interval as u64);
    }
    assert(out@ =~= so_far + interval_tail(seg@));
    proof {
        lemma_line_of(seg@, head, gap);
    }
    out
}

/// The pieces of a line, joined from the left.
proof fn lemma_line_of(v: SegmentView, head: Seq<char>, gap: Seq<char>)
    requires
        head == Seq::<char>::empty() + (if v.enabled {
            ""@
        } else {
            "# "@
        }) + "segment "@ + v.name,
        gap == if v.gap_override > 0 {
            seq![' ', '+'] + decimal(v.gap_override as nat)
        } else {
            Seq::empty()
        },
    ensures
        head + gap + (if v.color.len() > 0 {
            seq![' '] + v.color
        } else {
            Seq::empty()
        }) + (if v.command.len() > 0 {
            seq![' '] + v.command
        } else {
            Seq::empty()
        }) + interval_tail(v) == line_of(v),
{
    let color = if v.color.len() > 0 {
        seq![' '] + v.color
    } else {
        Seq::empty()
    };
    let command = if v.command.len() > 0 {
        seq![' '] + v.command
    } else {
        Seq::empty()
    };
    let interval = interval_tail(v);
    let mark = if v.enabled {
        ""@
    } else {
        "# "@
    };
    assert(line_of(v) == mark + "segment "@ + (v.name + (gap + (color + (command + interval)))));
    assert(head + gap + color + command + interval =~= mark + "segment "@ + (v.name + (gap + (color
        + (command + interval)))));
}

} // verus!
