//! What reading a segment gives back of writing it.

use vstd::prelude::*;

use crate::color::{is_canonical, is_lower_hex};
use crate::number::{decimal, is_hex_digit, law_number_of_decimal, lemma_decimal};
use crate::segment::{
    after_color, after_gap, after_name, before_interval, body_of, color_in, color_tail,
    command_part, command_tail, gap_in, gap_tail, has_color, has_gap, has_interval, interval_in,
    interval_tail, name_in, segment_of, SegmentView,
};
use crate::text::{
    digit, end_run, is_digit, is_white, lemma_end_run, lemma_end_run_is, lemma_run, lemma_run_is,
    run, solid, trim_end, trim_start, white,
};

verus! {

/// Whether a text has no white space in it.
pub open spec fn one_word(s: Seq<char>) -> bool {
    forall|i: int| 0 <= i < s.len() ==> !is_white(#[trigger] s[i])
}

/// Whether a text neither begins nor ends with white space.
pub open spec fn is_trimmed(s: Seq<char>) -> bool {
    s.len() > 0 ==> !is_white(s[0]) && !is_white(s.last())
}

/// The segments whose notation denotes them. The name is one word; the colour
/// is absent or canonical; the command has no white space around it, stands
/// before the interval, and does not itself look like a part of the notation
/// that is absent.
pub open spec fn rereadable(v: SegmentView) -> bool {
    &&& one_word(v.name)
    &&& v.name.len() == 0 ==> gap_tail(v).len() == 0
    &&& v.color.len() == 0 || is_canonical(v.color)
    &&& is_trimmed(v.command)
    &&& v.gap_override == 0 && v.color.len() == 0 ==> !has_gap(v.command)
    &&& v.color.len() == 0 ==> !has_color(v.command)
    &&& v.interval == 0 ==> !has_interval(v.command)
    &&& v.interval > 0 ==> v.command.len() > 0
}

/// What the body of a segment says of it.
pub open spec fn plain(v: SegmentView) -> SegmentView {
    SegmentView { enabled: true, comments_above: Seq::empty(), ..v }
}

/// Nothing, or a blank before something solid.
spec fn is_tail(t: Seq<char>) -> bool {
    t.len() > 0 ==> t.len() > 1 && t[0] == ' ' && !is_white(t[1])
}

/// A tail without its blank.
spec fn unblank(t: Seq<char>) -> Seq<char> {
    if t.len() > 0 {
        t.skip(1)
    } else {
        t
    }
}

proof fn lemma_trim_tail(t: Seq<char>)
    requires
        is_tail(t),
    ensures
        trim_start(t) == unblank(t),
{
    lemma_run_is(t, white(), if t.len() > 0 { 1 } else { 0 });
    if t.len() == 0 {
        assert(t.skip(0) == t);
    }
}

proof fn lemma_trim_start_solid(s: Seq<char>)
    requires
        s.len() > 0 ==> !is_white(s[0]),
    ensures
        trim_start(s) == s,
{
    lemma_run_is(s, white(), 0);
    assert(s.skip(0) == s);
}

proof fn lemma_trim_end_solid(s: Seq<char>)
    requires
        s.len() > 0 ==> !is_white(s.last()),
    ensures
        trim_end(s) == s,
{
    lemma_end_run_is(s, white(), 0);
    assert(s.take(s.len() as int) == s);
}

/// What trimming leaves begins solid.
proof fn lemma_trim_start(s: Seq<char>)
    ensures
        trim_start(s).len() > 0 ==> !is_white(trim_start(s)[0]),
        trim_start(s).len() <= s.len(),
{
    lemma_run(s, white());
}

/// What trimming leaves ends solid, and is a prefix.
proof fn lemma_trim_end(s: Seq<char>)
    ensures
        trim_end(s).len() > 0 ==> !is_white(trim_end(s).last()),
        trim_end(s).len() <= s.len(),
        trim_end(s) == s.take(trim_end(s).len() as int),
{
    lemma_end_run(s, white());
}

/// A gap is recognised by what stands before the next blank.
proof fn lemma_has_gap_before_tail(c: Seq<char>, t: Seq<char>)
    requires
        c.len() > 0,
        is_tail(t),
    ensures
        has_gap(c + t) == has_gap(c),
{
    let s = c + t;
    if c[0] == '+' {
        let r = c.skip(1);
        let d = run(r, digit());
        lemma_run(r, digit());
        assert(s.skip(1) == r + t);
        assert forall|i: int| 0 <= i < d implies #[trigger] is_digit((r + t)[i]) by {
            assert(digit()(r[i]));
        }
        lemma_run_is(r + t, digit(), d);
        assert((r + t).take(d) == r.take(d));
    }
}

/// A colour is recognised by what stands before the next blank.
proof fn lemma_has_color_before_tail(c: Seq<char>, t: Seq<char>)
    requires
        c.len() > 0,
        is_tail(t),
    ensures
        has_color(c + t) == has_color(c),
{
    let s = c + t;
    if has_color(c) {
        assert forall|i: int| 1 <= i < 7 implies is_hex_digit(#[trigger] s[i]) by {
            assert(s[i] == c[i]);
        }
    }
    if has_color(s) {
        if c.len() < 7 {
            assert(s[c.len() as int] == ' ');
            assert(is_hex_digit(s[c.len() as int]) || c.len() == 0);
        } else {
            assert forall|i: int| 1 <= i < 7 implies is_hex_digit(#[trigger] c[i]) by {
                assert(s[i] == c[i]);
            }
        }
    }
}

/// The tails of a line are tails.
proof fn lemma_tails(v: SegmentView)
    requires
        v.color.len() == 0 || is_canonical(v.color),
        is_trimmed(v.command),
    ensures
        is_tail(interval_tail(v)),
        is_tail(command_tail(v)),
        is_tail(color_tail(v)),
        is_tail(gap_tail(v)),
{
    lemma_decimal(v.interval as nat);
    lemma_decimal(v.gap_override as nat);
    assert(is_digit(decimal(v.interval as nat)[0]));
    if v.interval > 0 {
        assert(interval_tail(v)[1] == decimal(v.interval as nat)[0]);
    }
    if v.command.len() > 0 {
        assert(command_tail(v)[1] == v.command[0]);
    } else {
        assert(command_tail(v) == interval_tail(v));
    }
    if v.color.len() > 0 {
        assert(color_tail(v)[1] == v.color[0]);
    } else {
        assert(color_tail(v) == command_tail(v));
    }
    if v.gap_override > 0 {
        assert(gap_tail(v)[1] == '+');
    } else {
        assert(gap_tail(v) == color_tail(v));
    }
}

/// The name and what follows it are found.
proof fn lemma_reread_name(v: SegmentView)
    requires
        one_word(v.name),
        v.name.len() > 0,
        is_tail(gap_tail(v)),
    ensures
        name_in(body_of(v)) == v.name,
        after_name(body_of(v)) == unblank(gap_tail(v)),
{
    let body = body_of(v);
    let n = v.name.len() as int;
    assert(body[0] == v.name[0]);
    lemma_trim_start_solid(body);
    assert forall|i: int| 0 <= i < n implies solid()(#[trigger] body[i]) by {
        assert(body[i] == v.name[i]);
    }
    lemma_run_is(body, solid(), n);
    assert(body.take(n) == v.name);
    assert(body.skip(n) == gap_tail(v));
    lemma_trim_tail(gap_tail(v));
}

/// A written gap is found.
proof fn lemma_reread_gap(v: SegmentView)
    requires
        v.gap_override > 0,
        is_tail(color_tail(v)),
    ensures
        gap_in(unblank(gap_tail(v))) == v.gap_override,
        after_gap(unblank(gap_tail(v))) == unblank(color_tail(v)),
{
    let n = decimal(v.gap_override as nat);
    let t = color_tail(v);
    let s = unblank(gap_tail(v));
    lemma_decimal(v.gap_override as nat);
    law_number_of_decimal(v.gap_override);
    assert(s == seq!['+'] + n + t);
    let rest = s.skip(1);
    assert(rest == n + t);
    assert forall|i: int| 0 <= i < n.len() implies digit()(#[trigger] rest[i]) by {
        assert(rest[i] == n[i]);
    }
    lemma_run_is(rest, digit(), n.len() as int);
    assert(rest.take(n.len() as int) == n);
    assert(rest.skip(n.len() as int) == t);
    lemma_trim_tail(t);
}

/// A written colour is found.
proof fn lemma_reread_color(v: SegmentView)
    requires
        is_canonical(v.color),
        is_tail(command_tail(v)),
    ensures
        !has_gap(unblank(color_tail(v))),
        color_in(unblank(color_tail(v))) == v.color,
        after_color(unblank(color_tail(v))) == unblank(command_tail(v)),
{
    let t = command_tail(v);
    let s = unblank(color_tail(v));
    assert(s == v.color + t);
    assert forall|i: int| 1 <= i < 7 implies is_hex_digit(#[trigger] s[i]) by {
        assert(is_lower_hex(v.color[i]));
    }
    assert(has_color(s));
    assert forall|i: int| 0 <= i < 7 implies color_in(s)[i] == v.color[i] by {
        if i > 0 {
            assert(is_lower_hex(v.color[i]));
        }
        assert(s[i] == v.color[i]);
    }
    assert(color_in(s) =~= v.color);
    assert(s.skip(7) == t);
    lemma_trim_tail(t);
}

/// The command and interval that are found at the end of a line.
proof fn lemma_reread_command(v: SegmentView)
    requires
        is_trimmed(v.command),
        v.command.len() > 0,
    ensures
        trim_end(unblank(command_tail(v))) == unblank(command_tail(v)),
        v.interval > 0 ==> {
            &&& has_interval(unblank(command_tail(v)))
            &&& interval_in(unblank(command_tail(v))) == v.interval
            &&& before_interval(unblank(command_tail(v))) == v.command
        },
        v.interval == 0 ==> unblank(command_tail(v)) == v.command,
{
    let s = unblank(command_tail(v));
    assert(s == v.command + interval_tail(v));
    if v.interval > 0 {
        let n = decimal(v.interval as nat);
        lemma_decimal(v.interval as nat);
        law_number_of_decimal(v.interval);
        assert(is_digit(n.last()));
        assert(s.last() == n.last());
        lemma_trim_end_solid(s);
        let k = s.len() - n.len();
        assert forall|i: int| k <= i < s.len() implies digit()(#[trigger] s[i]) by {
            assert(s[i] == n[i - k]);
        }
        assert(s[k - 1] == ' ');
        lemma_end_run_is(s, digit(), n.len() as int);
        assert(s.skip(k) == n);
        let c = s.take(k);
        assert(c == v.command.push(' '));
        assert(c.drop_last() == v.command);
        assert(c[c.len() - 2] == v.command.last());
        lemma_end_run_is(c, white(), 1);
        assert(c.take(c.len() - 1) == v.command);
    } else {
        assert(s == v.command);
        lemma_trim_end_solid(s);
    }
}

/// A segment is read back from its notation as it was written, if and only if
/// it is one of the [`rereadable`] ones.
pub proof fn law_segment_round_trip(v: SegmentView)
    ensures
        segment_of(body_of(v)) == plain(v) <==> rereadable(v),
{
    if rereadable(v) {
        lemma_rereadable_is_reread(v);
    }
    if segment_of(body_of(v)) == plain(v) {
        lemma_reread_is_rereadable(v);
    }
}

proof fn lemma_rereadable_is_reread(v: SegmentView)
    requires
        rereadable(v),
    ensures
        segment_of(body_of(v)) == plain(v),
{
    lemma_tails(v);
    let body = body_of(v);
    if v.name.len() == 0 {
        lemma_empty_body(v);
    } else {
        lemma_reread_name(v);
        let s1 = after_name(body);
        // The gap.
        if v.gap_override > 0 {
            lemma_reread_gap(v);
        } else {
            assert(gap_tail(v) == color_tail(v));
            if v.color.len() > 0 {
                lemma_reread_color(v);
            } else {
                lemma_no_part(v);
            }
        }
        assert(gap_in(s1) == v.gap_override);
        assert(after_gap(s1) == unblank(color_tail(v)));
        // The colour.
        if v.color.len() > 0 {
            lemma_reread_color(v);
        } else {
            lemma_no_part(v);
            assert(color_in(unblank(color_tail(v))) =~= v.color);
        }
        assert(after_color(after_gap(s1)) == unblank(command_tail(v)));
        // The command and the interval.
        if v.command.len() > 0 {
            lemma_reread_command(v);
        } else {
            assert(unblank(command_tail(v)) =~= v.command);
            lemma_trim_end_solid(v.command);
            lemma_end_run_is(v.command, digit(), 0);
        }
        assert(segment_of(body) =~= plain(v));
    }
}

/// Where a colour may stand in the notation of a segment, there stands the
/// colour, or the command, or nothing.
pub proof fn lemma_color_place(v: SegmentView)
    requires
        rereadable(v),
        v.name.len() > 0,
    ensures
        after_gap(after_name(body_of(v))) == if v.color.len() > 0 {
            v.color + command_tail(v)
        } else if v.command.len() > 0 {
            v.command + interval_tail(v)
        } else {
            Seq::empty()
        },
{
    lemma_tails(v);
    lemma_reread_name(v);
    if v.color.len() > 0 {
        lemma_reread_color(v);
    } else {
        lemma_no_part(v);
    }
    if v.gap_override > 0 {
        lemma_reread_gap(v);
    } else {
        assert(gap_tail(v) == color_tail(v));
    }
    assert(unblank(color_tail(v)) =~= if v.color.len() > 0 {
        v.color + command_tail(v)
    } else if v.command.len() > 0 {
        v.command + interval_tail(v)
    } else {
        Seq::empty()
    });
}

/// Without a colour, what follows is a command or nothing.
proof fn lemma_no_part(v: SegmentView)
    requires
        v.color.len() == 0,
        is_trimmed(v.command),
        v.interval > 0 ==> v.command.len() > 0,
    ensures
        color_tail(v) == command_tail(v),
        v.command.len() > 0 ==> unblank(command_tail(v)) == v.command + interval_tail(v),
        v.command.len() > 0 ==> has_gap(unblank(command_tail(v))) == has_gap(v.command),
        has_color(unblank(command_tail(v))) == has_color(v.command),
        v.command.len() == 0 ==> unblank(command_tail(v)).len() == 0,
{
    lemma_tails(v);
    assert(color_tail(v) == command_tail(v));
    if v.command.len() > 0 {
        assert(unblank(command_tail(v)) == v.command + interval_tail(v));
        lemma_has_gap_before_tail(v.command, interval_tail(v));
        lemma_has_color_before_tail(v.command, interval_tail(v));
    }
}

/// Nothing is read from nothing.
proof fn lemma_empty_body(v: SegmentView)
    requires
        v.name.len() == 0,
        gap_tail(v).len() == 0,
    ensures
        segment_of(body_of(v)) == plain(v),
{
    let e = body_of(v);
    assert(e =~= Seq::<char>::empty());
    lemma_trim_start_solid(e);
    lemma_run_is(e, solid(), 0);
    assert(e.take(0) =~= e);
    assert(e.skip(0) =~= e);
    lemma_trim_end_solid(e);
    lemma_end_run_is(e, digit(), 0);
    assert(gap_tail(v).len() == 0);
    assert(v.gap_override == 0 && v.color.len() == 0 && v.command.len() == 0 && v.interval == 0)
        by {
        lemma_decimal(v.interval as nat);
        if v.interval > 0 {
            assert(interval_tail(v).len() > 0);
        }
    }
    assert(segment_of(e) =~= plain(v));
}

proof fn lemma_reread_is_rereadable(v: SegmentView)
    requires
        segment_of(body_of(v)) == plain(v),
    ensures
        rereadable(v),
{
    let body = body_of(v);
    let seg = segment_of(body);
    assert(seg.name == v.name && seg.color == v.color && seg.command == v.command);
    assert(seg.gap_override == v.gap_override && seg.interval == v.interval);
    let s0 = trim_start(body);
    lemma_trim_start(body);
    lemma_run(s0, solid());
    assert(one_word(v.name)) by {
        assert forall|i: int| 0 <= i < v.name.len() implies !is_white(#[trigger] v.name[i]) by {
            assert(v.name[i] == s0[i]);
            assert(solid()(s0[i]));
        }
    }
    let s1 = after_name(body);
    lemma_trim_start(s0.skip(run(s0, solid())));
    let s2 = after_gap(s1);
    lemma_trim_start(s1.skip(1).skip(run(s1.skip(1), digit())));
    let s3 = after_color(s2);
    lemma_trim_start(s2.skip(7));
    let c = trim_end(s3);
    lemma_trim_end(s3);
    lemma_color_in(s2);
    lemma_before_interval(c);
    assert(is_trimmed(v.command));
    if v.name.len() == 0 {
        lemma_nothing_solid(body);
        assert(v.gap_override == 0 && v.color.len() == 0);
        assert(v.command.len() == 0 && v.interval == 0);
        assert(gap_tail(v).len() == 0);
        lemma_run_is(v.command, digit(), 0);
        lemma_end_run_is(v.command, digit(), 0);
    } else {
        lemma_tails(v);
        lemma_reread_name(v);
        if v.interval > 0 && v.command.len() == 0 {
            lemma_bare_interval(v);
        }
        if v.color.len() == 0 {
            lemma_no_part(v);
            if v.gap_override > 0 {
                lemma_reread_gap(v);
            } else {
                assert(gap_tail(v) == color_tail(v));
                if has_gap(v.command) {
                    lemma_no_hidden_gap(v);
                }
                if v.command.len() == 0 {
                    assert(!has_gap(s1));
                }
            }
            assert(s2 == unblank(command_tail(v)));
            assert(!has_color(v.command)) by {
                if has_color(v.command) {
                    assert(seg.color.len() == 7);
                }
            }
            assert(s3 == unblank(command_tail(v)));
        } else {
            if v.gap_override > 0 {
                lemma_reread_gap(v);
            } else {
                assert(gap_tail(v) == color_tail(v));
            }
            lemma_reread_color(v);
            assert(s3 == unblank(command_tail(v)));
        }
        if v.interval == 0 {
            if v.command.len() > 0 {
                lemma_reread_command(v);
            } else {
                lemma_end_run_is(v.command, digit(), 0);
            }
        }
    }
}

/// What is read as a colour is absent or canonical.
pub proof fn lemma_color_in(s: Seq<char>)
    ensures
        color_in(s).len() == 0 || is_canonical(color_in(s)),
{
    if has_color(s) {
        assert forall|i: int| 1 <= i < 7 implies is_lower_hex(#[trigger] color_in(s)[i]) by {
            assert(is_hex_digit(s[i]));
        }
    }
}

/// What stands before an interval is a prefix, ends solid, and is shorter.
proof fn lemma_before_interval(c: Seq<char>)
    requires
        c.len() > 0 ==> !is_white(c.last()),
    ensures
        before_interval(c).len() > 0 ==> !is_white(before_interval(c).last()),
        before_interval(c).len() > 0 ==> before_interval(c)[0] == c[0],
        has_interval(c) ==> before_interval(c).len() + 1 + end_run(c, digit()) <= c.len(),
        before_interval(c).len() <= c.len(),
{
    if has_interval(c) {
        let d = end_run(c, digit());
        lemma_end_run(c, digit());
        let t = c.take(c.len() - d);
        lemma_trim_end(t);
        lemma_end_run(t, white());
        assert(is_white(t.last()));
        if trim_end(t).len() == t.len() {
            assert(trim_end(t) == t);
        }
    }
}

/// A body without a name denotes nothing at all.
proof fn lemma_nothing_solid(body: Seq<char>)
    requires
        name_in(body).len() == 0,
    ensures
        gap_in(after_name(body)) == 0,
        color_in(after_gap(after_name(body))).len() == 0,
        before_interval(command_part(body)).len() == 0,
        interval_in(command_part(body)) == 0,
{
    let s0 = trim_start(body);
    lemma_trim_start(body);
    lemma_run(s0, solid());
    assert(s0.len() == 0);
    lemma_trim_start(s0.skip(run(s0, solid())));
    let e = after_name(body);
    assert(e.len() == 0);
    lemma_trim_end(e);
    lemma_end_run(trim_end(e), digit());
}

/// An interval without a command is read as a command.
proof fn lemma_bare_interval(v: SegmentView)
    requires
        v.name.len() > 0,
        one_word(v.name),
        v.color.len() == 0 || is_canonical(v.color),
        v.command.len() == 0,
        v.interval > 0,
    ensures
        segment_of(body_of(v)) != plain(v),
{
    lemma_tails(v);
    lemma_reread_name(v);
    let n = decimal(v.interval as nat);
    lemma_decimal(v.interval as nat);
    let s = unblank(command_tail(v));
    assert(s =~= n);
    assert(is_digit(s[0]));
    assert(is_digit(s.last()));
    if v.gap_override > 0 {
        lemma_reread_gap(v);
    } else {
        assert(gap_tail(v) == color_tail(v));
    }
    if v.color.len() > 0 {
        lemma_reread_color(v);
    } else {
        assert(color_tail(v) == command_tail(v));
    }
    assert(after_color(after_gap(after_name(body_of(v)))) == s);
    lemma_trim_end_solid(s);
    lemma_end_run_is(s, digit(), s.len() as int);
    assert(segment_of(body_of(v)).interval == 0);
}

/// What follows a gap is a shorter suffix.
proof fn lemma_after_gap_is_suffix(s: Seq<char>)
    requires
        has_gap(s),
    ensures
        after_gap(s).len() < s.len(),
        after_gap(s) == s.skip(s.len() - after_gap(s).len()),
{
    let rest = s.skip(1);
    lemma_run(rest, digit());
    lemma_run(rest.skip(run(rest, digit())), white());
    assert(after_gap(s) =~= s.skip(s.len() - after_gap(s).len()));
}

/// What follows a colour, or its absence, is a suffix.
proof fn lemma_after_color_is_suffix(s: Seq<char>)
    ensures
        after_color(s).len() <= s.len(),
        after_color(s) == s.skip(s.len() - after_color(s).len()),
{
    lemma_run(s.skip(7), white());
    assert(after_color(s) =~= s.skip(s.len() - after_color(s).len()));
}

/// The interval at the end of a suffix of a line is that of the line.
proof fn lemma_interval_of_suffix(v: SegmentView, s: Seq<char>, k: int)
    requires
        v.interval > 0,
        s == v.command + interval_tail(v),
        0 <= k <= s.len(),
        has_interval(trim_end(s.skip(k))),
    ensures
        before_interval(trim_end(s.skip(k))).len() + k <= v.command.len(),
{
    let n = decimal(v.interval as nat);
    lemma_decimal(v.interval as nat);
    let at = s.len() - n.len();
    assert forall|i: int| at <= i < s.len() implies is_digit(#[trigger] s[i]) by {
        assert(s[i] == n[i - at]);
    }
    let t = s.skip(k);
    let c = trim_end(t);
    lemma_trim_end(t);
    assert(t.len() > 0);
    assert(t.last() == s[s.len() - 1]);
    lemma_trim_end_solid(t);
    assert(c == t);
    lemma_before_interval(c);
    lemma_end_run(c, digit());
    let e = end_run(c, digit());
    if e < n.len() {
        let i = c.len() - e - 1;
        assert(c[i] == s[i + k]);
        assert(is_digit(s[i + k]));
    }
}

/// A command that looks like a gap is not read back as the command.
proof fn lemma_no_hidden_gap(v: SegmentView)
    requires
        v.name.len() > 0,
        one_word(v.name),
        v.gap_override == 0,
        v.color.len() == 0,
        is_trimmed(v.command),
        has_gap(v.command),
        v.interval > 0 ==> v.command.len() > 0,
    ensures
        segment_of(body_of(v)) != plain(v),
{
    lemma_tails(v);
    lemma_reread_name(v);
    lemma_no_part(v);
    let body = body_of(v);
    let s1 = after_name(body);
    assert(gap_tail(v) == color_tail(v));
    assert(s1 == v.command + interval_tail(v));
    let s2 = after_gap(s1);
    lemma_after_gap_is_suffix(s1);
    let s3 = after_color(s2);
    lemma_after_color_is_suffix(s2);
    let k = s1.len() - s3.len();
    assert(s3 =~= s1.skip(k));
    let c = trim_end(s3);
    lemma_trim_end(s3);
    lemma_before_interval(c);
    assert(segment_of(body).command == before_interval(c));
    assert(segment_of(body).interval == interval_in(c));
    if v.interval > 0 && has_interval(c) {
        lemma_interval_of_suffix(v, s1, k);
    }
}

} // verus!
