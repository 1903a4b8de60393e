//! What holds of `parse_spec` over all inputs.
use vstd::prelude::*;
use crate::clip::{
    bound_text, escape_name, initial_scan, lemma_check_groups_ok, lemma_parse_well_formed,
    parse_spec, present, raw_groups, run, segment_of, segment_text, segments_text, spec_text, step,
    ClipView, ParseState, ScanView, SegmentView,
};
use crate::text::{is_space, trim_end_spaces};
use crate::timecode::{is_digit, is_timecode, is_timecode_char, lemma_timecode_chars};

verus! {

/// Reading `a` then `b` is reading `a + b`.
pub proof fn lemma_run_concat(st: ScanView, a: Seq<char>, b: Seq<char>)
    ensures
        run(st, a + b) == run(run(st, a), b),
    decreases b.len(),
{
    if b.len() == 0 {
        assert(a + b =~= a);
    } else {
        lemma_run_concat(st, a, b.drop_last());
        assert((a + b).drop_last() =~= a + b.drop_last());
        assert((a + b).last() == b.last());
    }
}

/// Reading one character is one transition.
proof fn lemma_run_one(st: ScanView, c: char)
    ensures
        run(st, seq![c]) == step(st, c),
{
    let e = seq![c].drop_last();
    assert(e =~= Seq::<char>::empty());
    assert(run(st, e) == st);
    assert(seq![c].last() == c);
}

/// Scanning never loses a closed segment: those closed so far stay first, in order.
pub proof fn lemma_run_keeps_groups(st: ScanView, t: Seq<char>)
    ensures
        st.groups.len() <= run(st, t).groups.len(),
        run(st, t).groups.take(st.groups.len() as int) == st.groups,
    decreases t.len(),
{
    if t.len() == 0 {
        assert(st.groups.take(st.groups.len() as int) =~= st.groups);
    } else {
        lemma_run_keeps_groups(st, t.drop_last());
        let m = run(st, t.drop_last());
        let n = step(m, t.last());
        if n.groups != m.groups {
            assert(n.groups.take(st.groups.len() as int) =~= m.groups.take(st.groups.len() as int));
        }
    }
}

/// Without `@`, the whole text is the file name.
proof fn lemma_run_plain_name(t: Seq<char>)
    requires
        forall|i: int| 0 <= i < t.len() ==> t[i] != '@',
    ensures
        run(initial_scan(), t) == (ScanView { filename: t, ..initial_scan() }),
    decreases t.len(),
{
    if t.len() > 0 {
        lemma_run_plain_name(t.drop_last());
        assert(t.drop_last().push(t.last()) =~= t);
    } else {
        assert(initial_scan().filename =~= t);
    }
}

/// A spec without `@` names a file, its trailing whitespace trimmed, and one
/// segment that covers all of it.
pub proof fn lemma_no_sentinel(s: Seq<char>)
    requires
        forall|i: int| 0 <= i < s.len() ==> s[i] != '@',
    ensures
        parse_spec(s) == Ok::<ClipView, Seq<char>>(
            ClipView {
                filename: trim_end_spaces(s),
                segments: seq![SegmentView { start: None, end: None }],
            },
        ),
{
    lemma_run_plain_name(s);
    assert(raw_groups(s) =~= Seq::empty());
}

/// Segments come out in the order of the `,`-separated groups of the text:
/// the result is one segment per group, and the groups closed within any
/// prefix of the text are its first segments.
pub proof fn lemma_segment_order(a: Seq<char>, b: Seq<char>)
    requires
        parse_spec(a + b) is Ok,
    ensures
        ({
            let gs = raw_groups(a + b);
            let segs = parse_spec(a + b)->Ok_0.segments;
            gs.len() > 0 ==> segs == gs.map_values(|g: (Seq<char>, Seq<char>)| segment_of(g))
        }),
        ({
            let closed = run(initial_scan(), a).groups;
            let segs = parse_spec(a + b)->Ok_0.segments;
            &&& closed.len() <= segs.len()
            &&& forall|i: int| 0 <= i < closed.len() ==> segs[i] == segment_of(#[trigger] closed[i])
        }),
{
    let s = a + b;
    let gs = raw_groups(s);
    lemma_check_groups_ok(gs);
    lemma_run_concat(initial_scan(), a, b);
    let mid = run(initial_scan(), a);
    lemma_run_keeps_groups(mid, b);
    let fin = run(initial_scan(), s);
    let closed = mid.groups;
    assert forall|i: int| 0 <= i < closed.len() implies #[trigger] closed[i] == gs[i] by {
        assert(fin.groups.take(closed.len() as int)[i] == fin.groups[i]);
    }
}


/// Reading an escaped name adds the name itself.
proof fn lemma_run_escaped_name(st: ScanView, f: Seq<char>)
    requires
        st.state == ParseState::Filename,
    ensures
        run(st, escape_name(f)) == (ScanView { filename: st.filename + f, ..st }),
    decreases f.len(),
{
    if f.len() == 0 {
        assert(st.filename + f =~= st.filename);
    } else {
        let d = f.drop_last();
        lemma_run_escaped_name(st, d);
        let c = f.last();
        let tail = if c == '@' { seq!['@', '@'] } else { seq![c] };
        assert(escape_name(f) =~= escape_name(d) + tail);
        lemma_run_concat(st, escape_name(d), tail);
        let m = run(st, escape_name(d));
        if c == '@' {
            assert(tail =~= seq!['@'] + seq!['@']);
            lemma_run_concat(m, seq!['@'], seq!['@']);
            lemma_run_one(m, '@');
            lemma_run_one(step(m, '@'), '@');
        } else {
            lemma_run_one(m, c);
        }
        assert(st.filename + f =~= (st.filename + d).push(c));
    }
}

/// Timecode characters extend the buffer of the current bound.
proof fn lemma_run_bound(st: ScanView, t: Seq<char>)
    requires
        st.state == ParseState::SegmentStart || st.state == ParseState::SegmentEnd,
        forall|i: int| 0 <= i < t.len() ==> is_timecode_char(#[trigger] t[i]),
    ensures
        run(st, t) == (if st.state == ParseState::SegmentStart {
            ScanView { start: st.start + t, ..st }
        } else {
            ScanView { end: st.end + t, ..st }
        }),
    decreases t.len(),
{
    if t.len() == 0 {
        assert(st.start + t =~= st.start);
        assert(st.end + t =~= st.end);
    } else {
        let d = t.drop_last();
        lemma_run_bound(st, d);
        let c = t.last();
        assert(is_timecode_char(t[t.len() - 1]));
        assert(!is_space(c) && c != '-' && c != ',');
        assert(st.start + t =~= (st.start + d).push(c));
        assert(st.end + t =~= (st.end + d).push(c));
    }
}

/// A stored bound reads back as itself, and starts with a digit.
proof fn lemma_bound_text(t: Option<Seq<char>>)
    requires
        t matches Some(x) ==> x.len() > 0 && is_timecode(x),
    ensures
        present(bound_text(t)) == t,
        is_timecode(bound_text(t)),
        forall|i: int| 0 <= i < bound_text(t).len() ==> is_timecode_char(#[trigger] bound_text(t)[i]),
        bound_text(t).len() > 0 ==> is_digit(bound_text(t)[0]),
{
    lemma_timecode_chars(bound_text(t));
}

/// Reading one segment's text from the start of a segment closes exactly that segment.
proof fn lemma_run_segment(st: ScanView, g: SegmentView)
    requires
        st.state == ParseState::EscapeCheck || st.state == ParseState::SegmentStart,
        st.start.len() == 0,
        st.end.len() == 0,
        g.well_formed(),
    ensures
        run(st, segment_text(g)) == (ScanView {
            state: ParseState::SegmentStart,
            groups: st.groups.push((bound_text(g.start), bound_text(g.end))),
            ..st
        }),
{
    let x = bound_text(g.start);
    let y = bound_text(g.end);
    lemma_bound_text(g.start);
    lemma_bound_text(g.end);
    let dash = seq!['-'];
    let comma = seq![','];
    assert(segment_text(g) == x + dash + y + comma);
    lemma_run_concat(st, x + dash + y, comma);
    lemma_run_concat(st, x + dash, y);
    lemma_run_concat(st, x, dash);
    lemma_run_one(run(st, x), '-');
    lemma_run_one(run(st, x + dash + y), ',');
    // after the start bound: in SegmentStart, with the start buffered
    let after_x = run(st, x);
    let s1 = ScanView { state: ParseState::SegmentStart, start: x, ..st };
    if x.len() == 0 {
        assert(after_x == st);
        assert(st.start =~= x);
    } else {
        let head = seq![x[0]];
        let rest = x.skip(1);
        assert(x =~= head + rest);
        lemma_run_concat(st, head, rest);
        lemma_run_one(st, x[0]);
        assert(is_timecode_char(x[0]));
        assert(!is_space(x[0]) && x[0] != '-' && x[0] != '@');
        let s0 = ScanView { state: ParseState::SegmentStart, start: head, ..st };
        assert(st.start.push(x[0]) =~= head);
        assert(run(st, head) == s0);
        assert forall|i: int| 0 <= i < rest.len() implies is_timecode_char(#[trigger] rest[i]) by {
            assert(rest[i] == x[i + 1]);
        }
        lemma_run_bound(s0, rest);
        assert(head + rest =~= x);
        assert(after_x == s1);
    }
    let s2 = ScanView { state: ParseState::SegmentEnd, start: x, ..st };
    assert(run(st, x + dash) == s2);
    lemma_run_bound(s2, y);
    assert(st.end + y =~= y);
    assert(run(st, x + dash + y) == (ScanView { end: y, ..s2 }));
    assert(st.start =~= Seq::<char>::empty());
    assert(st.end =~= Seq::<char>::empty());
}

/// Reading the texts of well-formed segments closes them all, in order.
proof fn lemma_run_segments(st: ScanView, gs: Seq<SegmentView>)
    requires
        st.state == ParseState::EscapeCheck || st.state == ParseState::SegmentStart,
        st.start.len() == 0,
        st.end.len() == 0,
        forall|i: int| 0 <= i < gs.len() ==> (#[trigger] gs[i]).well_formed(),
    ensures
        run(st, segments_text(gs)) == (ScanView {
            state: if gs.len() == 0 { st.state } else { ParseState::SegmentStart },
            groups: st.groups + gs.map_values(|g: SegmentView| (bound_text(g.start), bound_text(g.end))),
            ..st
        }),
    decreases gs.len(),
{
    let raw = gs.map_values(|g: SegmentView| (bound_text(g.start), bound_text(g.end)));
    if gs.len() == 0 {
        assert(st.groups + raw =~= st.groups);
    } else {
        let d = gs.drop_last();
        assert forall|i: int| 0 <= i < d.len() implies (#[trigger] d[i]).well_formed() by {
            assert(d[i] == gs[i]);
        }
        lemma_run_segments(st, d);
        lemma_run_concat(st, segments_text(d), segment_text(gs.last()));
        let m = run(st, segments_text(d));
        assert(gs.last() == gs[gs.len() - 1]);
        lemma_run_segment(m, gs.last());
        let raw_d = d.map_values(|g: SegmentView| (bound_text(g.start), bound_text(g.end)));
        assert(st.groups + raw =~= (st.groups + raw_d).push(
            (bound_text(gs.last().start), bound_text(gs.last().end)),
        ));
    }
}

/// Writing a well-formed clip as a spec string and parsing it gives the clip back.
pub proof fn lemma_spec_text_round_trip(c: ClipView)
    requires
        c.well_formed(),
    ensures
        parse_spec(spec_text(c)) == Ok::<ClipView, Seq<char>>(c),
{
    let name = escape_name(c.filename);
    let at = seq!['@'];
    let s = spec_text(c);
    lemma_run_concat(initial_scan(), name + at, segments_text(c.segments));
    lemma_run_concat(initial_scan(), name, at);
    lemma_run_escaped_name(initial_scan(), c.filename);
    assert(initial_scan().filename + c.filename =~= c.filename);
    lemma_run_one(run(initial_scan(), name), '@');
    let st = ScanView { state: ParseState::EscapeCheck, filename: c.filename, ..initial_scan() };
    assert(run(initial_scan(), name + at) == st);
    lemma_run_segments(st, c.segments);
    let raw = c.segments.map_values(|g: SegmentView| (bound_text(g.start), bound_text(g.end)));
    assert(st.groups + raw =~= raw);
    assert(raw_groups(s) == raw);
    lemma_check_groups_ok(raw);
    assert forall|i: int| 0 <= i < raw.len() implies is_timecode((#[trigger] raw[i]).0)
        && is_timecode(raw[i].1) by {
        assert(c.segments[i].well_formed());
        lemma_bound_text(c.segments[i].start);
        lemma_bound_text(c.segments[i].end);
    }
    assert forall|i: int| 0 <= i < raw.len() implies segment_of(#[trigger] raw[i]) == c.segments[i] by {
        assert(c.segments[i].well_formed());
        lemma_bound_text(c.segments[i].start);
        lemma_bound_text(c.segments[i].end);
    }
    assert(raw.map_values(|g: (Seq<char>, Seq<char>)| segment_of(g)) =~= c.segments);
    assert(trim_end_spaces(c.filename) == c.filename);
}

/// Parsing, writing the clip back as a spec string and parsing again gives
/// the same clip.
pub proof fn lemma_round_trip(s: Seq<char>)
    requires
        parse_spec(s) is Ok,
    ensures
        parse_spec(spec_text(parse_spec(s)->Ok_0)) == parse_spec(s),
{
    lemma_parse_well_formed(s);
    lemma_spec_text_round_trip(parse_spec(s)->Ok_0);
}
} // verus!
