//! Clip specs: `filename @ start - end, start - end, ...`.
//!
//! A literal `@` in the file name is written `@@`. The first single `@`
//! ends the file name; after it, whitespace is ignored, `-` separates a
//! segment's start from its end, and `,` closes a segment. A missing start
//! or end stays absent; a spec with no segment gets one with neither.
use vstd::prelude::*;
use crate::text::{
    char_is_space, is_space, lemma_trim_end_no_trailing_space, no_trailing_space, push_char,
    trim_end, trim_end_spaces,
};
use crate::timecode::{is_timecode, matches_timecode};
use crate::util::DropEmpty;

verus! {

/// Where the scanner stands in a spec string.
#[derive(PartialEq, Eq, Structural, Clone, Copy, Debug)]
pub enum ParseState {
    /// Reading the file name.
    Filename,
    /// Just after an `@` in the file name: a second `@` is a literal one.
    EscapeCheck,
    /// Reading the start of a segment.
    SegmentStart,
    /// Reading the end of a segment.
    SegmentEnd,
}

/// The failure of a parse: an invalid timecode.
#[derive(Debug)]
pub struct ParseError {
    pub desc: String,
}

/// One part of a clip to keep; an absent bound means the start or the end of the file.
#[derive(Debug)]
pub struct ClipSegment {
    pub start_timecode: Option<String>,
    pub end_timecode: Option<String>,
}

/// A source file and the ordered segments to take from it.
#[derive(Debug)]
pub struct InputClip {
    pub filename: String,
    pub segments: Vec<ClipSegment>,
}

/// What a segment holds, as text.
pub struct SegmentView {
    pub start: Option<Seq<char>>,
    pub end: Option<Seq<char>>,
}

/// What a clip holds, as text.
pub struct ClipView {
    pub filename: Seq<char>,
    pub segments: Seq<SegmentView>,
}

/// The scanner's state after some prefix of a spec string.
pub struct ScanView {
    pub state: ParseState,
    pub filename: Seq<char>,
    /// The segments closed by a `,`, as raw (start, end) text.
    pub groups: Seq<(Seq<char>, Seq<char>)>,
    pub start: Seq<char>,
    pub end: Seq<char>,
}

/// The text of an optional string.
pub open spec fn opt_view(o: Option<String>) -> Option<Seq<char>> {
    match o {
        Some(s) => Some(s@),
        None => None,
    }
}

impl View for ClipSegment {
    type V = SegmentView;

    open spec fn view(&self) -> SegmentView {
        SegmentView { start: opt_view(self.start_timecode), end: opt_view(self.end_timecode) }
    }
}

impl View for InputClip {
    type V = ClipView;

    open spec fn view(&self) -> ClipView {
        ClipView {
            filename: self.filename@,
            segments: self.segments@.map_values(|g: ClipSegment| g@),
        }
    }
}

/// An empty bound is an absent one.
pub open spec fn present(t: Seq<char>) -> Option<Seq<char>> {
    if t.len() == 0 {
        None
    } else {
        Some(t)
    }
}

/// The message for a rejected timecode.
pub open spec fn invalid_timecode(t: Seq<char>) -> Seq<char> {
    "invalid timecode: "@ + t
}

/// Validates a raw (start, end) pair, the start first.
pub open spec fn check_pair(start: Seq<char>, end: Seq<char>) -> Result<SegmentView, Seq<char>> {
    if !is_timecode(start) {
        Err(invalid_timecode(start))
    } else if !is_timecode(end) {
        Err(invalid_timecode(end))
    } else {
        Ok(SegmentView { start: present(start), end: present(end) })
    }
}

/// Validates raw pairs left to right; the first failure wins.
pub open spec fn check_groups(gs: Seq<(Seq<char>, Seq<char>)>) -> Result<Seq<SegmentView>, Seq<char>>
    decreases gs.len(),
{
    if gs.len() == 0 {
        Ok(Seq::empty())
    } else {
        match check_groups(gs.drop_last()) {
            Err(e) => Err(e),
            Ok(v) => match check_pair(gs.last().0, gs.last().1) {
                Err(e) => Err(e),
                Ok(g) => Ok(v.push(g)),
            },
        }
    }
}

/// The scanner before the first character: reading the file name, nothing buffered.
pub open spec fn initial_scan() -> ScanView {
    ScanView {
        state: ParseState::Filename,
        filename: Seq::empty(),
        groups: Seq::empty(),
        start: Seq::empty(),
        end: Seq::empty(),
    }
}

/// The transition on one character.
pub open spec fn step(s: ScanView, c: char) -> ScanView {
    match s.state {
        ParseState::Filename => if c == '@' {
            ScanView { state: ParseState::EscapeCheck, ..s }
        } else {
            ScanView { filename: s.filename.push(c), ..s }
        },
        ParseState::EscapeCheck => if c == '@' {
            ScanView { state: ParseState::Filename, filename: s.filename.push(c), ..s }
        } else if is_space(c) {
            ScanView { state: ParseState::SegmentStart, ..s }
        } else if c == '-' {
            ScanView { state: ParseState::SegmentEnd, ..s }
        } else {
            ScanView { state: ParseState::SegmentStart, start: s.start.push(c), ..s }
        },
        ParseState::SegmentStart => if is_space(c) {
            s
        } else if c == '-' {
            ScanView { state: ParseState::SegmentEnd, ..s }
        } else {
            ScanView { start: s.start.push(c), ..s }
        },
        ParseState::SegmentEnd => if is_space(c) {
            s
        } else if c == ',' {
            ScanView {
                state: ParseState::SegmentStart,
                groups: s.groups.push((s.start, s.end)),
                start: Seq::empty(),
                end: Seq::empty(),
                ..s
            }
        } else {
            ScanView { end: s.end.push(c), ..s }
        },
    }
}

/// The state reached from `st` after reading `t`.
pub open spec fn run(st: ScanView, t: Seq<char>) -> ScanView
    decreases t.len(),
{
    if t.len() == 0 {
        st
    } else {
        step(run(st, t.drop_last()), t.last())
    }
}

/// The raw segments of a spec string: those closed by `,`, then the
/// pending one if any of it was written.
pub open spec fn raw_groups(s: Seq<char>) -> Seq<(Seq<char>, Seq<char>)> {
    let t = run(initial_scan(), s);
    if t.start.len() > 0 || t.end.len() > 0 {
        t.groups.push((t.start, t.end))
    } else {
        t.groups
    }
}

/// The result of parsing `s`: the clip, or the error message.
pub open spec fn parse_spec(s: Seq<char>) -> Result<ClipView, Seq<char>> {
    match check_groups(raw_groups(s)) {
        Err(e) => Err(e),
        Ok(v) => Ok(
            ClipView {
                filename: trim_end_spaces(run(initial_scan(), s).filename),
                segments: if v.len() == 0 {
                    seq![SegmentView { start: None, end: None }]
                } else {
                    v
                },
            },
        ),
    }
}

/// A timecode as a clip stores it: present only when non-empty, and valid.
pub open spec fn stored_timecode(t: Option<Seq<char>>) -> bool {
    t matches Some(x) ==> x.len() > 0 && is_timecode(x)
}

impl SegmentView {
    /// Each bound is absent or a non-empty valid timecode.
    pub open spec fn well_formed(self) -> bool {
        stored_timecode(self.start) && stored_timecode(self.end)
    }
}

impl ClipView {
    /// At least one segment, every stored timecode valid, and no trailing
    /// whitespace in the file name.
    pub open spec fn well_formed(self) -> bool {
        &&& self.segments.len() > 0
        &&& forall|i: int| 0 <= i < self.segments.len() ==> (#[trigger] self.segments[i]).well_formed()
        &&& no_trailing_space(self.filename)
    }
}

/// A parse result as text: the clip, or the error message.
pub open spec fn result_view(r: Result<InputClip, ParseError>) -> Result<ClipView, Seq<char>> {
    match r {
        Ok(c) => Ok(c@),
        Err(e) => Err(e.desc@),
    }
}

/// A validation result as text: the segment, or the error message.
pub open spec fn segment_result_view(r: Result<ClipSegment, ParseError>) -> Result<SegmentView, Seq<char>> {
    match r {
        Ok(g) => Ok(g@),
        Err(e) => Err(e.desc@),
    }
}

fn invalid_timecode_error(t: &str) -> (e: ParseError)
    ensures
        e.desc@ == invalid_timecode(t@),
{
    ParseError { desc: "invalid timecode: ".to_owned().concat(t) }
}

impl ClipSegment {
    /// A segment that covers the whole file.
    pub fn new() -> (r: Self)
        ensures
            r@ == (SegmentView { start: None, end: None }),
    {
        ClipSegment { start_timecode: None, end_timecode: None }
    }

    /// Validates the start, then the end; an empty bound is stored as absent.
    pub fn from_parts(start: &str, end: &str) -> (r: Result<Self, ParseError>)
        ensures
            segment_result_view(r) == check_pair(start@, end@),
    {
        if !matches_timecode(start) {
            return Err(invalid_timecode_error(start));
        }
        if !matches_timecode(end) {
            return Err(invalid_timecode_error(end));
        }
        Ok(ClipSegment {
            start_timecode: start.to_owned().drop_empty(),
            end_timecode: end.to_owned().drop_empty(),
        })
    }
}


/// A file name with each `@` doubled.
pub open spec fn escape_name(f: Seq<char>) -> Seq<char>
    decreases f.len(),
{
    if f.len() == 0 {
        Seq::empty()
    } else if f.last() == '@' {
        escape_name(f.drop_last()) + seq!['@', '@']
    } else {
        escape_name(f.drop_last()).push(f.last())
    }
}

/// The text of a bound; an absent one is empty.
pub open spec fn bound_text(t: Option<Seq<char>>) -> Seq<char> {
    match t {
        Some(x) => x,
        None => Seq::empty(),
    }
}

/// `start-end,`
pub open spec fn segment_text(g: SegmentView) -> Seq<char> {
    bound_text(g.start) + seq!['-'] + bound_text(g.end) + seq![',']
}

/// The texts of the segments, one after another.
pub open spec fn segments_text(gs: Seq<SegmentView>) -> Seq<char>
    decreases gs.len(),
{
    if gs.len() == 0 {
        Seq::empty()
    } else {
        segments_text(gs.drop_last()) + segment_text(gs.last())
    }
}

/// A spec string for a clip: the escaped file name, `@`, then each segment
/// as `start-end,`.
pub open spec fn spec_text(c: ClipView) -> Seq<char> {
    escape_name(c.filename) + seq!['@'] + segments_text(c.segments)
}

/// The scanner itself: one transition per character, no validation.
struct Scanner {
    state: ParseState,
    filename: String,
    groups: Vec<(String, String)>,
    start: String,
    end: String,
}

/// A raw (start, end) pair as text.
pub open spec fn pair_view(g: (String, String)) -> (Seq<char>, Seq<char>) {
    (g.0@, g.1@)
}

impl View for Scanner {
    type V = ScanView;

    closed spec fn view(&self) -> ScanView {
        ScanView {
            state: self.state,
            filename: self.filename@,
            groups: self.groups@.map_values(|g: (String, String)| pair_view(g)),
            start: self.start@,
            end: self.end@,
        }
    }
}

impl Scanner {
    fn new() -> (r: Self)
        ensures
            r@ == initial_scan(),
    {
        let r = Scanner {
            state: ParseState::Filename,
            filename: String::new(),
            groups: Vec::new(),
            start: String::new(),
            end: String::new(),
        };
        assert(r@.groups =~= Seq::empty());
        r
    }

    /// Closes the current segment.
    fn flush(&mut self)
        ensures
            final(self)@ == (ScanView {
                groups: old(self)@.groups.push((old(self)@.start, old(self)@.end)),
                start: Seq::empty(),
                end: Seq::empty(),
                ..old(self)@
            }),
    {
        let start = self.start.clone();
        let end = self.end.clone();
        self.groups.push((start, end));
        self.start = String::new();
        self.end = String::new();
        assert(self@.groups =~= old(self)@.groups.push((old(self)@.start, old(self)@.end)));
    }

    fn step(&mut self, c: char)
        ensures
            final(self)@ == step(old(self)@, c),
    {
        match self.state {
            ParseState::Filename => {
                if c == '@' {
                    self.state = ParseState::EscapeCheck;
                } else {
                    push_char(&mut self.filename, c);
                }
            },
            ParseState::EscapeCheck => {
                if c == '@' {
                    push_char(&mut self.filename, c);
                    self.state = ParseState::Filename;
                } else if char_is_space(c) {
                    self.state = ParseState::SegmentStart;
                } else if c == '-' {
                    self.state = ParseState::SegmentEnd;
                } else {
                    push_char(&mut self.start, c);
                    self.state = ParseState::SegmentStart;
                }
            },
            ParseState::SegmentStart => {
                if char_is_space(c) {
                } else if c == '-' {
                    self.state = ParseState::SegmentEnd;
                } else {
                    push_char(&mut self.start, c);
                }
            },
            ParseState::SegmentEnd => {
                if char_is_space(c) {
                } else if c == ',' {
                    self.flush();
                    self.state = ParseState::SegmentStart;
                } else {
                    push_char(&mut self.end, c);
                }
            },
        }
    }

    /// Closes the pending segment, if any of it was written.
    fn finish(&mut self)
        ensures
            final(self)@.groups == ({
                let t = old(self)@;
                if t.start.len() > 0 || t.end.len() > 0 {
                    t.groups.push((t.start, t.end))
                } else {
                    t.groups
                }
            }),
            final(self)@.filename == old(self)@.filename,
    {
        if !self.start.as_str().is_empty() || !self.end.as_str().is_empty() {
            self.flush();
        }
    }
}

/// Once validation has failed on a prefix, it fails the same way on the whole.
proof fn lemma_check_groups_err(gs: Seq<(Seq<char>, Seq<char>)>, k: int)
    requires
        0 <= k <= gs.len(),
        check_groups(gs.take(k)) is Err,
    ensures
        check_groups(gs) == check_groups(gs.take(k)),
    decreases gs.len() - k,
{
    if k == gs.len() {
        assert(gs.take(k) =~= gs);
    } else {
        let d = gs.drop_last();
        assert(d.take(k) =~= gs.take(k));
        lemma_check_groups_err(d, k);
    }
}

/// The segment that a valid raw pair stands for.
pub open spec fn segment_of(g: (Seq<char>, Seq<char>)) -> SegmentView {
    SegmentView { start: present(g.0), end: present(g.1) }
}

/// Validation succeeds exactly when every pair is valid, and then keeps
/// one segment per pair, in order.
pub proof fn lemma_check_groups_ok(gs: Seq<(Seq<char>, Seq<char>)>)
    ensures
        check_groups(gs) is Ok <==> forall|i: int|
            0 <= i < gs.len() ==> is_timecode((#[trigger] gs[i]).0) && is_timecode(gs[i].1),
        check_groups(gs) is Ok ==> check_groups(gs)->Ok_0 == gs.map_values(|g: (Seq<char>, Seq<char>)| segment_of(g)),
    decreases gs.len(),
{
    if gs.len() > 0 {
        let d = gs.drop_last();
        lemma_check_groups_ok(d);
        assert forall|i: int| 0 <= i < d.len() implies #[trigger] d[i] == gs[i] by {}
        let all_valid = forall|i: int|
            0 <= i < gs.len() ==> is_timecode((#[trigger] gs[i]).0) && is_timecode(gs[i].1);
        if all_valid {
            assert forall|i: int| 0 <= i < d.len() implies is_timecode((#[trigger] d[i]).0)
                && is_timecode(d[i].1) by {
                assert(d[i] == gs[i]);
            }
            assert(gs.last() == gs[gs.len() - 1]);
        }
        if check_groups(gs) is Ok {
            assert forall|i: int| 0 <= i < gs.len() implies is_timecode((#[trigger] gs[i]).0)
                && is_timecode(gs[i].1) by {
                if i < d.len() {
                    assert(d[i] == gs[i]);
                }
            }
            assert(check_groups(gs)->Ok_0 =~= gs.map_values(|g: (Seq<char>, Seq<char>)| segment_of(g)));
        }
    }
}

/// A parsed clip is well formed.
pub proof fn lemma_parse_well_formed(s: Seq<char>)
    requires
        parse_spec(s) is Ok,
    ensures
        parse_spec(s)->Ok_0.well_formed(),
{
    let gs = raw_groups(s);
    lemma_check_groups_ok(gs);
    lemma_trim_end_no_trailing_space(run(initial_scan(), s).filename);
    let c = parse_spec(s)->Ok_0;
    assert forall|i: int| 0 <= i < c.segments.len() implies (#[trigger] c.segments[i]).well_formed() by {
        if gs.len() > 0 {
            assert(c.segments[i] == segment_of(gs[i]));
        }
    }
}

impl InputClip {
    /// Parses a clip spec; the first invalid timecode, start before end and
    /// left to right, is the error.
    pub fn from_spec(spec: &str) -> (r: Result<Self, ParseError>)
        ensures
            result_view(r) == parse_spec(spec@),
            r matches Ok(c) ==> c@.well_formed(),
    {
        let mut scanner = Scanner::new();
        for c in it: spec.chars()
            invariant
                it.seq() == spec@,
                scanner@ == run(initial_scan(), spec@.take(it.index() as int)),
        {
            assert(spec@.take(it.index() + 1).drop_last() =~= spec@.take(it.index() as int));
            scanner.step(c);
        }
        assert(spec@.take(spec@.len() as int) =~= spec@);
        scanner.finish();
        let ghost gs = scanner@.groups;
        let mut segments: Vec<ClipSegment> = Vec::new();
        let mut k: usize = 0;
        assert(gs.take(0) =~= Seq::empty());
        assert(segments@.map_values(|g: ClipSegment| g@) =~= Seq::empty());
        while k < scanner.groups.len()
            invariant
                k <= scanner.groups.len(),
                gs == scanner@.groups,
                gs == raw_groups(spec@),
                check_groups(gs.take(k as int)) == Ok::<Seq<SegmentView>, Seq<char>>(
                    segments@.map_values(|g: ClipSegment| g@),
                ),
            decreases scanner.groups.len() - k,
        {
            let seg = ClipSegment::from_parts(scanner.groups[k].0.as_str(), scanner.groups[k].1.as_str());
            assert(gs.take(k + 1).drop_last() =~= gs.take(k as int));
            assert(gs.take(k + 1).last() == gs[k as int]);
            let ghost old_view = segments@.map_values(|g: ClipSegment| g@);
            match seg {
                Ok(g) => {
                    segments.push(g);
                    assert(segments@.map_values(|g: ClipSegment| g@) =~= old_view.push(segments@.last()@));
                },
                Err(e) => {
                    proof {
                        lemma_check_groups_err(gs, k + 1);
                    }
                    return Err(e);
                },
            }
            k += 1;
        }
        assert(gs.take(k as int) =~= gs);
        if segments.len() == 0 {
            segments.push(ClipSegment::new());
            assert(segments@.map_values(|g: ClipSegment| g@) =~= seq![SegmentView { start: None, end: None }]);
        }
        let filename = trim_end(scanner.filename.as_str()).to_owned();
        proof {
            lemma_parse_well_formed(spec@);
        }
        Ok(InputClip { filename, segments })
    }

    /// Writes the clip as a spec string: the file name with each `@`
    /// doubled, `@`, then each segment as `start-end,`.
    pub fn to_spec(&self) -> (r: String)
        ensures
            r@ == spec_text(self@),
    {
        let mut out = String::new();
        for c in it: self.filename.as_str().chars()
            invariant
                it.seq() == self.filename@,
                out@ == escape_name(self.filename@.take(it.index() as int)),
        {
            let ghost pre = self.filename@.take(it.index() as int);
            assert(self.filename@.take(it.index() + 1).drop_last() =~= pre);
            if c == '@' {
                push_char(&mut out, '@');
                push_char(&mut out, '@');
                assert(out@ =~= escape_name(pre) + seq!['@', '@']);
            } else {
                push_char(&mut out, c);
            }
        }
        assert(self.filename@.take(self.filename@.len() as int) =~= self.filename@);
        push_char(&mut out, '@');
        let ghost segs = self@.segments;
        let mut k: usize = 0;
        assert(segs.take(0) =~= Seq::<SegmentView>::empty());
        assert(out@ =~= escape_name(self.filename@) + seq!['@'] + segments_text(segs.take(0)));
        while k < self.segments.len()
            invariant
                k <= self.segments.len(),
                segs == self@.segments,
                out@ == escape_name(self.filename@) + seq!['@'] + segments_text(segs.take(k as int)),
            decreases self.segments.len() - k,
        {
            let ghost before = out@;
            let g = &self.segments[k];
            match &g.start_timecode {
                Some(t) => out.append(t.as_str()),
                None => {},
            }
            push_char(&mut out, '-');
            match &g.end_timecode {
                Some(t) => out.append(t.as_str()),
                None => {},
            }
            push_char(&mut out, ',');
            assert(segs.take(k + 1).drop_last() =~= segs.take(k as int));
            assert(segs.take(k + 1).last() == g@);
            assert(out@ =~= before + segment_text(g@));
            k += 1;
        }
        assert(segs.take(k as int) =~= segs);
        out
    }
}

} // verus!
