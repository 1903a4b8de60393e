//! The arguments of the media tool runs that trim segments and join them.
use vstd::prelude::*;
use crate::clip::{ClipSegment, SegmentView};

verus! {

/// `info` when verbose, `warning` otherwise.
pub open spec fn log_level(verbose: bool) -> Seq<char> {
    if verbose {
        "info"@
    } else {
        "warning"@
    }
}

/// An option and its value, or nothing when the value is absent.
pub open spec fn optional_arg(flag: Seq<char>, value: Option<Seq<char>>) -> Seq<Seq<char>> {
    match value {
        Some(v) => seq![flag, v],
        None => Seq::empty(),
    }
}

/// Copy `input` to `output`, from the segment's start (`-ss`) to its end
/// (`-to`); an absent bound is left out.
pub open spec fn trim_args_spec(input: Seq<char>, g: SegmentView, verbose: bool, output: Seq<char>) -> Seq<Seq<char>> {
    seq!["-hide_banner"@, "-loglevel"@, log_level(verbose), "-i"@, input]
        + optional_arg("-ss"@, g.start)
        + optional_arg("-to"@, g.end)
        + seq!["-c"@, "copy"@, output]
}

/// Join the files listed in `list` into `output`, without re-encoding.
pub open spec fn concat_args_spec(list: Seq<char>, verbose: bool, output: Seq<char>) -> Seq<Seq<char>> {
    seq![
        "-hide_banner"@, "-loglevel"@, log_level(verbose), "-f"@, "concat"@, "-safe"@, "0"@, "-i"@,
        list, "-c"@, "copy"@, output,
    ]
}

fn push_str(v: &mut Vec<String>, s: &str)
    ensures
        final(v).deep_view() == old(v).deep_view().push(s@),
{
    v.push(s.to_owned());
    assert(v.deep_view() =~= old(v).deep_view().push(s@));
}

fn log_level_arg(verbose: bool) -> (r: &'static str)
    ensures
        r@ == log_level(verbose),
{
    if verbose {
        "info"
    } else {
        "warning"
    }
}

/// The arguments that copy one segment of `input` into `output`.
pub fn trim_args(input: &str, segment: &ClipSegment, verbose: bool, output: &str) -> (r: Vec<String>)
    ensures
        r.deep_view() == trim_args_spec(input@, segment@, verbose, output@),
{
    let mut v: Vec<String> = Vec::new();
    push_str(&mut v, "-hide_banner");
    push_str(&mut v, "-loglevel");
    push_str(&mut v, log_level_arg(verbose));
    push_str(&mut v, "-i");
    push_str(&mut v, input);
    let ghost head = v.deep_view();
    match &segment.start_timecode {
        Some(t) => {
            push_str(&mut v, "-ss");
            push_str(&mut v, t.as_str());
        },
        None => {},
    }
    let ghost with_start = v.deep_view();
    assert(with_start =~= head + optional_arg("-ss"@, segment@.start));
    match &segment.end_timecode {
        Some(t) => {
            push_str(&mut v, "-to");
            push_str(&mut v, t.as_str());
        },
        None => {},
    }
    assert(v.deep_view() =~= with_start + optional_arg("-to"@, segment@.end));
    push_str(&mut v, "-c");
    push_str(&mut v, "copy");
    push_str(&mut v, output);
    assert(v.deep_view() =~= trim_args_spec(input@, segment@, verbose, output@));
    v
}

/// The arguments that join the files listed in `list` into `output`.
pub fn concat_args(list: &str, verbose: bool, output: &str) -> (r: Vec<String>)
    ensures
        r.deep_view() == concat_args_spec(list@, verbose, output@),
{
    let mut v: Vec<String> = Vec::new();
    push_str(&mut v, "-hide_banner");
    push_str(&mut v, "-loglevel");
    push_str(&mut v, log_level_arg(verbose));
    push_str(&mut v, "-f");
    push_str(&mut v, "concat");
    push_str(&mut v, "-safe");
    push_str(&mut v, "0");
    push_str(&mut v, "-i");
    push_str(&mut v, list);
    push_str(&mut v, "-c");
    push_str(&mut v, "copy");
    push_str(&mut v, output);
    assert(v.deep_view() =~= concat_args_spec(list@, verbose, output@));
    v
}

/// The line of the join list that names `path`: `file '<path>'` and a newline.
pub fn concat_list_line(path: &str) -> (r: String)
    ensures
        r@ == "file '"@ + path@ + "'\n"@,
{
    "file '".to_owned().concat(path).concat("'\n")
}

} // verus!
