use trimmeroni::{ClipSegment, DropEmpty, InputClip};

#[test]
fn escapes() {
    let clip = InputClip::from_spec("asdf @ -").unwrap();
    assert_eq!(clip.filename, "asdf");
    assert_eq!(clip.segments.len(), 1);
    assert_eq!(clip.segments[0].start_timecode, None);
    assert_eq!(clip.segments[0].end_timecode, None);

    let clip = InputClip::from_spec("asdf@@12.a@@a").unwrap();
    assert_eq!(clip.filename, "asdf@12.a@a");
    assert_eq!(clip.segments.len(), 1);
    assert_eq!(clip.segments[0].start_timecode, None);
    assert_eq!(clip.segments[0].end_timecode, None);

    let clip = InputClip::from_spec("asdf@@@@12.a@@a @ 01:23 - 02:46").unwrap();
    assert_eq!(clip.filename, "asdf@@12.a@a");
    assert_eq!(clip.segments.len(), 1);
    assert_eq!(clip.segments[0].start_timecode, Some("01:23".into()));
    assert_eq!(clip.segments[0].end_timecode, Some("02:46".into()));

    let _clip = InputClip::from_spec("asdf@@12.a@@a @ 01:23 @@ 02:46").unwrap_err();

    let clip = InputClip::from_spec("asdf@-02:46").unwrap();
    assert_eq!(clip.filename, "asdf");
    assert_eq!(clip.segments.len(), 1);
    assert_eq!(clip.segments[0].start_timecode, None);
    assert_eq!(clip.segments[0].end_timecode, Some("02:46".into()));

    let clip = InputClip::from_spec("asdf@").unwrap();
    assert_eq!(clip.filename, "asdf");
    assert_eq!(clip.segments.len(), 1);
    assert_eq!(clip.segments[0].start_timecode, None);
    assert_eq!(clip.segments[0].end_timecode, None);

    let clip = InputClip::from_spec("asdf@@@01:23-02:46").unwrap();
    assert_eq!(clip.filename, "asdf@");
    assert_eq!(clip.segments.len(), 1);
    assert_eq!(clip.segments[0].start_timecode, Some("01:23".into()));
    assert_eq!(clip.segments[0].end_timecode, Some("02:46".into()));
}

fn bounds(clip: &InputClip) -> Vec<(Option<String>, Option<String>)> {
    clip.segments
        .iter()
        .map(|s| (s.start_timecode.clone(), s.end_timecode.clone()))
        .collect()
}

fn some(s: &str) -> Option<String> {
    Some(s.to_string())
}

#[test]
fn two_segments_with_spaces() {
    let clip = InputClip::from_spec("clip.mp4 @ 00:01:00 - 00:02:30, 00:05:00-00:06:00").unwrap();
    assert_eq!(clip.filename, "clip.mp4");
    assert_eq!(
        bounds(&clip),
        vec![
            (some("00:01:00"), some("00:02:30")),
            (some("00:05:00"), some("00:06:00")),
        ]
    );
}

#[test]
fn sentinel_with_nothing_after() {
    let clip = InputClip::from_spec("clip.mp4@").unwrap();
    assert_eq!(clip.filename, "clip.mp4");
    assert_eq!(bounds(&clip), vec![(None, None)]);
}

#[test]
fn end_only() {
    let clip = InputClip::from_spec("clip.mp4@-00:10").unwrap();
    assert_eq!(clip.filename, "clip.mp4");
    assert_eq!(bounds(&clip), vec![(None, some("00:10"))]);
}

#[test]
fn start_only() {
    let clip = InputClip::from_spec("clip.mp4@00:10").unwrap();
    assert_eq!(bounds(&clip), vec![(some("00:10"), None)]);
}

#[test]
fn invalid_timecode_is_reported() {
    let err = InputClip::from_spec("clip.mp4@1:2:3-00:10").unwrap_err();
    assert!(err.desc.contains("1:2:3"));
    assert_eq!(err.desc, "invalid timecode: 1:2:3");
}

#[test]
fn start_is_reported_before_end() {
    let err = InputClip::from_spec("a@x-y").unwrap_err();
    assert_eq!(err.desc, "invalid timecode: x");
    let err = InputClip::from_spec("a@00:01-y").unwrap_err();
    assert_eq!(err.desc, "invalid timecode: y");
}

#[test]
fn first_invalid_segment_wins() {
    let err = InputClip::from_spec("a@00:01-00:02, 7-00:03, 8").unwrap_err();
    assert_eq!(err.desc, "invalid timecode: 7");
    let err = InputClip::from_spec("a@00:01-00:02, 00:03-00:04, 9").unwrap_err();
    assert_eq!(err.desc, "invalid timecode: 9");
}

#[test]
fn no_sentinel_is_whole_file() {
    let clip = InputClip::from_spec("  my clip.mp4 \t ").unwrap();
    assert_eq!(clip.filename, "  my clip.mp4");
    assert_eq!(bounds(&clip), vec![(None, None)]);

    let clip = InputClip::from_spec("").unwrap();
    assert_eq!(clip.filename, "");
    assert_eq!(bounds(&clip), vec![(None, None)]);
}

#[test]
fn unicode_whitespace_is_trimmed_and_skipped() {
    let clip = InputClip::from_spec("film\u{3000}\u{a0}@\u{2003}00:01\u{2028}-\u{85}00:02").unwrap();
    assert_eq!(clip.filename, "film");
    assert_eq!(bounds(&clip), vec![(some("00:01"), some("00:02"))]);
}

#[test]
fn segment_order_is_kept() {
    let clip = InputClip::from_spec("a@00:03-00:04,00:01-00:02,-,00:05-").unwrap();
    assert_eq!(
        bounds(&clip),
        vec![
            (some("00:03"), some("00:04")),
            (some("00:01"), some("00:02")),
            (None, None),
            (some("00:05"), None),
        ]
    );
}

#[test]
fn trailing_comma_closes_no_extra_segment() {
    let clip = InputClip::from_spec("a@00:01-00:02,").unwrap();
    assert_eq!(bounds(&clip), vec![(some("00:01"), some("00:02"))]);
    let clip = InputClip::from_spec("a@-,-,").unwrap();
    assert_eq!(bounds(&clip), vec![(None, None), (None, None)]);
}

#[test]
fn timecode_grammar() {
    let ok = [
        "", "00:00", "12:34", "1:00:00", "123:45:67", "00:01.5", "1:00:00.250",
        "\u{661}\u{662}:\u{663}\u{664}", "\u{ff10}\u{ff11}:\u{966}\u{967}.\u{e50}",
    ];
    for t in ok {
        let seg = ClipSegment::from_parts(t, "").unwrap();
        if t.is_empty() {
            assert_eq!(seg.start_timecode, None);
        } else {
            assert_eq!(seg.start_timecode, some(t));
        }
        assert_eq!(seg.end_timecode, None);
    }
    let bad = [
        "0:00", "00:0", "000:00", ":00:00", "00:00.", "00:00:00:00", "a0:00", "00:00 ",
        "00-00", ".5", "\u{b2}0:00", "0\u{bd}:00",
    ];
    for t in bad {
        let err = ClipSegment::from_parts("00:00", t).unwrap_err();
        assert_eq!(err.desc, format!("invalid timecode: {}", t));
    }
}

#[test]
fn new_segment_is_unbounded() {
    let seg = ClipSegment::new();
    assert_eq!(seg.start_timecode, None);
    assert_eq!(seg.end_timecode, None);
}

#[test]
fn drop_empty_strings() {
    assert_eq!(String::new().drop_empty(), None);
    assert_eq!(String::from("x").drop_empty(), Some(String::from("x")));
}

#[test]
fn spec_text_of_a_clip() {
    let clip = InputClip::from_spec("a@@b c.mp4 @ 00:01-00:02, -1:00:00.5").unwrap();
    assert_eq!(clip.to_spec(), "a@@b c.mp4@00:01-00:02,-1:00:00.5,");
    let clip = InputClip::from_spec("x").unwrap();
    assert_eq!(clip.to_spec(), "x@-,");
}

#[test]
fn round_trip() {
    let specs = [
        "clip.mp4 @ 00:01:00 - 00:02:30, 00:05:00-00:06:00",
        "asdf@@@@12.a@@a @ 01:23 - 02:46",
        "asdf@@@01:23-02:46",
        "  lead @@ space  ",
        "a@-,-,",
        "a@00:03-00:04,00:01-00:02,-,00:05-",
        "clip.mp4@",
    ];
    for s in specs {
        let first = InputClip::from_spec(s).unwrap();
        let second = InputClip::from_spec(&first.to_spec()).unwrap();
        assert_eq!(first.filename, second.filename);
        assert_eq!(bounds(&first), bounds(&second));
    }
}

#[test]
fn odd_inputs_parse_or_fail_cleanly() {
    let inputs = [
        "@", "@@", "@@@", "@@@@", "-", ",", "@,", "@-,", "@ - , - ,", "é@ü-ß", "@\u{0}",
        "a@00:00-00:00-00:00", "a@,,,", "a@ @ @", "\t@\n", "a@00:01,00:02",
    ];
    for s in inputs {
        match InputClip::from_spec(s) {
            Ok(clip) => {
                assert!(!clip.segments.is_empty());
                assert_eq!(clip.filename, clip.filename.trim_end());
                for seg in &clip.segments {
                    for t in [&seg.start_timecode, &seg.end_timecode].into_iter().flatten() {
                        assert!(!t.is_empty());
                        assert!(ClipSegment::from_parts(t, "").is_ok());
                    }
                }
            }
            Err(e) => assert!(e.desc.starts_with("invalid timecode: ")),
        }
    }
}

#[test]
fn unicode_decimal_digits_are_digits() {
    let arabic = "\u{661}\u{662}:\u{663}\u{664}";
    let clip = InputClip::from_spec(&format!("f@{}-", arabic)).unwrap();
    assert_eq!(clip.filename, "f");
    assert_eq!(bounds(&clip), vec![(some(arabic), None)]);

    let err = ClipSegment::from_parts(arabic, "x").unwrap_err();
    assert_eq!(err.desc, "invalid timecode: x");

    let clip = InputClip::from_spec(&format!("f@ 00:01 - {}, {}.\u{661}-", arabic, arabic)).unwrap();
    assert_eq!(
        bounds(&clip),
        vec![(some("00:01"), some(arabic)), (some(&format!("{}.\u{661}", arabic)), None)]
    );
}
