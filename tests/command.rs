use trimmeroni::command::{concat_args, concat_list_line, trim_args};
use trimmeroni::InputClip;

#[test]
fn trim_args_with_both_bounds() {
    let clip = InputClip::from_spec("in.mp4@00:01-00:02").unwrap();
    let args = trim_args(&clip.filename, &clip.segments[0], false, "/tmp/out.mp4");
    assert_eq!(
        args,
        vec![
            "-hide_banner", "-loglevel", "warning", "-i", "in.mp4", "-ss", "00:01", "-to", "00:02", "-c",
            "copy", "/tmp/out.mp4",
        ]
    );
}

#[test]
fn trim_args_leave_out_absent_bounds() {
    let clip = InputClip::from_spec("in.mp4@-00:02, 00:03-").unwrap();
    let args = trim_args(&clip.filename, &clip.segments[0], true, "o");
    assert_eq!(
        args,
        vec!["-hide_banner", "-loglevel", "info", "-i", "in.mp4", "-to", "00:02", "-c", "copy", "o"]
    );
    let args = trim_args(&clip.filename, &clip.segments[1], true, "o");
    assert_eq!(
        args,
        vec!["-hide_banner", "-loglevel", "info", "-i", "in.mp4", "-ss", "00:03", "-c", "copy", "o"]
    );
    let clip = InputClip::from_spec("in.mp4").unwrap();
    let args = trim_args(&clip.filename, &clip.segments[0], false, "o");
    assert_eq!(
        args,
        vec!["-hide_banner", "-loglevel", "warning", "-i", "in.mp4", "-c", "copy", "o"]
    );
}

#[test]
fn concat_args_name_the_list() {
    assert_eq!(
        concat_args("list.txt", false, "out.mp4"),
        vec![
            "-hide_banner", "-loglevel", "warning", "-f", "concat", "-safe", "0", "-i", "list.txt", "-c",
            "copy", "out.mp4",
        ]
    );
}

#[test]
fn concat_list_line_quotes_the_path() {
    assert_eq!(concat_list_line("/tmp/a b.mp4"), "file '/tmp/a b.mp4'\n");
}
