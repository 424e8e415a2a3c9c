use blend_render::frame_range::{
    extract_frame_range, parse_frame_range, probe_args, resolve_range, AnimationSettings, RangeSource,
};

fn settings(single: &str, range: &str, start: &str, end: &str) -> AnimationSettings {
    AnimationSettings {
        single_frame_status: single.to_string(),
        range_status: range.to_string(),
        start_frame: start.to_string(),
        end_frame: end.to_string(),
    }
}

#[test]
fn range_is_read_from_the_marked_line() {
    let out = "Blender 5.1.0\nRead blend: \"a.blend\"\r\nFRANGE 1 250\nBlender quit\n";
    assert_eq!(parse_frame_range(out), Some((1, 250)));
    assert_eq!(extract_frame_range(out.as_bytes()), Some((1, 250)));
    assert_eq!(parse_frame_range("FRANGE -5 +7\r\n"), Some((-5, 7)));
    assert_eq!(parse_frame_range("FRANGE \u{2003}3\t\u{a0}4 and more"), Some((3, 4)));
}

#[test]
fn first_marked_line_decides() {
    assert_eq!(parse_frame_range("FRANGE one 2\nFRANGE 1 2\n"), None);
    assert_eq!(parse_frame_range("FRANGE 1\nFRANGE 1 2\n"), None);
    assert_eq!(parse_frame_range("FRANGE 7 8\nFRANGE 1 2\n"), Some((7, 8)));
}

#[test]
fn output_without_a_range() {
    assert_eq!(parse_frame_range(""), None);
    assert_eq!(parse_frame_range("FRANGE\n1 2"), None);
    assert_eq!(parse_frame_range(" FRANGE 1 2"), None);
    assert_eq!(parse_frame_range("FRANGE 1 9223372036854775808"), None);
}

#[test]
fn bytes_that_are_no_text_are_passed_over() {
    let mut out: Vec<u8> = vec![0xff, 0xfe, b'\n'];
    out.extend_from_slice(b"FRANGE 3 9\n\x80");
    assert_eq!(extract_frame_range(&out), Some((3, 9)));
    assert_eq!(extract_frame_range(b"FRANGE 3 9\xff"), None);
}

#[test]
fn single_frame_goes_first() {
    assert_eq!(resolve_range(&settings("true", "true", "1", "9")), RangeSource::SingleFrame);
}

#[test]
fn chosen_range_goes_before_the_scene() {
    assert_eq!(resolve_range(&settings("false", "true", "4", "9")), RangeSource::Chosen(4, 9));
    assert_eq!(resolve_range(&settings("", "true", "x", "")), RangeSource::Chosen(1, 1));
    assert_eq!(resolve_range(&settings("false", "false", "4", "9")), RangeSource::Scene);
    assert_eq!(resolve_range(&settings("TRUE", "yes", "4", "9")), RangeSource::Scene);
}

#[test]
fn scene_is_asked_by_a_script() {
    assert_eq!(
        probe_args("blend-folder/a b.blend"),
        [
            "-b",
            "blend-folder/a b.blend",
            "--python-expr",
            "import bpy; s = bpy.context.scene; print('FRANGE', s.frame_start, s.frame_end)",
        ]
    );
}
