use exif_chdate::interpret_read_output;
use exif_chdate::read_command_args;
use exif_chdate::write_command_args;

#[test]
fn read_invocation_asks_for_the_raw_capture_timestamp() {
    let args = read_command_args("img.jpg");
    assert_eq!(args, vec!["-DateTimeOriginal", "-s", "-s", "-s", "img.jpg"]);
}

#[test]
fn write_invocation_sets_three_fields_to_one_value() {
    let args = write_command_args("img.jpg", "1999:12:25 14:03:22+02:00");
    assert_eq!(
        args,
        vec![
            "-overwrite_original",
            "-DateTimeOriginal=1999:12:25 14:03:22+02:00",
            "-CreateDate=1999:12:25 14:03:22+02:00",
            "-ModifyDate=1999:12:25 14:03:22+02:00",
            "img.jpg",
        ]
    );
}

#[test]
fn failed_tool_run_reads_as_nothing() {
    let r = interpret_read_output(false, String::from("2021:05:17 14:03:22"));
    assert_eq!(r, None);
}

#[test]
fn whitespace_only_output_reads_as_nothing() {
    assert_eq!(interpret_read_output(true, String::from("")), None);
    assert_eq!(interpret_read_output(true, String::from("  \t\n")), None);
}

#[test]
fn output_is_trimmed_on_both_ends() {
    let r = interpret_read_output(true, String::from("\t 2021:05:17 14:03:22 \r\n"));
    assert_eq!(r.as_deref(), Some("2021:05:17 14:03:22"));
}

#[test]
fn trailing_newline_is_stripped() {
    let r = interpret_read_output(true, String::from("2021:05:17 14:03:22\n"));
    assert_eq!(r.as_deref(), Some("2021:05:17 14:03:22"));
}

#[test]
fn inner_whitespace_is_kept() {
    let r = interpret_read_output(true, String::from("a b\n"));
    assert_eq!(r.as_deref(), Some("a b"));
}
