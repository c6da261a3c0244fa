use exif_chdate::CliError;
use exif_chdate::format_two_digits;
use exif_chdate::parse_args;

fn args(parts: &[&str]) -> Vec<String> {
    parts.iter().map(|p| String::from(*p)).collect()
}

#[test]
fn accepts_day_month_and_files_without_year() {
    let cfg = parse_args(args(&["17", "5", "a.jpg", "b.jpg"])).unwrap();
    assert_eq!(cfg.day, "17");
    assert_eq!(cfg.month, "05");
    assert_eq!(cfg.year, None);
    assert_eq!(cfg.files, vec![String::from("a.jpg"), String::from("b.jpg")]);
}

#[test]
fn four_digit_lookahead_is_taken_as_year() {
    let cfg = parse_args(args(&["17", "5", "1999", "a.jpg"])).unwrap();
    assert_eq!(cfg.year.as_deref(), Some("1999"));
    assert_eq!(cfg.files, vec![String::from("a.jpg")]);
}

#[test]
fn three_digit_lookahead_is_a_file() {
    let cfg = parse_args(args(&["17", "5", "199", "a.jpg"])).unwrap();
    assert_eq!(cfg.year, None);
    assert_eq!(cfg.files, vec![String::from("199"), String::from("a.jpg")]);
}

#[test]
fn non_digit_lookahead_is_a_file() {
    let cfg = parse_args(args(&["17", "5", "20ab", "a.jpg"])).unwrap();
    assert_eq!(cfg.year, None);
    assert_eq!(cfg.files, vec![String::from("20ab"), String::from("a.jpg")]);
}

#[test]
fn fewer_than_three_arguments_are_rejected() {
    assert_eq!(parse_args(args(&["17", "5"])), Err(CliError::TooFewArguments));
    assert_eq!(parse_args(args(&[])), Err(CliError::TooFewArguments));
}

#[test]
fn day_out_of_range_is_rejected() {
    assert_eq!(parse_args(args(&["32", "5", "a.jpg"])), Err(CliError::InvalidDay));
    assert_eq!(parse_args(args(&["0", "5", "a.jpg"])), Err(CliError::InvalidDay));
}

#[test]
fn non_numeric_day_is_rejected() {
    assert_eq!(parse_args(args(&["ab", "5", "a.jpg"])), Err(CliError::InvalidDay));
    assert_eq!(parse_args(args(&["", "5", "a.jpg"])), Err(CliError::InvalidDay));
}

#[test]
fn month_out_of_range_is_rejected() {
    assert_eq!(parse_args(args(&["17", "13", "a.jpg"])), Err(CliError::InvalidMonth));
    assert_eq!(parse_args(args(&["17", "0", "a.jpg"])), Err(CliError::InvalidMonth));
}

#[test]
fn year_with_no_file_after_it_is_rejected() {
    assert_eq!(parse_args(args(&["17", "5", "1999"])), Err(CliError::NoFiles));
}

#[test]
fn leading_zeros_are_read_as_the_same_number() {
    let cfg = parse_args(args(&["007", "0012", "a.jpg"])).unwrap();
    assert_eq!(cfg.day, "07");
    assert_eq!(cfg.month, "12");
}

#[test]
fn huge_numeric_day_is_rejected_not_mistaken() {
    assert_eq!(
        parse_args(args(&["99999999999999999999", "5", "a.jpg"])),
        Err(CliError::InvalidDay)
    );
}

#[test]
fn two_digit_formatting_zero_pads() {
    assert_eq!(format_two_digits(7), "07");
    assert_eq!(format_two_digits(31), "31");
    assert_eq!(format_two_digits(0), "00");
    assert_eq!(format_two_digits(99), "99");
}
