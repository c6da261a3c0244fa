use exif_chdate::build_new_datetime;

#[test]
fn replaces_date_and_year_keeps_offset() {
    let r = build_new_datetime("2021:05:17 14:03:22+02:00", Some("1999"), "12", "25");
    assert_eq!(r.as_deref(), Some("1999:12:25 14:03:22+02:00"));
}

#[test]
fn replaces_date_keeps_year_and_time() {
    let r = build_new_datetime("2021:05:17 14:03:22", None, "12", "25");
    assert_eq!(r.as_deref(), Some("2021:12:25 14:03:22"));
}

#[test]
fn garbage_yields_none() {
    assert_eq!(build_new_datetime("garbage", None, "01", "01"), None);
}

#[test]
fn empty_input_yields_none() {
    assert_eq!(build_new_datetime("", None, "01", "01"), None);
}

#[test]
fn date_segment_without_colon_yields_none() {
    assert_eq!(build_new_datetime("20210517 14:03:22", None, "12", "25"), None);
}

#[test]
fn negative_offset_preserved_with_sign() {
    let r = build_new_datetime("2021:05:17 14:03:22-07:00", None, "12", "25");
    assert_eq!(r.as_deref(), Some("2021:12:25 14:03:22-07:00"));
}

#[test]
fn supplied_year_wins_over_original() {
    let r = build_new_datetime("2021:05:17 08:15:00", Some("2005"), "01", "02");
    assert_eq!(r.as_deref(), Some("2005:01:02 08:15:00"));
}

#[test]
fn omitted_year_keeps_original_year() {
    let r = build_new_datetime("1987:11:30 23:59:59", None, "06", "15");
    assert_eq!(r.as_deref(), Some("1987:06:15 23:59:59"));
}

#[test]
fn reapplication_gives_same_output() {
    let once = build_new_datetime("2021:05:17 14:03:22+02:00", Some("1999"), "12", "25").unwrap();
    let twice = build_new_datetime(&once, Some("1999"), "12", "25").unwrap();
    assert_eq!(once, twice);
}

#[test]
fn reapplication_without_year_gives_same_output() {
    let once = build_new_datetime("2021:05:17 14:03:22", None, "03", "09").unwrap();
    let twice = build_new_datetime(&once, None, "03", "09").unwrap();
    assert_eq!(once, twice);
}

#[test]
fn no_range_validation_of_month_or_day() {
    let r = build_new_datetime("2021:05:17 10:00:00", None, "13", "40");
    assert_eq!(r.as_deref(), Some("2021:13:40 10:00:00"));
}

#[test]
fn time_of_day_is_kept_byte_for_byte() {
    let r = build_new_datetime("2021:05:17 00:00:01", None, "02", "03").unwrap();
    assert_eq!(&r[11..], "00:00:01");
}
