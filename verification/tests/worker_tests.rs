use exif_chdate::DateEdit;
use exif_chdate::Outcome;
use exif_chdate::WorkerStep;
use exif_chdate::decide_after_read;
use exif_chdate::decide_after_write;
use exif_chdate::run_batch;
use exif_chdate::worker_outcome;

fn edit_dec25() -> DateEdit {
    DateEdit { month: String::from("12"), day: String::from("25"), year: None }
}

#[test]
fn failed_read_skips_file_as_unreadable() {
    let o = worker_outcome(String::from("a.jpg"), None, Ok(()), &edit_dec25());
    assert_eq!(o, Outcome::SkippedUnreadable { file: String::from("a.jpg") });
}

#[test]
fn malformed_original_skips_file() {
    let o = worker_outcome(
        String::from("b.jpg"),
        Some(String::from("not a timestamp")),
        Ok(()),
        &edit_dec25(),
    );
    assert_eq!(o, Outcome::SkippedMalformed { file: String::from("b.jpg") });
}

#[test]
fn good_read_and_write_reports_success() {
    let o = worker_outcome(
        String::from("c.jpg"),
        Some(String::from("2021:05:17 14:03:22")),
        Ok(()),
        &edit_dec25(),
    );
    assert_eq!(
        o,
        Outcome::Success {
            file: String::from("c.jpg"),
            new_dt: String::from("2021:12:25 14:03:22"),
        }
    );
}

#[test]
fn failed_write_reports_its_cause() {
    let o = worker_outcome(
        String::from("d.jpg"),
        Some(String::from("2021:05:17 14:03:22")),
        Err(String::from("disk full")),
        &edit_dec25(),
    );
    assert_eq!(
        o,
        Outcome::WriteFailed { file: String::from("d.jpg"), cause: String::from("disk full") }
    );
}

#[test]
fn read_decision_owes_the_transformed_write() {
    let step = decide_after_read(
        String::from("e.jpg"),
        Some(String::from("2021:05:17 14:03:22+02:00")),
        &DateEdit {
            month: String::from("12"),
            day: String::from("25"),
            year: Some(String::from("1999")),
        },
    );
    match step {
        WorkerStep::NeedsWrite { file, new_dt } => {
            assert_eq!(file, "e.jpg");
            assert_eq!(new_dt, "1999:12:25 14:03:22+02:00");
        },
        WorkerStep::Done(o) => panic!("expected a write to be owed, got {:?}", o),
    }
}

#[test]
fn write_decision_reports_both_ways() {
    let ok = decide_after_write(String::from("f.jpg"), String::from("2021:12:25 10:00:00"), Ok(()));
    assert_eq!(
        ok,
        Outcome::Success {
            file: String::from("f.jpg"),
            new_dt: String::from("2021:12:25 10:00:00"),
        }
    );
    let bad = decide_after_write(
        String::from("g.jpg"),
        String::from("2021:12:25 10:00:00"),
        Err(String::from("tool exited with status 1")),
    );
    assert_eq!(
        bad,
        Outcome::WriteFailed {
            file: String::from("g.jpg"),
            cause: String::from("tool exited with status 1"),
        }
    );
}

#[test]
fn batch_of_three_reports_one_outcome_of_each_kind() {
    let files = vec![String::from("a.jpg"), String::from("b.jpg"), String::from("c.jpg")];
    let reads = vec![
        None,
        Some(String::from("2021:05:17 14:03:22")),
        Some(String::from("2021:05:17 14:03:22")),
    ];
    let writes = vec![Ok(()), Err(String::from("disk full")), Ok(())];
    let out = run_batch(files, reads, writes, &edit_dec25());

    assert_eq!(out.len(), 3);
    let unreadable = out
        .iter()
        .filter(|o| matches!(o, Outcome::SkippedUnreadable { .. }))
        .count();
    let write_failed = out.iter().filter(|o| matches!(o, Outcome::WriteFailed { .. })).count();
    let success = out.iter().filter(|o| matches!(o, Outcome::Success { .. })).count();
    assert_eq!(unreadable, 1);
    assert_eq!(write_failed, 1);
    assert_eq!(success, 1);
    assert!(success < 3);

    assert_eq!(out[0], Outcome::SkippedUnreadable { file: String::from("a.jpg") });
    assert_eq!(
        out[1],
        Outcome::WriteFailed { file: String::from("b.jpg"), cause: String::from("disk full") }
    );
    assert_eq!(
        out[2],
        Outcome::Success {
            file: String::from("c.jpg"),
            new_dt: String::from("2021:12:25 14:03:22"),
        }
    );
}

#[test]
fn batch_reports_every_file_exactly_once() {
    let files = vec![String::from("x.jpg"), String::from("y.jpg")];
    let reads = vec![None, None];
    let writes = vec![Ok(()), Ok(())];
    let out = run_batch(files, reads, writes, &edit_dec25());
    assert_eq!(out.len(), 2);
    assert_eq!(out[0], Outcome::SkippedUnreadable { file: String::from("x.jpg") });
    assert_eq!(out[1], Outcome::SkippedUnreadable { file: String::from("y.jpg") });
}
