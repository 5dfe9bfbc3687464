//! Fetching a file: what is reported, and how it ends.

use turnstile::download::{Event, Fraction, Progress, Status, Transfer, Verdict};
use turnstile::error::CoreError;

/// What a file of `body` bytes is reported as, fetched in chunks, and how it ends.
fn fetch(body: u64, header: Option<&str>, cancelled: bool) -> (Vec<Progress>, Result<(), CoreError>) {
    let mut reports = vec![Transfer::opening()];
    let (mut transfer, first) = Transfer::begin(header);
    reports.extend(first);
    let mut left = body;
    loop {
        let event = if cancelled {
            Event::Cancelled
        } else if left == 0 {
            Event::ReadAll
        } else {
            let n = left.min(512);
            left -= n;
            Event::Wrote(n)
        };
        match transfer.stream(event) {
            Verdict::Continue(report) => reports.extend(report),
            Verdict::Sync => match transfer.stream(Event::Synced) {
                Verdict::Finished(report) => {
                    reports.push(report);
                    assert_eq!(transfer.downloaded, body);
                    return (reports, Ok(()));
                }
                other => panic!("got {other:?}"),
            },
            Verdict::Finished(_) => panic!("finished before everything was written"),
            Verdict::Failed(e) => return (reports, Err(e)),
        }
    }
}

fn value(f: Fraction) -> f64 {
    f.done as f64 / f.total as f64
}

#[test]
fn progress_reaches_one_when_content_length_is_known() {
    let (reports, end) = fetch(5000, Some("5000"), false);
    end.unwrap();
    let seen: Vec<Option<f64>> = reports.iter().map(|p| p.value.map(value)).collect();
    assert_eq!(seen.first(), Some(&Some(0.0)));
    assert_eq!(seen.last(), Some(&Some(1.0)));
    assert!(seen
        .iter()
        .all(|v| v.map(|x| (0.0..=1.0).contains(&x)).unwrap_or(true)));
    assert_eq!(seen.len(), 12);
    assert_eq!(seen[1], Some(512.0 / 5000.0));
}

#[test]
fn progress_is_indeterminate_when_content_length_is_absent() {
    let (reports, end) = fetch(2000, None, false);
    end.unwrap();
    assert!(
        reports.iter().any(|p| p.value.is_none()),
        "expected an indeterminate report"
    );
}

#[test]
fn cancellation_stops_the_download_and_removes_the_partial_file() {
    let (reports, end) = fetch(5_000_000, Some("5000000"), true);
    // What is written is deleted wherever the end is an error.
    assert!(matches!(end, Err(CoreError::Cancelled)));
    assert_eq!(reports.len(), 1, "nothing was read");
}

#[test]
fn the_status_is_always_downloading_from_this_function() {
    let (reports, end) = fetch(100, Some("100"), false);
    end.unwrap();
    assert!(reports.iter().all(|p| p.status == Status::Downloading));
}

#[test]
fn a_length_that_says_nothing_is_no_length() {
    for header in ["", "many", "-1", "18446744073709551616"] {
        let (transfer, first) = Transfer::begin(Some(header));
        assert_eq!(transfer.total, None, "{header}");
        assert_eq!(first, Some(Progress { status: Status::Downloading, value: None }));
    }
    let (mut empty, first) = Transfer::begin(Some("0"));
    assert_eq!((empty.total, first), (Some(0), None));
    assert!(matches!(empty.stream(Event::Wrote(1)), Verdict::Continue(None)));
}

#[test]
fn a_server_that_sends_too_much_is_still_reported_as_all_of_it() {
    let (mut transfer, _) = Transfer::begin(Some("10"));
    match transfer.stream(Event::Wrote(25)) {
        Verdict::Continue(Some(p)) => assert_eq!(p.value, Some(Fraction { done: 10, total: 10 })),
        other => panic!("got {other:?}"),
    }
}

#[test]
fn every_failure_says_what_failed() {
    let ends = [
        (Event::ReadFailed("reset".into()), "network request failed: reset"),
        (Event::WriteFailed("disk full".into()), "disk full"),
        (Event::SyncFailed("gone".into()), "gone"),
        (Event::Cancelled, "cancelled"),
    ];
    for (event, words) in ends {
        let (mut transfer, _) = Transfer::begin(None);
        match transfer.stream(event) {
            Verdict::Failed(e) => assert_eq!(e.message(), words),
            other => panic!("got {other:?}"),
        }
    }
}
