//! In which order an install is done, and what a failure means.

use turnstile::download::{Fraction, Progress, Status};
use turnstile::error::CoreError;
use turnstile::sequence::{DataPhase, InstallPhase, Outcome};

fn failed() -> Outcome {
    Outcome::Failed(CoreError::Io("disk full".into()))
}

fn name(phase: &InstallPhase) -> &'static str {
    match phase {
        InstallPhase::Recover => "recover",
        InstallPhase::Begin => "begin",
        InstallPhase::Download => "download",
        InstallPhase::Unpack => "unpack",
        InstallPhase::Stamp => "stamp",
        InstallPhase::MakeWay => "make way",
        InstallPhase::Place { .. } => "place",
        InstallPhase::Commit { .. } => "commit",
        InstallPhase::RollBack { .. } => "roll back",
        InstallPhase::Tidy { .. } => "tidy",
        InstallPhase::Finished { .. } => "finished",
    }
}

/// The parts of an install in which the parts called `broken` fail, what was reported,
/// and how it ended.
fn install(broken: &[&str]) -> (Vec<&'static str>, Vec<Progress>, Result<(), CoreError>) {
    let mut phase = InstallPhase::Recover;
    let mut parts = Vec::new();
    let mut reports = Vec::new();
    loop {
        parts.push(name(&phase));
        let how = if broken.contains(&name(&phase)) {
            failed()
        } else if let InstallPhase::MakeWay = phase {
            Outcome::MadeWay { had_previous: true }
        } else {
            Outcome::Done
        };
        if let InstallPhase::Finished { outcome } = phase {
            return (parts, reports, outcome);
        }
        let (next, report) = phase.next(how);
        reports.extend(report);
        phase = next;
    }
}

#[test]
fn an_install_that_works_goes_through_every_part() {
    let (parts, reports, end) = install(&[]);
    end.unwrap();
    assert_eq!(
        parts,
        [
            "recover", "begin", "download", "unpack", "stamp", "make way", "place", "commit",
            "tidy", "finished"
        ]
    );
    assert_eq!(
        reports,
        [
            Progress { status: Status::Extracting, value: None },
            Progress {
                status: Status::Extracting,
                value: Some(Fraction { done: 1, total: 1 })
            },
        ]
    );
}

#[test]
fn a_part_that_fails_ends_the_install_once_it_is_tidied() {
    for broken in ["download", "unpack", "stamp", "make way"] {
        let (parts, _, end) = install(&[broken]);
        assert!(matches!(end, Err(CoreError::Io(m)) if m == "disk full"), "{broken}");
        assert_eq!(parts[parts.len() - 3..], [broken, "tidy", "finished"]);
    }
    let (parts, _, end) = install(&["begin"]);
    assert!(end.is_err());
    assert_eq!(parts, ["recover", "begin", "finished"]);
}

#[test]
fn a_build_that_is_not_put_in_place_is_rolled_back() {
    let (parts, reports, end) = install(&["place", "roll back"]);
    assert!(end.is_err());
    assert_eq!(parts[6..], ["place", "roll back", "tidy", "finished"]);
    assert_eq!(reports.len(), 1, "nothing claims to be done");
}

#[test]
fn what_goes_wrong_in_cleaning_up_fails_no_install() {
    let (parts, _, end) = install(&["recover", "commit", "tidy"]);
    end.unwrap();
    assert_eq!(parts.len(), 10);
}

fn data_name(phase: &DataPhase) -> &'static str {
    match phase {
        DataPhase::Prepare => "prepare",
        DataPhase::Unpack => "unpack",
        DataPhase::Check => "check",
        DataPhase::Abandon { .. } => "abandon",
        DataPhase::SetAside => "set aside",
        DataPhase::Place { .. } => "place",
        DataPhase::Commit => "commit",
        DataPhase::RollBack { .. } => "roll back",
        DataPhase::Finished { .. } => "finished",
    }
}

fn data(broken: &str) -> (Vec<&'static str>, Result<(), CoreError>) {
    let mut phase = DataPhase::Prepare;
    let mut parts = Vec::new();
    loop {
        parts.push(data_name(&phase));
        let how = if broken == data_name(&phase) {
            failed()
        } else if let DataPhase::SetAside = phase {
            Outcome::MadeWay { had_previous: true }
        } else {
            Outcome::Done
        };
        if let DataPhase::Finished { outcome } = phase {
            return (parts, outcome);
        }
        phase = phase.next(how);
    }
}

#[test]
fn data_is_checked_and_an_older_copy_survives_a_failure() {
    let (parts, end) = data("");
    end.unwrap();
    assert_eq!(
        parts,
        ["prepare", "unpack", "check", "set aside", "place", "commit", "finished"]
    );
    for (broken, rest) in [
        ("prepare", vec!["finished"]),
        ("unpack", vec!["abandon", "finished"]),
        ("check", vec!["abandon", "finished"]),
        ("set aside", vec!["finished"]),
        ("place", vec!["roll back", "finished"]),
    ] {
        let (parts, end) = data(broken);
        assert!(end.is_err(), "{broken}");
        let at = parts.iter().position(|p| *p == broken).unwrap();
        assert_eq!(parts[at + 1..], rest, "{broken}");
    }
    assert!(data("commit").1.is_ok());
}

#[test]
fn nothing_comes_after_the_end() {
    let end = InstallPhase::Finished { outcome: Ok(()) };
    assert!(matches!(end.next(failed()).0, InstallPhase::Finished { outcome: Ok(()) }));
    let end = DataPhase::Finished { outcome: Ok(()) };
    assert!(matches!(end.next(failed()), DataPhase::Finished { outcome: Ok(()) }));
}
