//! Putting builds in place, and cleaning up after an install that was cut short.

use turnstile::dirs::Dirs;
use turnstile::disk::{place, Act, Build, Disk, Folder, Landing, Node, OnError, Place, Plan, Step};
use turnstile::download::{Event, Progress, Status, Transfer, Verdict};
use turnstile::error::{CoreError, TagError};
use turnstile::game::GameId;
use turnstile::install::{
    install, launch, launched, recover_debris, recover_stray_trash, sweep_stale_staging, Install,
    Started, STALE_DEBRIS_AGE,
};
use turnstile::sequence::{InstallPhase, Outcome};
use turnstile::store::{Mode, VersionStore};

/// The game's directory, held in memory.
struct Scratch {
    store: VersionStore,
    disk: Disk,
    /// When the next thing is changed, in nanoseconds.
    now: u64,
}

fn at(path: &str) -> Place {
    match path.strip_prefix("versions/") {
        Some(name) => place(Folder::Versions, name),
        None => place(Folder::Game, path),
    }
}

fn copy(disk: &Disk, has_versions: bool) -> Disk {
    let mut out = Disk::new("/support/OpenRCT2/versions", has_versions);
    for entry in disk.entries() {
        out.put(entry.place.clone(), entry.node.clone());
    }
    out
}

/// Takes one step, or says that it cannot be taken.
fn take(disk: &Disk, act: &Act) -> Option<Disk> {
    let mut plan = Plan::new(copy(disk, disk.has_versions()));
    let again = match act {
        Act::MakeFolder(folder) => Act::MakeFolder(*folder),
        Act::RemoveFile(at) => Act::RemoveFile(at.clone()),
        Act::RemoveTree(at) => Act::RemoveTree(at.clone()),
        Act::Rename { from, to } => Act::Rename { from: from.clone(), to: to.clone() },
        Act::Symlink { at, target } => Act::Symlink { at: at.clone(), target: target.clone() },
        Act::Write { at, contents } => Act::Write { at: at.clone(), contents: contents.clone() },
    };
    plan.step(again, OnError::Fail);
    if plan.failed() {
        None
    } else {
        Some(copy(plan.disk(), plan.disk().has_versions()))
    }
}

/// Takes steps in their order, with those of `broken` failing.
fn take_all(disk: &Disk, steps: &[Step], broken: &[Act]) -> (Disk, bool) {
    let mut disk = copy(disk, disk.has_versions());
    let mut skip = false;
    for step in steps {
        if skip {
            skip = false;
            continue;
        }
        let taken = if broken.contains(&step.act) { None } else { take(&disk, &step.act) };
        match taken {
            Some(after) => disk = after,
            None => match step.on_error {
                OnError::Fail => return (disk, false),
                OnError::Ignore => {}
                OnError::SkipNext => skip = true,
            },
        }
    }
    (disk, true)
}

impl Scratch {
    fn new() -> Scratch {
        Scratch {
            store: VersionStore::new(Dirs::at("/support"), GameId::OpenRCT2),
            disk: Disk::new("/support/OpenRCT2/versions", false),
            now: 1,
        }
    }

    fn put(&mut self, path: &str, node: Node) {
        let has_versions = self.disk.has_versions() || path.starts_with("versions/");
        self.disk = copy(&self.disk, has_versions);
        self.disk.put(at(path), node);
        self.now += 1;
    }

    fn dir(&mut self, path: &str, tag: Option<&str>, launches: bool) {
        let build = Build { version: tag.map(|t| t.to_string()), launches, bytes: 100 };
        let modified = Some(self.now);
        self.put(path, Node::Dir { build, modified });
    }

    fn file(&mut self, path: &str, contents: &str) {
        let contents = Some(contents.to_string());
        let modified = Some(self.now);
        self.put(path, Node::File { contents, modified });
    }

    fn rename(&mut self, from: &str, to: &str) {
        let act = Act::Rename { from: at(from), to: at(to) };
        self.disk = take(&self.disk, &act).expect("rename");
    }

    fn run<T>(&mut self, work: impl FnOnce(&VersionStore, &mut Plan) -> T) -> T {
        self.run_broken(&[], work)
    }

    /// Plans something and does it, with the steps of `broken` failing.
    fn run_broken<T>(
        &mut self,
        broken: &[Act],
        work: impl FnOnce(&VersionStore, &mut Plan) -> T,
    ) -> T {
        let mut plan = Plan::new(copy(&self.disk, self.disk.has_versions()));
        let result = work(&self.store, &mut plan);
        let (disk, _) = take_all(&self.disk, plan.taken_steps(), broken);
        self.disk = disk;
        result
    }

    /// Installs a build: `good` is whether what was downloaded can be unpacked.
    fn install(&mut self, mode: Mode, tag: &str, good: bool) -> Result<Vec<Progress>, CoreError> {
        let mut reports = Vec::new();
        self.install_reporting(mode, tag, good, &mut reports).map(|()| reports)
    }

    fn install_reporting(
        &mut self,
        mode: Mode,
        tag: &str,
        good: bool,
        reports: &mut Vec<Progress>,
    ) -> Result<(), CoreError> {
        let mut work = None;
        let mut phase = InstallPhase::Recover;
        loop {
            let how = match &phase {
                InstallPhase::Finished { .. } => break,
                InstallPhase::Recover => {
                    self.run(|_, plan| recover_stray_trash(plan, mode));
                    Outcome::Done
                }
                InstallPhase::Begin => {
                    match self.run(|store, plan| install(store, plan, mode, tag)) {
                        Ok(begun) => {
                            work = Some(begun);
                            Outcome::Done
                        }
                        Err(e) => Outcome::Failed(e),
                    }
                }
                later => self.part(work.as_ref().unwrap(), later, tag, good, reports),
            };
            let (next, report) = phase.next(how);
            reports.extend(report);
            phase = next;
        }
        match phase {
            InstallPhase::Finished { outcome } => outcome,
            other => panic!("got {other:?}"),
        }
    }

    fn part(
        &mut self,
        work: &Install,
        phase: &InstallPhase,
        tag: &str,
        good: bool,
        reports: &mut Vec<Progress>,
    ) -> Outcome {
        match phase {
            InstallPhase::Download => {
                let (mut transfer, first) = Transfer::begin(Some("3"));
                reports.push(Transfer::opening());
                reports.extend(first);
                for event in [Event::Wrote(3), Event::ReadAll, Event::Synced] {
                    match transfer.stream(event) {
                        Verdict::Continue(report) => reports.extend(report),
                        Verdict::Finished(report) => reports.push(report),
                        Verdict::Sync => {}
                        Verdict::Failed(e) => return Outcome::Failed(e),
                    }
                }
                self.put_at(&work.archive(), Node::File { contents: None, modified: None });
            }
            InstallPhase::Unpack => {
                let build = Build { version: None, launches: true, bytes: 100 };
                let modified = Some(self.now);
                self.put_at(&work.staging(), Node::Dir { build, modified });
                if !good {
                    let message = "not a zip at all".into();
                    return Outcome::Failed(CoreError::ExtractionFailed(message));
                }
            }
            InstallPhase::Stamp => {
                let build = Build { version: Some(tag.into()), launches: true, bytes: 100 };
                let modified = Some(self.now);
                self.put_at(&work.staging(), Node::Dir { build, modified });
            }
            InstallPhase::MakeWay => {
                return match self.run(|store, plan| work.make_way(store, plan)) {
                    Ok(had_previous) => Outcome::MadeWay { had_previous },
                    Err(e) => Outcome::Failed(e),
                };
            }
            InstallPhase::Place { .. } => self.run(|_, plan| work.put_in_place(plan)),
            InstallPhase::Commit { had_previous } => {
                self.run(|_, plan| work.commit(plan, *had_previous))
            }
            InstallPhase::RollBack { had_previous, .. } => {
                self.run(|_, plan| work.roll_back(plan, *had_previous))
            }
            InstallPhase::Tidy { outcome } => {
                self.run(|_, plan| work.tidy(plan, outcome.is_err()))
            }
            other => panic!("got {other:?}"),
        }
        Outcome::Done
    }

    fn put_at(&mut self, at: &Place, node: Node) {
        self.disk.put(at.clone(), node);
        self.now += 1;
    }

    fn found(&self, path: &str) -> bool {
        self.disk.leads_somewhere(&at(path))
    }

    fn is_dir(&self, path: &str) -> bool {
        self.disk.resolves(&at(path))
    }

    fn launches(&self, path: &str) -> bool {
        matches!(self.disk.landing(&at(path)), Landing::Dir(Build { launches: true, .. }))
    }

    fn version(&self, path: &str) -> Option<String> {
        match self.disk.landing(&at(path)) {
            Landing::Dir(build) => build.version,
            _ => None,
        }
    }

    fn hidden(&self) -> Vec<String> {
        let names = self.disk.entries().iter().map(|e| e.place.name.clone());
        names.filter(|n| n.starts_with('.')).collect()
    }
}

#[test]
fn installing_in_multi_version_mode_lands_in_the_store_and_activates() {
    let mut s = Scratch::new();
    s.install(Mode::MultiVersion, "v1", true).unwrap();
    s.run(|store, plan| store.activate(plan, Mode::MultiVersion, "v1")).unwrap();

    assert!(s.launches("versions/v1"));
    assert_eq!(s.version("versions/v1").as_deref(), Some("v1"));
    assert_eq!(s.store.active(&s.disk, Mode::MultiVersion), Some("v1".into()));
}

#[test]
fn installing_in_compatible_mode_produces_a_plain_bin_directory() {
    let mut s = Scratch::new();
    s.install(Mode::Compatible, "v1", true).unwrap();

    assert!(s.disk.is_dir(&at("bin")));
    assert!(s.launches("bin"));
    assert_eq!(s.version("bin").as_deref(), Some("v1"));
    assert!(!s.disk.has_versions(), "no store in compatible mode");
}

#[test]
fn installing_twice_in_compatible_mode_replaces_cleanly() {
    let mut s = Scratch::new();
    s.install(Mode::Compatible, "v1", true).unwrap();
    s.install(Mode::Compatible, "v2", true).unwrap();

    assert_eq!(s.version("bin").as_deref(), Some("v2"));
    assert!(s.disk.is_dir(&at("bin")));
    let leftovers = s.hidden();
    assert!(leftovers.is_empty(), "left behind {leftovers:?}");
}

#[test]
fn a_failed_install_leaves_the_existing_version_intact_and_active() {
    let mut s = Scratch::new();
    s.install(Mode::MultiVersion, "v1", true).unwrap();
    s.run(|store, plan| store.activate(plan, Mode::MultiVersion, "v1")).unwrap();

    let err = s.install(Mode::MultiVersion, "v2", false);
    assert!(err.is_err());

    assert!(s.launches("versions/v1"));
    assert_eq!(s.store.active(&s.disk, Mode::MultiVersion), Some("v1".into()));
    assert!(!s.found("versions/.staging-v2"));
    assert!(!s.found("versions/.download-v2"));
    assert!(!s.found("versions/v2"));
}

#[test]
fn progress_reports_downloading_then_extracting() {
    let mut s = Scratch::new();
    let reports = s.install(Mode::MultiVersion, "v1", true).unwrap();
    let statuses: Vec<Status> = reports.iter().map(|p| p.status).collect();
    assert_eq!(statuses.first(), Some(&Status::Downloading));
    assert_eq!(statuses.last(), Some(&Status::Extracting));
}

#[test]
fn a_hostile_tag_cannot_write_outside_the_store() {
    let mut s = Scratch::new();
    s.install(Mode::MultiVersion, "../escaped", true).unwrap();

    assert!(!s.found("escaped"));
    assert!(s.is_dir("versions/-.-escaped"));
}

#[test]
fn a_crash_between_the_two_renames_is_recovered_by_a_later_install() {
    let mut s = Scratch::new();
    s.install(Mode::Compatible, "v1", true).unwrap();

    s.file(".trashmark-v2", "v2");
    s.rename("bin", ".trash-v2");
    assert!(!s.found("bin"));

    s.install(Mode::Compatible, "v3", true).unwrap();

    assert!(s.launches("bin"));
    assert_eq!(s.version("bin").as_deref(), Some("v3"));
    assert!(
        !s.found(".trash-v2"),
        "the crash-orphaned build must not be left behind"
    );
    assert!(!s.found(".trashmark-v2"));
}

#[test]
fn startup_recovery_restores_a_crash_orphaned_build_with_no_install() {
    let mut s = Scratch::new();
    s.install(Mode::Compatible, "v1", true).unwrap();

    s.file(".trashmark-v2", "v2");
    s.rename("bin", ".trash-v2");
    assert!(
        s.store.installed(&s.disk, Mode::Compatible).is_empty(),
        "the app would say this"
    );

    let now = s.now;
    s.run(|_, plan| recover_debris(plan, Mode::Compatible, now));

    assert!(s.launches("bin"), "the build is back where it belongs");
    assert_eq!(s.version("bin").as_deref(), Some("v1"));
    assert!(!s.found(".trash-v2"));
    assert!(!s.found(".trashmark-v2"));
    assert_eq!(s.store.installed(&s.disk, Mode::Compatible).len(), 1);
}

#[test]
fn startup_recovery_restores_a_crash_orphaned_build_in_multi_version_mode() {
    let mut s = Scratch::new();
    s.install(Mode::MultiVersion, "v1", true).unwrap();

    s.file("versions/.trashmark-v1", "v1");
    s.rename("versions/v1", "versions/.trash-v1");
    assert!(s.store.installed(&s.disk, Mode::MultiVersion).is_empty());

    let now = s.now;
    s.run(|_, plan| recover_debris(plan, Mode::MultiVersion, now));

    assert!(s.launches("versions/v1"));
    assert!(!s.found("versions/.trash-v1"));
    assert!(!s.found("versions/.trashmark-v1"));
}

#[test]
fn stale_staging_debris_is_swept_and_work_in_progress_is_not() {
    let mut s = Scratch::new();
    s.dir("versions/.staging-v9", None, true);
    s.file("versions/.download-v9", "partial");
    s.dir("versions/v1", None, false);

    let now = s.now;
    s.run(|_, plan| sweep_stale_staging(plan, Mode::MultiVersion, now));
    assert!(
        s.is_dir("versions/.staging-v9"),
        "a live install must be left alone"
    );
    assert!(s.found("versions/.download-v9"));

    let later = s.now + STALE_DEBRIS_AGE + 60_000_000_000;
    s.run(|_, plan| sweep_stale_staging(plan, Mode::MultiVersion, later));

    assert!(!s.found("versions/.staging-v9"), "stale staging is debris");
    assert!(!s.found("versions/.download-v9"), "so is a partial download");
    assert!(s.is_dir("versions/v1"), "and a real build is never touched");
}

#[test]
fn the_staging_sweep_never_touches_trash_or_its_marker() {
    let mut s = Scratch::new();
    s.dir(".trash-v1", None, false);
    s.file(".trashmark-v1", "v2");
    s.dir(".staging-v2", None, false);

    let later = s.now + STALE_DEBRIS_AGE + 60_000_000_000;
    s.run(|_, plan| sweep_stale_staging(plan, Mode::Compatible, later));

    assert!(s.is_dir(".trash-v1"));
    assert!(s.found(".trashmark-v1"));
    assert!(!s.found(".staging-v2"));
}

#[test]
fn a_crash_between_the_two_renames_is_recovered_in_multi_version_mode_too() {
    let mut s = Scratch::new();
    s.install(Mode::MultiVersion, "v1", true).unwrap();

    s.file("versions/.trashmark-v1", "v1");
    s.rename("versions/v1", "versions/.trash-v1");

    s.install(Mode::MultiVersion, "v2", true).unwrap();

    assert!(s.launches("versions/v1"), "v1 was recovered from the crash");
    assert!(!s.found("versions/.trash-v1"));
    assert!(!s.found("versions/.trashmark-v1"));
}

#[test]
fn a_stale_trash_with_a_marker_is_cleaned_up_once_the_destination_resolves_again() {
    let mut s = Scratch::new();
    s.dir("bin", Some("v2"), true);
    s.dir(".trash-stale", None, false);
    s.file(".trashmark-stale", "v2");

    s.run(|_, plan| recover_stray_trash(plan, Mode::Compatible));

    assert!(
        !s.found(".trash-stale"),
        "trash confirmed superseded by the destination it created must not linger"
    );
    assert!(!s.found(".trashmark-stale"));
}

#[test]
fn a_marker_that_does_not_match_the_destinations_tag_is_never_treated_as_confirmed() {
    let mut s = Scratch::new();
    s.dir("bin", Some("v3"), true);
    s.dir(".trash-stale", None, false);
    s.file(".trashmark-stale", "v2");

    s.run(|_, plan| recover_stray_trash(plan, Mode::Compatible));

    assert!(s.found(".trash-stale"), "an unconfirmed trash must never be deleted");
    assert!(s.found(".trashmark-stale"));
}

#[test]
fn is_marker_file_rejects_a_directory_shaped_like_a_marker() {
    let mut s = Scratch::new();
    s.dir("bin", None, true);
    s.dir(".trash-genuine", None, false);
    s.dir(".trash-genuine.pending", None, false);

    s.run(|_, plan| recover_stray_trash(plan, Mode::Compatible));

    assert!(
        s.found(".trash-genuine"),
        "a marker-less trash must never be deleted, regardless of a same-shaped neighbor"
    );
    assert!(
        s.found(".trash-genuine.pending"),
        "the impersonating directory is not a marker and must be left alone too"
    );

    s.dir("bin", Some("v1"), true);
    s.dir(".trashmark-genuine", Some("v1"), false);
    s.run(|_, plan| recover_stray_trash(plan, Mode::Compatible));
    assert!(s.found(".trash-genuine") && s.found(".trashmark-genuine"));
}

#[test]
fn a_marker_less_trash_is_never_deleted_even_once_the_destination_resolves() {
    let mut s = Scratch::new();
    s.install(Mode::Compatible, "v1", true).unwrap();
    s.dir(".trash-foreign", None, false);
    s.install(Mode::Compatible, "v2", true).unwrap();

    assert!(
        s.found(".trash-foreign"),
        "a trash directory this code did not create must never be deleted"
    );
}

#[test]
fn a_dangling_destination_symlink_is_not_mistaken_for_a_superseding_build() {
    let mut s = Scratch::new();
    s.dir(".trash-v1", None, true);
    s.file(".trashmark-v1", "v1");
    s.put(
        "bin",
        Node::Link {
            target: "/nonexistent-target".into(),
            outside: Landing::Nothing,
            modified: None,
        },
    );
    assert!(s.disk.is_link(&at("bin")), "bin exists as a symlink");
    assert!(!s.found("bin"), "but it is dangling");

    s.run(|_, plan| recover_stray_trash(plan, Mode::Compatible));

    assert!(s.launches("bin"), "the orphaned build must be restored");
    assert!(!s.found(".trash-v1"));
    assert!(!s.found(".trashmark-v1"));
}

#[test]
fn two_orphaned_trash_directories_are_never_resolved_by_deleting_either() {
    let mut s = Scratch::new();
    // The destination does not resolve.
    s.dir(".trash-older", None, true);
    s.file(".trashmark-older", "older");
    s.dir(".trash-newer", None, true);
    s.file(".trashmark-newer", "newer");

    s.run(|_, plan| recover_stray_trash(plan, Mode::Compatible));

    assert!(s.launches("bin"));
    assert!(!s.found(".trash-newer"));
    assert!(
        s.found(".trash-older"),
        "an ambiguous second trash must never be deleted"
    );
    assert!(
        !s.found(".trashmark-older"),
        "its marker is stripped so a later sweep reads it as foreign debris, not as provably superseded"
    );

    s.run(|_, plan| recover_stray_trash(plan, Mode::Compatible));
    assert!(s.found(".trash-older"), "must still not be deleted on a later sweep");
}

#[test]
fn a_trash_directory_that_cannot_be_deleted_keeps_its_marker_for_retry() {
    let mut s = Scratch::new();
    s.dir("bin", Some("stuck"), true);
    s.dir(".trash-stuck", None, false);
    s.file(".trashmark-stuck", "stuck");

    let stuck = [Act::RemoveTree(at(".trash-stuck"))];
    s.run_broken(&stuck, |_, plan| recover_stray_trash(plan, Mode::Compatible));

    assert!(s.found(".trash-stuck"), "the undeletable trash is still there");
    assert!(
        s.found(".trashmark-stuck"),
        "its marker must survive so a later sweep retries the delete"
    );

    s.run(|_, plan| recover_stray_trash(plan, Mode::Compatible));
    assert!(!s.found(".trash-stuck") && !s.found(".trashmark-stuck"));
}

#[test]
fn colliding_sanitized_tags_do_not_overwrite_each_others_builds() {
    let mut s = Scratch::new();
    s.install(Mode::MultiVersion, "develop/2024-01-01", true).unwrap();
    s.install(Mode::MultiVersion, "develop-2024-01-01", true).unwrap();

    let installed = s.store.installed(&s.disk, Mode::MultiVersion);
    assert_eq!(
        installed.len(),
        2,
        "both tags must survive as separate installs"
    );
    let mut tags: Vec<_> = installed.iter().map(|i| i.tag.clone()).collect();
    tags.sort();
    assert_eq!(tags, ["develop-2024-01-01", "develop/2024-01-01"]);
}

#[test]
fn reinstalling_the_same_tag_still_overwrites_in_place() {
    let mut s = Scratch::new();
    s.install(Mode::MultiVersion, "v1", true).unwrap();
    s.install(Mode::MultiVersion, "v1", true).unwrap();

    let installed = s.store.installed(&s.disk, Mode::MultiVersion);
    assert_eq!(
        installed.len(),
        1,
        "reinstalling the same tag must not create a second directory"
    );
    assert_eq!(installed[0].name, "v1");
}

#[test]
fn trash_that_was_itself_put_aside_takes_two_recoveries_to_put_back() {
    let mut s = Scratch::new();
    s.file("versions/v1", "in the way");
    s.dir("versions/.trash-.trash-v1", Some("v1"), true);

    s.install(Mode::MultiVersion, "v1", true).unwrap();
    assert_eq!(s.version("versions/v1-2").as_deref(), Some("v1"));
    assert_eq!(s.version("versions/.trash-v1").as_deref(), Some("v1"));
    assert!(!s.is_dir("versions/v1"));

    // The second recovery puts the build back that the first one could not.
    s.install(Mode::MultiVersion, "v1", true).unwrap();
    assert_eq!(s.version("versions/v1").as_deref(), Some("v1"));
    assert_eq!(s.version("versions/v1-2").as_deref(), Some("v1"));
    assert_eq!(s.store.installed(&s.disk, Mode::MultiVersion).len(), 2);
}

#[test]
fn an_empty_place_gets_the_newest_trash_whoever_put_it_aside() {
    let build = |tag: &str| Build { version: Some(tag.into()), launches: true, bytes: 1 };
    let dir = |tag: &str, at: u64| Node::Dir { build: build(tag), modified: Some(at) };
    for (place, newest) in [(".trash-a", "a"), (".trash-b", "b"), (".trash-c", "c")] {
        let mut s = Scratch::new();
        for tag in ["a", "b", "c"] {
            let path = format!(".trash-{tag}");
            s.put(&path, dir(tag, if path == place { 9 } else { 5 }));
        }
        s.put("bin", Node::File { contents: None, modified: None });
        s.run(|_, plan| recover_stray_trash(plan, Mode::Compatible));
        assert_eq!(s.version("bin").as_deref(), Some(newest));
        assert!(!s.found(place));
    }
}

#[test]
fn a_plain_file_at_a_trash_name_is_never_elected_or_restored() {
    let mut s = Scratch::new();
    s.file(".trash-junk", "not a build");

    s.run(|_, plan| recover_stray_trash(plan, Mode::Compatible));

    assert!(
        !s.found("bin"),
        "a plain file must never be elected and restored onto the destination"
    );
    assert!(s.found(".trash-junk"), "the foreign file itself is left untouched");
}

#[test]
fn install_refuses_to_overwrite_a_trash_name_it_does_not_recognize() {
    let mut s = Scratch::new();
    s.install(Mode::MultiVersion, "v1", true).unwrap();
    s.dir("versions/.trash-v1", Some("unrelated"), false);

    let mut progress = Vec::new();
    let err = s.install_reporting(Mode::MultiVersion, "v1", true, &mut progress);
    match err {
        Err(CoreError::Io(message)) => assert_eq!(
            message,
            "/support/OpenRCT2/versions/.trash-v1 already exists and is not this install's to replace"
        ),
        other => panic!("must fail rather than guess what to do with foreign debris: {other:?}"),
    }

    assert_eq!(
        s.version("versions/.trash-v1").as_deref(),
        Some("unrelated"),
        "the foreign debris must survive untouched"
    );
    assert!(s.launches("versions/v1"));
    assert_eq!(progress.len(), 0, "must fail before downloading anything");
}

#[test]
fn a_crash_is_recovered_from_whatever_else_lies_there() {
    for crash in 0..=5 {
        let mut s = Scratch::new();
        s.install(Mode::MultiVersion, "v1", true).unwrap();
        // Trash of another version, and trash of that trash.
        s.dir("versions/.trash-v0", Some("v0"), true);
        s.file("versions/.trashmark-gone", "gone");
        s.dir("versions/.trash-.trash-v1", Some("odd"), false);
        let build = Build { version: Some("v1".into()), launches: false, bytes: 7 };
        s.put("versions/.staging-v1", Node::Dir { build, modified: None });

        let work = Install { mode: Mode::MultiVersion, tag: "v1".into(), name: "v1".into() };
        let mut plan = Plan::new(copy(&s.disk, true));
        work.make_way(&s.store, &mut plan).unwrap();
        work.put_in_place(&mut plan);
        work.commit(&mut plan, true);
        let (disk, fine) = take_all(&s.disk, &plan.taken_steps()[..crash], &[]);
        assert!(fine);
        s.disk = disk;

        s.run(|_, plan| recover_stray_trash(plan, Mode::MultiVersion));
        assert_eq!(s.version("versions/v1").as_deref(), Some("v1"));
        assert_eq!(s.launches("versions/v1"), crash <= 2, "cut short after {crash} steps");
        assert_eq!(s.version("versions/v0").as_deref(), Some("v0"));
        assert!(!s.found("versions/.trashmark-gone"));
    }
}

#[test]
fn launching_a_missing_executable_is_an_error_not_a_panic() {
    let err = launch(GameId::OpenRCT2, "/root/nowhere", false).unwrap_err();
    assert!(matches!(err, CoreError::LaunchFailed(_)));
    assert_eq!(
        err.message(),
        "/root/nowhere/OpenRCT2.app/Contents/MacOS/OpenRCT2 is not installed here"
    );
}

#[test]
fn launching_a_working_executable_succeeds() {
    assert_eq!(
        launch(GameId::OpenRCT2, "/root/v1", true).unwrap(),
        "/root/v1/OpenRCT2.app/Contents/MacOS/OpenRCT2"
    );
    launched(Started::Runs).unwrap();
    let done = Started::Ended { success: true, status: "0".into(), stderr: "noise".into() };
    launched(done).unwrap();
}

#[test]
fn launching_something_that_exits_immediately_reports_its_stderr() {
    let gave_up = Started::Ended {
        success: false,
        status: "exit status: 3".into(),
        stderr: "missing data files\n".into(),
    };
    match launched(gave_up).unwrap_err() {
        CoreError::LaunchFailed(msg) => assert!(msg.contains("missing data files"), "{msg}"),
        other => panic!("expected LaunchFailed, got {other:?}"),
    }
    let silent = Started::Ended {
        success: false,
        status: "exit status: 3".into(),
        stderr: " \n".into(),
    };
    assert_eq!(
        launched(silent).unwrap_err().message(),
        "the game exited immediately with exit status: 3"
    );
    assert_eq!(
        launched(Started::Not("permission denied".into())).unwrap_err().message(),
        "permission denied"
    );
}

#[test]
fn a_tag_that_cannot_name_a_directory_is_refused_before_anything_is_done() {
    let mut s = Scratch::new();
    for (tag, error) in [("", TagError::Empty), ("..", TagError::Reserved)] {
        match s.install(Mode::MultiVersion, tag, true) {
            Err(CoreError::Tag(e)) => assert_eq!(e, error),
            other => panic!("got {other:?}"),
        }
    }
    assert!(s.disk.entries().is_empty());
}

#[test]
fn a_swap_cut_short_at_any_step_is_recovered() {
    // How many of the swap's steps are taken before everything stops.
    for cut in 0..8 {
        let mut s = Scratch::new();
        s.install(Mode::MultiVersion, "v1", true).unwrap();
        s.run(|_, plan| recover_stray_trash(plan, Mode::MultiVersion));
        let work = s.run(|store, plan| install(store, plan, Mode::MultiVersion, "v1")).unwrap();
        let build = Build { version: Some("v1".into()), launches: true, bytes: 999 };
        s.put_at(&work.staging(), Node::Dir { build, modified: None });

        let mut plan = Plan::new(copy(&s.disk, true));
        let had_previous = work.make_way(&s.store, &mut plan).unwrap();
        work.put_in_place(&mut plan);
        work.commit(&mut plan, had_previous);
        let steps = plan.taken_steps();
        let taken = cut.min(steps.len());
        let (disk, _) = take_all(&s.disk, &steps[..taken], &[]);
        s.disk = disk;

        let later = s.now + STALE_DEBRIS_AGE + 60_000_000_000;
        s.run(|_, plan| recover_debris(plan, Mode::MultiVersion, later));
        assert!(s.launches("versions/v1"), "after {taken} steps: {:?}", s.disk);
        assert!(!s.found("versions/.trash-v1"), "after {taken} steps: {:?}", s.disk);
        assert!(!s.found("versions/.trashmark-v1"), "after {taken} steps: {:?}", s.disk);
    }
}

#[test]
fn a_build_that_cannot_be_put_in_place_gives_way_to_the_old_one() {
    let mut s = Scratch::new();
    s.install(Mode::MultiVersion, "v1", true).unwrap();
    let work = s.run(|store, plan| install(store, plan, Mode::MultiVersion, "v1")).unwrap();
    let build = Build { version: Some("v1".into()), launches: true, bytes: 999 };
    s.put_at(&work.staging(), Node::Dir { build, modified: None });
    let had_previous = s.run(|store, plan| work.make_way(store, plan)).unwrap();
    assert!(had_previous);
    let broken = [Act::Rename { from: work.staging(), to: work.destination() }];
    s.run_broken(&broken, |_, plan| work.put_in_place(plan));
    assert!(!s.found("versions/v1"));
    s.run(|_, plan| work.roll_back(plan, had_previous));
    s.run(|_, plan| work.tidy(plan, true));
    assert!(s.launches("versions/v1"));
    assert!(s.hidden().is_empty(), "{:?}", s.hidden());
    match s.disk.landing(&at("versions/v1")) {
        Landing::Dir(build) => assert_eq!(build.bytes, 100, "the old one"),
        other => panic!("got {other:?}"),
    }
}
