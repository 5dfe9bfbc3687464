//! Builds that are installed: what is listed, switched to, removed and repaired.

use turnstile::dirs::Dirs;
use turnstile::disk::{place, Act, Build, Disk, Folder, Landing, Node, OnError, Place, Plan};
use turnstile::error::StoreError;
use turnstile::game::GameId;
use turnstile::size::{Found, SizeWalk};
use turnstile::store::{is_hidden, nth_candidate, Mode, VersionStore, UNKNOWN_TAG};

/// The game's directory, held in memory.
struct Scratch {
    store: VersionStore,
    disk: Disk,
    /// When the next thing is changed.
    now: u64,
}

fn at(path: &str) -> Place {
    match path.strip_prefix("versions/") {
        Some(name) => place(Folder::Versions, name),
        None => place(Folder::Game, path),
    }
}

fn copy(disk: &Disk, has_versions: bool) -> Disk {
    let mut out = Disk::new("/support/OpenRCT2/versions", has_versions);
    for entry in disk.entries() {
        out.put(entry.place.clone(), entry.node.clone());
    }
    out
}

impl Scratch {
    fn new() -> Scratch {
        Scratch {
            store: VersionStore::new(Dirs::at("/support"), GameId::OpenRCT2),
            disk: Disk::new("/support/OpenRCT2/versions", false),
            now: 1,
        }
    }

    fn put(&mut self, path: &str, node: Node) {
        let has_versions = self.disk.has_versions() || path.starts_with("versions/");
        self.disk = copy(&self.disk, has_versions);
        self.disk.put(at(path), node);
        self.now += 1;
    }

    /// A launchable installation.
    fn make_install(&mut self, path: &str, tag: Option<&str>) {
        let build = Build { version: tag.map(|t| t.to_string()), launches: true, bytes: 100 };
        let modified = Some(self.now);
        self.put(path, Node::Dir { build, modified });
    }

    fn link(&mut self, path: &str, target: &str) {
        self.put(
            path,
            Node::Link {
                target: target.to_string(),
                outside: Landing::Nothing,
                modified: None,
            },
        );
    }

    /// Lets the store work out what to do, and does it.
    fn run<T>(&mut self, work: impl FnOnce(&VersionStore, &mut Plan) -> T) -> T {
        let mut plan = Plan::new(copy(&self.disk, self.disk.has_versions()));
        let result = work(&self.store, &mut plan);
        assert!(!plan.failed(), "a step would fail: {:?}", plan.taken_steps());
        self.disk = copy(plan.disk(), plan.disk().has_versions());
        result
    }

    fn activate(&mut self, mode: Mode, name: &str) -> Result<(), StoreError> {
        self.run(|store, plan| store.activate(plan, mode, name))
    }

    fn remove(&mut self, mode: Mode, name: &str) -> Result<(), StoreError> {
        self.run(|store, plan| store.remove(plan, mode, name))
    }

    fn reconcile(&mut self, mode: Mode) -> Result<(), StoreError> {
        self.run(|store, plan| store.reconcile(plan, mode))
    }

    fn active(&self, mode: Mode) -> Option<String> {
        self.store.active(&self.disk, mode)
    }

    fn tags(&self, mode: Mode) -> Vec<String> {
        self.store.installed(&self.disk, mode).into_iter().map(|i| i.tag).collect()
    }

    fn found(&self, path: &str) -> bool {
        self.disk.leads_somewhere(&at(path))
    }

    /// Whether an entry is there at all, even a link that leads nowhere.
    fn taken(&self, path: &str) -> bool {
        self.disk.taken(&at(path))
    }

    /// Whether an entry is a directory, or leads to one.
    fn is_dir(&self, path: &str) -> bool {
        self.disk.resolves(&at(path))
    }

    /// Whether an entry is a directory itself.
    fn is_real_dir(&self, path: &str) -> bool {
        self.disk.is_dir(&at(path))
    }

    /// What an entry's `.version` file says, and whether the game is there.
    fn build(&self, path: &str) -> Build {
        match self.disk.landing(&at(path)) {
            Landing::Dir(build) => build,
            other => panic!("{path} is {other:?}"),
        }
    }

    fn read_link(&self, path: &str) -> String {
        match self.disk.node(&at(path)) {
            Some(Node::Link { target, .. }) => target.clone(),
            other => panic!("{path} is {other:?}"),
        }
    }
}

#[test]
fn an_empty_tree_has_nothing_installed() {
    let s = Scratch::new();
    assert!(s.tags(Mode::Compatible).is_empty());
    assert_eq!(s.active(Mode::Compatible), None);
}

#[test]
fn a_real_bin_directory_is_the_single_installed_version() {
    let mut s = Scratch::new();
    s.make_install("bin", Some("v0.5.5"));

    let installed = s.store.installed(&s.disk, Mode::Compatible);
    assert_eq!(installed.len(), 1);
    assert_eq!(installed[0].tag, "v0.5.5");
    assert_eq!(installed[0].dir, "/support/OpenRCT2/bin");
    assert!(installed[0].can_launch);
    assert_eq!(s.active(Mode::Compatible), Some("v0.5.5".into()));
}

#[test]
fn a_bin_directory_without_a_version_file_reports_the_unknown_tag() {
    let mut s = Scratch::new();
    s.make_install("bin", None);
    let installed = s.store.installed(&s.disk, Mode::Compatible);
    assert_eq!(installed[0].tag, UNKNOWN_TAG);
    assert!(installed[0].can_launch);
}

#[test]
fn a_bin_directory_without_an_executable_is_listed_but_not_launchable() {
    let mut s = Scratch::new();
    let build = Build { version: Some("v0.5.5".into()), launches: false, bytes: 6 };
    s.put("bin", Node::Dir { build, modified: None });
    let installed = s.store.installed(&s.disk, Mode::Compatible);
    assert_eq!(installed.len(), 1);
    assert!(!installed[0].can_launch);
}

#[test]
fn compatible_mode_ignores_a_versions_directory_entirely() {
    let mut s = Scratch::new();
    s.make_install("bin", Some("v1"));
    s.make_install("versions/v2", Some("v2"));
    let installed = s.store.installed(&s.disk, Mode::Compatible);
    assert_eq!(installed.len(), 1);
    assert_eq!(installed[0].tag, "v1");
}

#[test]
fn switching_operations_are_rejected_in_compatible_mode() {
    let mut s = Scratch::new();
    assert!(matches!(
        s.activate(Mode::Compatible, "v1"),
        Err(StoreError::RequiresMultiVersion)
    ));
    assert!(matches!(
        s.remove(Mode::Compatible, "v1"),
        Err(StoreError::RequiresMultiVersion)
    ));
}

#[test]
fn versions_in_the_store_are_listed_newest_first() {
    let mut s = Scratch::new();
    s.make_install("versions/v0.4.28", Some("v0.4.28"));
    s.make_install("versions/v0.4.29", Some("v0.4.29"));

    let installed = s.store.installed(&s.disk, Mode::MultiVersion);
    assert_eq!(installed.len(), 2);
    assert_eq!(installed[0].tag, "v0.4.29", "newest first");
    assert_eq!(installed[1].tag, "v0.4.28");
    assert_eq!(installed[1].dir, "/support/OpenRCT2/versions/v0.4.28");
}

#[test]
fn dot_prefixed_directories_are_not_versions() {
    let mut s = Scratch::new();
    s.make_install("versions/v1", Some("v1"));
    s.make_install("versions/.staging-v2", Some("v2"));
    s.make_install("versions/.trash-v3", Some("v3"));
    assert_eq!(s.tags(Mode::MultiVersion), ["v1"]);
    assert!(is_hidden(".staging-v2") && !is_hidden("v1"));
}

#[test]
fn a_directory_name_is_the_fallback_tag_when_version_is_missing() {
    let mut s = Scratch::new();
    s.make_install("versions/v9.9.9", None);
    let installed = s.store.installed(&s.disk, Mode::MultiVersion);
    assert_eq!(installed[0].tag, "v9.9.9", "falls back to the directory name");
}

#[test]
fn activate_points_bin_at_the_requested_version() {
    let mut s = Scratch::new();
    s.make_install("versions/v1", Some("v1"));
    s.make_install("versions/v2", Some("v2"));

    s.activate(Mode::MultiVersion, "v1").unwrap();
    assert_eq!(s.active(Mode::MultiVersion), Some("v1".into()));
    s.activate(Mode::MultiVersion, "v2").unwrap();
    assert_eq!(s.active(Mode::MultiVersion), Some("v2".into()));
}

#[test]
fn the_bin_symlink_is_relative_so_the_tree_can_be_moved() {
    let mut s = Scratch::new();
    s.make_install("versions/v1", Some("v1"));
    s.activate(Mode::MultiVersion, "v1").unwrap();
    assert_eq!(s.read_link("bin"), "versions/v1");
}

#[test]
fn activating_over_an_existing_link_leaves_no_intermediate_state() {
    let mut s = Scratch::new();
    s.make_install("versions/v1", Some("v1"));
    s.make_install("versions/v2", Some("v2"));
    s.activate(Mode::MultiVersion, "v1").unwrap();
    s.activate(Mode::MultiVersion, "v2").unwrap();

    // No temporary link is left behind.
    assert!(!s.found(".bin.tmp"));
    assert!(s.build("bin").launches);
}

#[test]
fn the_executable_resolves_through_the_symlink() {
    let mut s = Scratch::new();
    s.make_install("versions/v1", Some("v1"));
    s.activate(Mode::MultiVersion, "v1").unwrap();
    assert!(
        s.build("bin").launches,
        "executable did not resolve through the symlink"
    );
}

#[test]
fn removing_the_active_version_is_refused() {
    let mut s = Scratch::new();
    s.make_install("versions/v1", Some("v1"));
    s.activate(Mode::MultiVersion, "v1").unwrap();
    assert!(matches!(
        s.remove(Mode::MultiVersion, "v1"),
        Err(StoreError::RemoveActive)
    ));
    assert!(s.found("versions/v1"), "nothing was deleted");
}

#[test]
fn removing_an_inactive_version_deletes_only_that_directory() {
    let mut s = Scratch::new();
    s.make_install("versions/v1", Some("v1"));
    s.make_install("versions/v2", Some("v2"));
    s.activate(Mode::MultiVersion, "v1").unwrap();

    s.remove(Mode::MultiVersion, "v2").unwrap();
    assert!(!s.found("versions/v2"));
    assert!(s.found("versions/v1"));
    assert_eq!(s.active(Mode::MultiVersion), Some("v1".into()));
}

#[test]
fn active_is_none_when_bin_is_absent() {
    let mut s = Scratch::new();
    s.make_install("versions/v1", Some("v1"));
    assert_eq!(s.active(Mode::MultiVersion), None);
}

#[test]
fn reconcile_adopts_a_real_bin_directory_into_the_store() {
    let mut s = Scratch::new();
    s.make_install("bin", Some("v0.5.5"));

    s.reconcile(Mode::MultiVersion).unwrap();

    assert!(s.is_dir("versions/v0.5.5"));
    assert_eq!(s.active(Mode::MultiVersion), Some("v0.5.5".into()));
    assert!(s.build("bin").launches);
}

#[test]
fn adoption_uses_the_unknown_tag_when_no_version_file_exists() {
    let mut s = Scratch::new();
    s.make_install("bin", None);

    s.reconcile(Mode::MultiVersion).unwrap();

    assert!(s.is_dir("versions/unknown"));
    assert_eq!(s.active(Mode::MultiVersion), Some("unknown".into()));
}

#[test]
fn adoption_never_overwrites_an_existing_version_directory() {
    let mut s = Scratch::new();
    let original = Build { version: Some("v1".into()), launches: true, bytes: 12345 };
    s.put("versions/v1", Node::Dir { build: original.clone(), modified: Some(1) });
    s.make_install("bin", Some("v1"));

    s.reconcile(Mode::MultiVersion).unwrap();

    // The original is untouched and the adopted one landed beside it.
    assert_eq!(s.build("versions/v1"), original);
    assert!(s.is_dir("versions/v1-2"));
    assert_eq!(s.active(Mode::MultiVersion), Some("v1-2".into()));
}

#[test]
fn reconcile_links_bin_to_the_newest_version_when_bin_is_missing() {
    let mut s = Scratch::new();
    s.make_install("versions/v1", Some("v1"));
    s.make_install("versions/v2", Some("v2"));

    s.reconcile(Mode::MultiVersion).unwrap();
    assert_eq!(s.active(Mode::MultiVersion), Some("v2".into()));
}

#[test]
fn reconcile_does_nothing_when_bin_is_missing_and_the_store_is_empty() {
    let mut s = Scratch::new();
    s.reconcile(Mode::MultiVersion).unwrap();
    assert_eq!(s.active(Mode::MultiVersion), None);
    assert!(!s.found("bin"));
}

#[test]
fn reconcile_repairs_a_dangling_symlink() {
    let mut s = Scratch::new();
    s.make_install("versions/v1", Some("v1"));
    s.link("bin", "versions/gone");

    s.reconcile(Mode::MultiVersion).unwrap();
    assert_eq!(s.active(Mode::MultiVersion), Some("v1".into()));
}

#[test]
fn reconcile_removes_a_dangling_symlink_when_the_store_is_empty() {
    let mut s = Scratch::new();
    s.link("bin", "versions/gone");

    s.reconcile(Mode::MultiVersion).unwrap();
    assert!(!s.taken("bin"), "link should be gone");
}

#[test]
fn reconcile_leaves_a_healthy_symlink_alone() {
    let mut s = Scratch::new();
    s.make_install("versions/v1", Some("v1"));
    s.make_install("versions/v2", Some("v2"));
    s.activate(Mode::MultiVersion, "v1").unwrap();

    s.reconcile(Mode::MultiVersion).unwrap();
    assert_eq!(s.active(Mode::MultiVersion), Some("v1".into()));
}

#[test]
fn enabling_then_disabling_round_trips_and_keeps_everything() {
    let mut s = Scratch::new();
    s.make_install("bin", Some("v1"));

    s.run(|store, plan| store.enable_multi_version(plan)).unwrap();
    s.make_install("versions/v2", Some("v2"));
    s.activate(Mode::MultiVersion, "v2").unwrap();

    let report = s.run(|store, plan| store.disable_multi_version(plan)).unwrap();

    assert_eq!(report.kept.as_deref(), Some("v2"));
    assert_eq!(report.retained.len(), 1);
    assert_eq!(report.retained[0].tag, "v1");
    assert!(report.retained_bytes > 0);

    // bin is a real directory again, holding what was active.
    assert!(s.is_real_dir("bin"));
    assert_eq!(s.build("bin").version.as_deref(), Some("v2"));
    assert_eq!(s.active(Mode::Compatible), Some("v2".into()));

    // Nothing was deleted.
    assert!(s.is_dir("versions/v1"));

    // Re-enabling brings both back.
    s.run(|store, plan| store.enable_multi_version(plan)).unwrap();
    let tags = s.tags(Mode::MultiVersion);
    assert!(tags.contains(&"v1".to_string()));
    assert!(tags.contains(&"v2".to_string()));
}

#[test]
fn enabling_with_nothing_installed_is_a_no_op() {
    let mut s = Scratch::new();
    s.run(|store, plan| store.enable_multi_version(plan)).unwrap();
    assert!(s.tags(Mode::MultiVersion).is_empty());
}

#[test]
fn compatible_reconcile_finishes_an_interrupted_collapse_from_a_symlink() {
    let mut s = Scratch::new();
    s.make_install("versions/v1", Some("v1"));
    s.activate(Mode::MultiVersion, "v1").unwrap();

    s.reconcile(Mode::Compatible).unwrap();

    assert!(s.is_real_dir("bin"));
    assert_eq!(s.build("bin").version.as_deref(), Some("v1"));
}

#[test]
fn compatible_reconcile_rescues_a_stray_incoming_directory() {
    let mut s = Scratch::new();
    s.make_install(".bin.incoming", Some("v1"));

    s.reconcile(Mode::Compatible).unwrap();

    assert!(s.is_dir("bin"));
    assert!(!s.found(".bin.incoming"));
    assert_eq!(s.active(Mode::Compatible), Some("v1".into()));
}

#[test]
fn compatible_mode_never_creates_a_symlink() {
    let mut s = Scratch::new();
    s.make_install("bin", Some("v1"));
    s.reconcile(Mode::Compatible).unwrap();

    assert!(s.is_real_dir("bin"));
    assert!(!s.disk.has_versions());
}

#[test]
fn remove_and_the_active_guard_key_on_directory_name_not_display_tag() {
    let mut s = Scratch::new();
    // Two directories, one shared `.version` tag.
    s.make_install("versions/v1", Some("v1"));
    s.make_install("bin", Some("v1"));
    s.reconcile(Mode::MultiVersion).unwrap();

    let installed = s.store.installed(&s.disk, Mode::MultiVersion);
    assert_eq!(installed.len(), 2);
    assert!(
        installed.iter().all(|i| i.tag == "v1"),
        "both rows share a display tag"
    );
    let mut names: Vec<_> = installed.iter().map(|i| i.name.clone()).collect();
    names.sort();
    assert_eq!(names, ["v1", "v1-2"], "but `name` distinguishes them");

    assert_eq!(s.active(Mode::MultiVersion), Some("v1-2".into()));

    // Keyed on name, the active guard refuses the row that is really active...
    assert!(matches!(
        s.remove(Mode::MultiVersion, "v1-2"),
        Err(StoreError::RemoveActive)
    ));
    // ...and removing the other row by its real name deletes only that one, leaving the
    // active copy untouched.
    s.remove(Mode::MultiVersion, "v1").unwrap();
    assert!(!s.found("versions/v1"));
    assert!(s.is_dir("versions/v1-2"), "the active copy survives");
}

#[test]
fn activate_rejects_a_name_that_is_not_a_single_path_component() {
    let mut s = Scratch::new();
    s.make_install("versions/v1", Some("v1"));

    for name in ["..", "../evil", "", ".", "v1/", "/v1"] {
        assert!(
            matches!(s.activate(Mode::MultiVersion, name), Err(StoreError::Tag(_))),
            "{name}"
        );
    }
    // Nothing was linked by any of the rejected calls.
    assert!(!s.taken("bin"));
}

#[test]
fn activate_refuses_a_name_with_no_directory_rather_than_dangling_bin() {
    let mut s = Scratch::new();
    s.make_install("versions/v1", Some("v1"));
    s.activate(Mode::MultiVersion, "v1").unwrap();

    assert!(matches!(
        s.activate(Mode::MultiVersion, "v2"),
        Err(StoreError::NoSuchVersion(_))
    ));
    // The refusal left the previously working link alone rather than replacing it with a
    // dangling one: a failed switch must not cost the user the build they already had.
    assert_eq!(s.read_link("bin"), "versions/v1");
}

#[test]
fn remove_rejects_a_traversal_string_smuggled_through_a_version_file() {
    let mut s = Scratch::new();
    s.make_install("versions/v1", Some("v1"));
    // A hostile or corrupted `.version` file must not double as a path: `tag` is
    // display-only precisely because of input like this.
    s.make_install("versions/evil", Some("../../etc"));

    let installed = s.store.installed(&s.disk, Mode::MultiVersion);
    let evil = installed.iter().find(|i| i.name == "evil").unwrap();
    assert_eq!(evil.tag, "../../etc");

    assert!(matches!(
        s.remove(Mode::MultiVersion, &evil.tag),
        Err(StoreError::Tag(_))
    ));
    // Nothing was deleted: not `versions/v1`, and not `evil` itself.
    assert!(s.is_dir("versions/v1"));
    assert!(s.is_dir("versions/evil"));
}

#[test]
fn disabling_over_a_stray_incoming_directory_is_refused() {
    let mut s = Scratch::new();
    s.make_install("versions/v1", Some("v1"));
    s.activate(Mode::MultiVersion, "v1").unwrap();
    s.make_install(".bin.incoming", Some("v0"));

    let error = s.run(|store, plan| store.disable_multi_version(plan)).unwrap_err();
    assert_eq!(
        error.message(),
        "/support/OpenRCT2/.bin.incoming exists from an interrupted operation; run reconcile first"
    );
    assert!(s.is_dir(".bin.incoming"), "nothing was deleted");
    assert!(s.is_dir("versions/v1"), "nothing was moved");
}

#[test]
fn disabling_over_a_stray_incoming_directory_is_refused_even_with_no_active_link() {
    let mut s = Scratch::new();
    // bin is absent, which is exactly what a dangling link left behind by a crash also
    // looks like.
    s.make_install(".bin.incoming", Some("v1"));

    assert!(s.run(|store, plan| store.disable_multi_version(plan)).is_err());
    assert!(s.is_dir(".bin.incoming"), "nothing was deleted");
}

#[test]
fn disabling_with_nothing_linked_still_measures_the_builds_it_retains() {
    let mut s = Scratch::new();
    let large = Build { version: Some("v1".into()), launches: true, bytes: 4096 };
    s.put("versions/v1", Node::Dir { build: large, modified: Some(1) });
    s.make_install("versions/v2", Some("v2"));
    assert!(!s.taken("bin"));

    let report = s.run(|store, plan| store.disable_multi_version(plan)).unwrap();

    assert_eq!(report.kept, None, "nothing was linked, so nothing became bin");
    assert_eq!(report.retained.len(), 2);
    assert!(
        report.retained_bytes >= 4096,
        "the retained builds are on disk and must be measured: {}",
        report.retained_bytes
    );
    assert_eq!(report.retained_bytes, 4196);
    assert!(s.is_dir("versions/v1"), "and nothing was deleted");
    assert!(s.is_dir("versions/v2"));
}

#[test]
fn removing_a_name_with_no_directory_reports_rather_than_silently_succeeding() {
    let mut s = Scratch::new();
    s.make_install("versions/v1", Some("v1"));
    s.activate(Mode::MultiVersion, "v1").unwrap();

    assert!(matches!(
        s.remove(Mode::MultiVersion, "v\u{fffd}2"),
        Err(StoreError::NoSuchVersion(_))
    ));
    assert!(s.is_dir("versions/v1"), "and nothing else was touched");
}

#[test]
fn compatible_reconcile_repairs_a_dangling_symlink() {
    let mut s = Scratch::new();
    s.link("bin", "versions/gone");

    s.reconcile(Mode::Compatible).unwrap();

    assert!(!s.taken("bin"), "dangling link should be gone");
}

#[test]
fn reconcile_multi_adopts_a_stray_incoming_directory() {
    let mut s = Scratch::new();
    s.make_install("versions/v1", Some("v1"));
    s.make_install(".bin.incoming", Some("v2"));

    s.reconcile(Mode::MultiVersion).unwrap();

    assert!(s.is_dir("versions/v2"));
    assert!(!s.found(".bin.incoming"));
    let tags = s.tags(Mode::MultiVersion);
    assert!(tags.contains(&"v1".to_string()));
    assert!(tags.contains(&"v2".to_string()));
}

#[test]
fn dir_size_does_not_follow_symlinks() {
    let mut walk = SizeWalk::begin("/payload");
    let mut looked_into = Vec::new();
    while let Some(dir) = walk.next_dir() {
        looked_into.push(dir.clone());
        assert_eq!(dir, "/payload", "a link was followed");
        // An upward-pointing link: following it would never end.
        walk.saw(&vec![Found::File { bytes: 100 }, Found::Link]);
    }
    assert_eq!(looked_into, ["/payload"]);
    assert_eq!(walk.total(), 100);
}

#[test]
fn every_directory_is_counted_once() {
    let mut walk = SizeWalk::begin("/a");
    let mut looked_into = Vec::new();
    while let Some(dir) = walk.next_dir() {
        let found = match dir.as_str() {
            "/a" => vec![
                Found::Dir("/a/b".into()),
                Found::File { bytes: 1 },
                Found::Dir("/a/c".into()),
                Found::Unknown,
            ],
            "/a/b" => vec![Found::File { bytes: 20 }, Found::File { bytes: 300 }],
            // A directory that cannot be read holds nothing.
            _ => vec![],
        };
        walk.saw(&found);
        looked_into.push(dir);
    }
    assert_eq!(looked_into, ["/a", "/a/c", "/a/b"]);
    assert_eq!(walk.total(), 321);
}

#[test]
fn a_size_beyond_counting_stays_at_the_largest_number() {
    let mut walk = SizeWalk::begin("/a");
    assert_eq!(walk.next_dir().as_deref(), Some("/a"));
    walk.saw(&vec![Found::File { bytes: u64::MAX }, Found::File { bytes: 5 }]);
    assert_eq!(walk.total(), u64::MAX);
    assert_eq!(walk.next_dir(), None);
}

#[test]
fn a_switch_is_four_steps_and_the_last_one_is_a_rename() {
    let mut s = Scratch::new();
    s.make_install("versions/v1", Some("v1"));
    let mut plan = Plan::new(copy(&s.disk, true));
    s.store.activate(&mut plan, Mode::MultiVersion, "v1").unwrap();
    let steps = plan.taken_steps();
    assert_eq!(steps.len(), 4);
    assert_eq!(steps[0].act, Act::MakeFolder(Folder::Game));
    assert_eq!(steps[1].act, Act::RemoveFile(at(".bin.tmp")));
    assert_eq!(steps[1].on_error, OnError::Ignore);
    assert_eq!(
        steps[2].act,
        Act::Symlink { at: at(".bin.tmp"), target: "versions/v1".into() }
    );
    assert_eq!(steps[3].act, Act::Rename { from: at(".bin.tmp"), to: at("bin") });
    assert_eq!(steps[3].on_error, OnError::Fail);
}

#[test]
fn a_plan_stops_at_a_step_that_cannot_work() {
    let mut s = Scratch::new();
    s.make_install("bin", Some("v0"));
    s.make_install("versions/v1", Some("v1"));
    let mut plan = Plan::new(copy(&s.disk, true));
    s.store.activate(&mut plan, Mode::MultiVersion, "v1").unwrap();
    assert!(plan.failed(), "a link cannot be renamed over a directory");
    assert!(plan.disk().is_dir(&at("bin")));
}

#[test]
fn repairing_twice_changes_nothing_more() {
    let mut s = Scratch::new();
    s.make_install("versions/v1", Some("v1"));
    s.make_install(".bin.incoming", Some("v2"));
    s.make_install("bin", Some("v3"));
    s.reconcile(Mode::MultiVersion).unwrap();
    let mut plan = Plan::new(copy(&s.disk, true));
    s.store.reconcile(&mut plan, Mode::MultiVersion).unwrap();
    assert!(plan.taken_steps().is_empty(), "{:?}", plan.taken_steps());
    let mut tags = s.tags(Mode::MultiVersion);
    tags.sort();
    assert_eq!(tags, ["v1", "v2", "v3"]);
}

#[test]
fn names_are_tried_in_turn() {
    assert_eq!(nth_candidate("v1", 1), "v1");
    assert_eq!(nth_candidate("v1", 2), "v1-2");
    assert_eq!(nth_candidate("v1", 13), "v1-13");
}

#[test]
fn store_errors_are_said_plainly() {
    assert_eq!(
        StoreError::NoSuchVersion("v9".into()).message(),
        "no installed version named v9"
    );
    assert_eq!(
        StoreError::RemoveActive.message(),
        "the version currently in use cannot be removed"
    );
    assert_eq!(
        StoreError::RequiresMultiVersion.message(),
        "this operation requires multiple versions to be enabled"
    );
    assert_eq!(StoreError::NoActiveVersion.message(), "no version is currently active");
    assert_eq!(StoreError::Io("disk full".into()).message(), "disk full");
}
