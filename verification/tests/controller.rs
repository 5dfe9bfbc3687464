//! What carrying out an effect comes to.

use turnstile::controller::{
    activate, default_install_root, finish_install, game_data_destination, install_root,
    installed_game_data, lane, listed_release, load_installed, no_home, removal_label,
    repair_failures, rows_at, set_mode, start, store_for, switch_then_remove,
    switch_then_remove_failed, to_rows, update_checked, Lane, ProgressThrottle, SWITCH_STEPS,
};
use turnstile::age::Age;
use turnstile::dirs::Dirs;
use turnstile::disk::{place, Act, Build, Disk, Folder, Node, Plan};
use turnstile::download::{Fraction, Progress, Status};
use turnstile::error::CoreError;
use turnstile::game::GameId;
use turnstile::gamedata::OriginalGame;
use turnstile::prefs::Prefs;
use turnstile::release::{Channel, Download, Release};
use turnstile::selfupdate::Update;
use turnstile::state::{Effect, Msg, Pref};
use turnstile::store::{Installed, Mode, VersionStore};
use turnstile::timestamp::Timestamp;

fn store() -> VersionStore {
    VersionStore::new(Dirs::at("/support"), GameId::OpenRCT2)
}

fn disk_with(names: &[&str]) -> Disk {
    let mut disk = Disk::new("/support/OpenRCT2/versions", true);
    for (i, name) in names.iter().enumerate() {
        let build = Build { version: Some(name.to_string()), launches: true, bytes: 1 };
        let modified = Some(100 - i as u64);
        disk.put(place(Folder::Versions, name), Node::Dir { build, modified });
    }
    disk
}

/// Versions side by side, with the first one active.
fn store_with(names: &[&str]) -> (VersionStore, Plan) {
    let store = store();
    let mut plan = Plan::new(disk_with(names));
    store.activate(&mut plan, Mode::MultiVersion, names[0]).unwrap();
    (store, plan)
}

fn has_version(plan: &Plan, name: &str) -> bool {
    plan.disk().is_dir(&place(Folder::Versions, name))
}

#[test]
fn the_switch_happens_before_the_delete_and_both_land() {
    let (store, mut plan) = store_with(&["v1", "v2"]);
    let msg = switch_then_remove(&store, &mut plan, Mode::MultiVersion, "v2", "v1", 7);
    assert!(
        matches!(msg, Msg::Removed { generation: 7, result: Ok(()) }),
        "got {msg:?}"
    );
    assert!(!has_version(&plan, "v1"), "the named build is gone");
    assert!(has_version(&plan, "v2"), "the switch target survives");
    assert_eq!(
        store.active(plan.disk(), Mode::MultiVersion).as_deref(),
        Some("v2")
    );
    // The one deletion is the last step.
    let trees: Vec<usize> = plan
        .taken_steps()
        .iter()
        .enumerate()
        .filter(|(_, s)| matches!(s.act, Act::RemoveTree(_)))
        .map(|(i, _)| i)
        .collect();
    assert_eq!(trees, [plan.taken_steps().len() - 1]);
}

#[test]
fn a_failed_switch_deletes_nothing() {
    let (store, mut plan) = store_with(&["v1", "v2"]);
    let before = plan.taken_steps().len();
    let msg = switch_then_remove(&store, &mut plan, Mode::MultiVersion, "ghost", "v1", 3);
    assert!(
        matches!(msg, Msg::Activated { generation: 3, result: Err(_) }),
        "got {msg:?}"
    );
    assert!(has_version(&plan, "v1"), "nothing may be deleted");
    assert!(has_version(&plan, "v2"));
    assert_eq!(
        store.active(plan.disk(), Mode::MultiVersion).as_deref(),
        Some("v1"),
        "a failed switch must leave bin exactly where it was"
    );
    assert_eq!(plan.taken_steps().len(), before);
    match msg {
        Msg::Activated { result: Err(m), .. } => {
            assert_eq!(m, "the version to switch to is no longer installed")
        }
        other => panic!("got {other:?}"),
    }
}

#[test]
fn removing_the_build_just_switched_to_is_still_refused() {
    let (store, mut plan) = store_with(&["v1", "v2"]);
    let msg = switch_then_remove(&store, &mut plan, Mode::MultiVersion, "v2", "v2", 1);
    assert!(
        matches!(msg, Msg::Removed { generation: 1, result: Err(_) }),
        "got {msg:?}"
    );
    assert!(has_version(&plan, "v2"), "the active build survives");
}

#[test]
fn a_step_that_fails_is_laid_to_the_half_it_belongs_to() {
    for step in 0..SWITCH_STEPS {
        let msg = switch_then_remove_failed(step, "disk full".into(), 9);
        assert!(matches!(msg, Msg::Activated { generation: 9, result: Err(_) }));
    }
    let msg = switch_then_remove_failed(SWITCH_STEPS, "disk full".into(), 9);
    match msg {
        Msg::Removed { generation: 9, result: Err(m) } => assert_eq!(m, "disk full"),
        other => panic!("got {other:?}"),
    }
}

fn at(millis: u64) -> u64 {
    1_000_000_000 + millis * 1_000_000
}

fn downloading(percent: u64) -> Progress {
    Progress {
        status: Status::Downloading,
        value: Some(Fraction { done: percent, total: 100 }),
    }
}

#[test]
fn intermediate_fractions_are_limited_to_the_interval() {
    let mut throttle = ProgressThrottle::new();
    assert!(
        throttle.should_post(downloading(0), at(0)),
        "the first report always posts"
    );
    assert!(!throttle.should_post(downloading(1), at(1)));
    assert!(!throttle.should_post(downloading(2), at(49)));
    assert!(throttle.should_post(downloading(3), at(50)));
    assert!(!throttle.should_post(downloading(4), at(60)));
    assert!(throttle.should_post(downloading(5), at(100)));
    // A clock that went back is a moment ago.
    assert!(!throttle.should_post(downloading(6), at(0)));
}

#[test]
fn status_transitions_are_never_throttled() {
    let mut throttle = ProgressThrottle::new();
    assert!(throttle.should_post(downloading(50), at(0)));
    assert!(
        !throttle.should_post(downloading(51), at(1)),
        "a fraction is dropped"
    );
    assert!(
        throttle.should_post(Progress { status: Status::Extracting, value: None }, at(2)),
        "Downloading to Extracting must reach the UI"
    );
    let done = Progress {
        status: Status::Extracting,
        value: Some(Fraction { done: 1, total: 1 }),
    };
    assert!(
        throttle.should_post(done, at(3)),
        "the report that completes a phase must reach the UI"
    );
}

#[test]
fn a_completed_phase_and_an_indeterminate_report_are_never_throttled() {
    let mut throttle = ProgressThrottle::new();
    assert!(throttle.should_post(downloading(50), at(0)));
    assert!(
        throttle.should_post(Progress { status: Status::Downloading, value: None }, at(1)),
        "switching the bar to indeterminate is not a fraction update"
    );
    assert!(
        throttle.should_post(downloading(100), at(2)),
        "1.0 ends the phase"
    );
}

#[test]
fn data_goes_where_settings_say_or_beneath_the_launcher() {
    let dirs = Dirs::system(Some("/home/someone"));
    assert_eq!(
        default_install_root(&dirs),
        "/home/someone/Library/Application Support/Turnstile/games"
    );
    assert_eq!(default_install_root(&None), ".");
    let mut prefs = Prefs::new();
    assert_eq!(install_root(&prefs, &None), ".");
    prefs.save(Pref::InstallRoot(Some("/games".into())), GameId::OpenRCT2);
    assert_eq!(install_root(&prefs, &dirs), "/games");
    assert_eq!(
        game_data_destination("/games", OriginalGame::Locomotion),
        "/games/locomotion"
    );
    assert_eq!(installed_game_data(Some("/a".into()), true), Some("/a".into()));
    assert_eq!(installed_game_data(Some("/a".into()), false), None);
    assert_eq!(installed_game_data(None, true), None);
}

#[test]
fn without_a_home_there_is_no_store() {
    assert!(store_for(None, GameId::OpenLoco).is_none());
    assert!(Dirs::system(None).is_none());
    assert_eq!(no_home(), "no home directory");
    let store = store_for(Some(Dirs::at("/s")), GameId::OpenLoco).unwrap();
    assert_eq!(store.bin_path(), "/s/OpenLoco/bin");
}

#[test]
fn the_interface_starts_with_every_setting() {
    let mut prefs = Prefs::new();
    prefs.save(Pref::SelectedGame(GameId::OpenLoco), GameId::OpenLoco);
    prefs.save(Pref::AutoUpdate(true), GameId::OpenRCT2);
    prefs.save(Pref::MultiVersion(true), GameId::OpenRCT2);
    prefs.save(Pref::CheckForUpdates(false), GameId::OpenRCT2);
    let state = start(&prefs);
    assert_eq!(state.selected_game, GameId::OpenLoco);
    assert_eq!(state.auto_update, [true, false]);
    assert!(state.multi_version && !state.check_for_updates && !state.show_develop);
    assert!(!state.is_busy() && state.generation == 0);
    assert_eq!(state.install_root, None);
}

#[test]
fn repairs_that_failed_are_reported_together() {
    assert!(repair_failures(&vec![]).is_none());
    let failures = vec![
        (GameId::OpenRCT2, "disk full".to_string()),
        (GameId::OpenLoco, "no such file".to_string()),
    ];
    match repair_failures(&failures) {
        Some(Msg::StartupRepairFailed { message }) => {
            assert_eq!(message, "OpenRCT2: disk full\nOpenLoco: no such file")
        }
        other => panic!("got {other:?}"),
    }
}

#[test]
fn store_work_has_a_lane_of_its_own() {
    assert_eq!(lane(&Effect::LoadInstalled { generation: 0, game: GameId::OpenLoco }), Lane::Store);
    let set = Effect::SetMode { generation: 0, game: GameId::OpenLoco, multi_version: true };
    assert_eq!(lane(&set), Lane::Store);
    assert_eq!(lane(&Effect::CheckForUpdate), Lane::Worker);
    let launch = Effect::Launch { game: GameId::OpenLoco, dir: "/".into() };
    assert_eq!(lane(&launch), Lane::Worker);
    assert_eq!(lane(&Effect::CancelInFlight { generation: 0 }), Lane::Main);
    assert_eq!(lane(&Effect::ShowSettings), Lane::Main);
}

fn release(tag: &str, at: Option<&str>) -> Release {
    Release {
        tag: tag.into(),
        published: at.map(|t| Timestamp::parse(t).unwrap()),
        channel: Channel::Develop,
        download: Download { url: format!("https://x/{tag}.zip"), bytes: 1 },
    }
}

#[test]
fn releases_are_listed_with_their_age() {
    let now = Timestamp::parse("2026-09-16T12:00:00Z").unwrap();
    let releases = vec![release("v2", Some("2026-09-14T11:00:00Z")), release("v1", None)];
    let rows = rows_at(&releases, now);
    assert_eq!(rows.len(), 2);
    assert_eq!((rows[0].tag.as_str(), rows[0].age), ("v2", Some(Age::Days(2))));
    assert_eq!((rows[1].tag.as_str(), rows[1].age), ("v1", None));
    assert_eq!(rows[0].channel, Channel::Develop);
    let now = to_rows(releases);
    assert_eq!(now.len(), 2);
    assert!(now[0].age.is_some());
}

#[test]
fn a_build_is_installed_only_while_it_is_listed() {
    let releases = vec![release("v2", None), release("v1", None)];
    assert_eq!(listed_release(&releases, "v1").unwrap().download.url, "https://x/v1.zip");
    assert_eq!(
        listed_release(&releases, "v0").unwrap_err(),
        "that build is no longer listed"
    );
}

#[test]
fn a_removal_is_asked_about_by_tag() {
    let installed = vec![Installed {
        tag: "v1".into(),
        name: "v1-2".into(),
        dir: "/x".into(),
        can_launch: true,
    }];
    assert_eq!(removal_label(&installed, "v1-2"), "v1");
    assert_eq!(removal_label(&installed, "v1"), "v1");
    assert_eq!(removal_label(&installed, "gone"), "gone");
}

#[test]
fn a_failed_update_check_says_nothing() {
    let update = Update { version: "1.0.0".into(), url: "https://x".into() };
    match update_checked(Ok(Some(update))) {
        Msg::UpdateChecked(Some(found)) => assert_eq!(found.version, "1.0.0"),
        other => panic!("got {other:?}"),
    }
    assert!(matches!(update_checked(Ok(None)), Msg::UpdateChecked(None)));
    assert!(matches!(update_checked(Err(CoreError::RateLimited)), Msg::UpdateChecked(None)));
}

#[test]
fn what_is_installed_is_read_off_one_directory() {
    let (store, plan) = store_with(&["v1", "v2"]);
    let mut disk = disk_with(&["v1", "v2"]);
    for entry in plan.disk().entries() {
        disk.put(entry.place.clone(), entry.node.clone());
    }
    match load_installed(&store, Ok(disk), Mode::MultiVersion, 5) {
        Msg::InstalledLoaded { generation: 5, result: Ok((installed, active)) } => {
            let names: Vec<&str> = installed.iter().map(|i| i.name.as_str()).collect();
            assert_eq!(names, ["v1", "v2"]);
            assert_eq!(active.as_deref(), Some("v1"));
        }
        other => panic!("got {other:?}"),
    }
    match load_installed(&store, Err("denied".into()), Mode::MultiVersion, 6) {
        Msg::InstalledLoaded { generation: 6, result: Err(m) } => assert_eq!(m, "denied"),
        other => panic!("got {other:?}"),
    }
}

#[test]
fn what_was_installed_becomes_active_by_its_own_name() {
    let store = store();
    let mut disk = disk_with(&["v1-2", "v1"]);
    let build = Build { version: Some("v1".into()), launches: true, bytes: 1 };
    let newest = Node::Dir { build, modified: Some(200) };
    disk.put(place(Folder::Versions, "v1-2"), newest);
    let mut plan = Plan::new(disk);
    finish_install(&store, &mut plan, Mode::MultiVersion, "v1").unwrap();
    assert_eq!(store.active(plan.disk(), Mode::MultiVersion).as_deref(), Some("v1-2"));

    let mut plan = Plan::new(disk_with(&["v1"]));
    assert_eq!(
        finish_install(&store, &mut plan, Mode::MultiVersion, "v9").unwrap_err(),
        "the build was written but could not be identified afterwards; its version file may be unreadable"
    );
    finish_install(&store, &mut plan, Mode::Compatible, "v9").unwrap();
    assert!(plan.taken_steps().is_empty());
}

#[test]
fn modes_are_changed_and_errors_put_into_words() {
    let (store, mut plan) = store_with(&["v1", "v2"]);
    let report = set_mode(&store, &mut plan, false).unwrap().unwrap();
    assert_eq!(report.kept.as_deref(), Some("v1"));
    assert_eq!(report.retained_bytes, 1);
    assert!(set_mode(&store, &mut plan, true).unwrap().is_none());
    assert_eq!(store.active(plan.disk(), Mode::MultiVersion).as_deref(), Some("v1"));
    assert_eq!(
        activate(&store, &mut plan, Mode::MultiVersion, "v9").unwrap_err(),
        "no installed version named v9"
    );
    activate(&store, &mut plan, Mode::MultiVersion, "v2").unwrap();
}
