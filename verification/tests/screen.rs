//! What each control shows.

use turnstile::age::Age;
use turnstile::download::{Fraction, Status};
use turnstile::game::GameId;
use turnstile::gamedata::OriginalGame;
use turnstile::release::Channel;
use turnstile::screen::{
    apply, confirm_remove, show_disable_report, game_for_row, game_for_tag, human_bytes, icon_name,
    optional, row_count, row_for_game, selected_index, title_of, Bar, Check,
};
use turnstile::selfupdate::Update;
use turnstile::state::{Alert, Busy, ReleaseRow, UiState};
use turnstile::store::{DisableReport, Installed};
use turnstile::strings::Bundle;

#[test]
fn byte_counts_are_reported_in_readable_units() {
    assert_eq!(human_bytes(512), "512 bytes");
    assert_eq!(human_bytes(2048), "2.0 KB");
    assert_eq!(human_bytes(5 * 1024 * 1024), "5.0 MB");
    assert_eq!(human_bytes(3 * 1024 * 1024 * 1024), "3.0 GB");
}

#[test]
fn zero_bytes_does_not_produce_a_fractional_unit() {
    assert_eq!(human_bytes(0), "0 bytes");
}

/// The same, worked out with floating point.
fn float_bytes(bytes: u64) -> String {
    let units = ["bytes", "KB", "MB", "GB"];
    let mut value = bytes as f64;
    let mut unit = 0;
    while value >= 1024.0 && unit < units.len() - 1 {
        value /= 1024.0;
        unit += 1;
    }
    if unit == 0 {
        format!("{bytes} {}", units[0])
    } else {
        format!("{value:.1} {}", units[unit])
    }
}

#[test]
fn sizes_are_rounded_as_floating_point_rounds_them() {
    let mut sizes = vec![1023, 1024, 1025, 1075, 1076, 1126, 1127, 1280, 1408, 1_048_575, u64::MAX];
    let mut n: u64 = 1;
    while n < u64::MAX / 7 {
        n = n * 7 + 3;
        sizes.push(n);
        sizes.push(u64::MAX - n);
    }
    for k in 0..64 {
        let p = 1u64 << k;
        for d in [0, 1, 2, 3] {
            sizes.push(p.wrapping_add(d));
            sizes.push(p.wrapping_sub(d));
            sizes.push(p | (p >> 1) | (p >> 53) | d);
        }
    }
    // Just as near to one tenth as to the next.
    for m in 0..200u64 {
        sizes.push(1024 + m * 128);
        sizes.push((1 << 30) + (m << 24));
        sizes.push((1 << 55) + (m << 27) + (1 << 26));
    }
    for size in sizes {
        assert_eq!(human_bytes(size), float_bytes(size), "{size}");
    }
}

#[test]
fn rows_and_games_lead_to_each_other() {
    assert_eq!(row_count(), 2);
    for row in 0..row_count() {
        let game = game_for_row(row).unwrap();
        assert_eq!(row_for_game(game), Some(row as usize));
    }
    assert_eq!(game_for_row(0), Some(GameId::OpenRCT2));
    assert_eq!(game_for_row(-1), None);
    assert_eq!(game_for_row(2), None);
    assert_eq!(icon_name(GameId::OpenRCT2), "icon-openrct2");
    assert_eq!(icon_name(GameId::OpenLoco), "icon-openloco");
}

#[test]
fn an_answer_out_of_range_is_no_answer() {
    assert_eq!(selected_index(Some(3)), Some(3));
    assert_eq!(selected_index(Some(-1)), None);
    assert_eq!(selected_index(None), None);
    for (i, game) in OriginalGame::ALL.iter().enumerate() {
        assert_eq!(game_for_tag(i as isize), Some(*game));
    }
    assert_eq!(game_for_tag(3), None);
    assert_eq!(game_for_tag(-1), None);
}

#[test]
fn games_are_called_by_their_own_names() {
    assert_eq!(title_of(OriginalGame::RollerCoasterTycoon1), "RollerCoaster Tycoon");
    assert_eq!(title_of(OriginalGame::RollerCoasterTycoon2), "RollerCoaster Tycoon 2");
    assert_eq!(title_of(OriginalGame::Locomotion), "Chris Sawyer's Locomotion");
    assert!(optional(OriginalGame::RollerCoasterTycoon1));
    assert!(!optional(OriginalGame::RollerCoasterTycoon2));
    assert!(!optional(OriginalGame::Locomotion));
}

fn build(tag: &str, name: &str) -> Installed {
    Installed { tag: tag.into(), name: name.into(), dir: "/x".into(), can_launch: true }
}

fn loaded() -> UiState {
    let mut s = UiState::new(GameId::OpenRCT2);
    s.multi_version = true;
    s.installed = vec![build("v1", "v1"), build("v1", "v1-2")];
    s.selected_installed = 1;
    s.active = Some("v1-2".into());
    let row = |tag: &str, age| ReleaseRow { tag: tag.into(), age, channel: Channel::Release };
    s.releases = vec![row("v3", Some(Age::Hours(5))), row("v2", None)];
    s.game_data = [None, Some("/games/rct2".into()), None];
    s
}

#[test]
fn a_state_is_shown_whole() {
    let mut s = loaded();
    s.update = Some(Update { version: "9.9.9".into(), url: "https://x".into() });
    let screen = apply(&s, &Bundle::empty());
    assert_eq!(screen.title, "OpenRCT2");
    assert_eq!(screen.row, 0);
    // Two builds share a tag, and only one of them is active.
    assert_eq!(screen.installed.entries, ["v1", "v1 (active)"]);
    assert_eq!(screen.installed.selected, Some(1));
    assert!(screen.installed.enabled && screen.play_enabled && screen.remove_enabled);
    assert!(!screen.remove_hidden);
    assert_eq!(screen.releases.entries, ["v3 (released 5 hours ago)", "v2"]);
    assert!(screen.releases.enabled && screen.download_enabled);
    assert_eq!(screen.download_title, "Download");
    assert_eq!(screen.progress, Bar::Hidden);
    assert_eq!(screen.multi_version, Check { on: true, enabled: true });
    assert_eq!(screen.check_for_updates, Check { on: true, enabled: true });
    let rct1 = screen.game_data[0].as_ref().unwrap();
    assert_eq!(rct1.path, "Not installed (optional)");
    assert_eq!(rct1.button, "Install\u{2026}");
    let rct2 = screen.game_data[1].as_ref().unwrap();
    assert_eq!((rct2.path.as_str(), rct2.enabled), ("/games/rct2", true));
    assert_eq!(rct2.button, "Reinstall\u{2026}");
    assert!(screen.game_data[2].is_none(), "another game's data");
    assert_eq!(screen.install_root, "Default");
    assert_eq!(screen.update.as_deref(), Some("Turnstile 9.9.9 is available."));
    assert!(screen.alert.is_none());
}

#[test]
fn nothing_can_be_used_while_something_runs() {
    let mut s = loaded();
    s.outstanding = 1;
    s.busy = Some(Busy {
        status: Some(Status::Extracting),
        value: Some(Fraction { done: 1, total: 4 }),
    });
    let screen = apply(&s, &Bundle::empty());
    assert!(!screen.installed.enabled && !screen.releases.enabled);
    assert!(!screen.play_enabled && !screen.remove_enabled && !screen.download_enabled);
    assert_eq!(screen.download_title, "Extracting\u{2026}");
    assert_eq!(screen.progress, Bar::At(Fraction { done: 1, total: 4 }));
    assert!(!screen.develop.enabled && !screen.auto_update.enabled);
    assert!(screen.check_for_updates.enabled);
    assert!(!screen.game_data[1].as_ref().unwrap().enabled);

    s.busy = Some(Busy { status: None, value: None });
    let screen = apply(&s, &Bundle::empty());
    assert_eq!(screen.progress, Bar::Indeterminate);
    assert_eq!(screen.download_title, "Download");
}

#[test]
fn an_empty_list_selects_nothing() {
    let s = UiState::new(GameId::OpenLoco);
    let screen = apply(&s, &Bundle::empty());
    assert_eq!(screen.row, 1);
    assert_eq!(screen.installed.selected, None);
    assert!(!screen.installed.enabled && !screen.releases.enabled);
    assert!(screen.remove_hidden);
    assert!(screen.game_data[0].is_none() && screen.game_data[1].is_none());
    assert_eq!(screen.game_data[2].as_ref().unwrap().path, "Not installed");
}

#[test]
fn an_alert_is_put_into_words() {
    let mut s = UiState::new(GameId::OpenLoco);
    let mut alert = |title: &str, message: &str, is_key: bool, arg: Option<&str>| {
        s.error = Some(Alert {
            title: title.into(),
            message: message.into(),
            message_is_key: is_key,
            generation: None,
            title_arg: arg.map(|a| a.to_string()),
        });
        apply(&s, &Bundle::empty()).alert.unwrap()
    };
    let launch = alert("FailedToLaunchGame", "no data", false, Some("OpenLoco"));
    assert_eq!(launch.title, "Failed to launch OpenLoco");
    assert_eq!(launch.message, "no data");
    let busy = alert("FailedToRemoveVersion", "RemoveBusyMessage", true, None);
    assert_eq!(busy.title, "Failed to remove version");
    assert!(busy.message.starts_with("Other work was in progress"));
    let verbatim = alert("FailedToRemoveVersion", "RemoveBusyMessage", false, None);
    assert_eq!(verbatim.message, "RemoveBusyMessage");
}

#[test]
fn questions_and_notices_name_what_they_are_about() {
    let q = confirm_remove(&Bundle::empty(), "v1");
    assert_eq!(q.title, "Remove v1?");
    assert_eq!((q.remove.as_str(), q.cancel.as_str()), ("Remove", "Cancel"));
    assert!(q.message.starts_with("This deletes the installed build from disk."));

    let mut report = DisableReport { kept: Some("v2".into()), retained: vec![], retained_bytes: 0 };
    assert!(show_disable_report(&Bundle::empty(), &report).is_none());
    report.retained.push(build("v1", "v1"));
    report.retained_bytes = 1536;
    let one = show_disable_report(&Bundle::empty(), &report).unwrap();
    assert_eq!(one.title, "Now using v2");
    assert!(one.message.starts_with("1 other version is still on disk (1.5 KB)."));
    report.retained.push(build("v0", "v0"));
    report.kept = None;
    let two = show_disable_report(&Bundle::empty(), &report).unwrap();
    assert_eq!(two.title, "No version is in use");
    assert!(two.message.starts_with("2 other versions are still on disk (1.5 KB)."));
}
