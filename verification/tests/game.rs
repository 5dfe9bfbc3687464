//! Games, where they live, and what their versions are called on disk.

use std::path::Path;

use turnstile::dirs::Dirs;
use turnstile::error::TagError;
use turnstile::game::{sanitize_tag, version_file_in, GameId};

fn dirs() -> Dirs {
    Dirs::at("/tmp/turnstile-test")
}

#[test]
fn every_game_is_reachable_through_all() {
    assert_eq!(GameId::ALL.len(), 2);
    assert!(GameId::ALL.contains(&GameId::OpenRCT2));
    assert!(GameId::ALL.contains(&GameId::OpenLoco));
}

#[test]
fn openrct2_has_a_develop_repository() {
    let g = GameId::OpenRCT2;
    assert_eq!(g.display_name(), "OpenRCT2");
    assert_eq!(g.release_repo().display(), "OpenRCT2/OpenRCT2");
    assert_eq!(
        g.develop_repo().map(|r| r.display()),
        Some("OpenRCT2/OpenRCT2-binaries".to_string())
    );
}

#[test]
fn openloco_has_no_develop_repository() {
    let g = GameId::OpenLoco;
    assert_eq!(g.display_name(), "OpenLoco");
    assert_eq!(g.release_repo().display(), "OpenLoco/OpenLoco");
    assert!(g.develop_repo().is_none());
}

#[test]
fn keys_round_trip() {
    for g in GameId::ALL {
        assert_eq!(GameId::from_key(g.key()), Some(g));
    }
}

/// What every per-game array indexed by `index` relies on: the slot a
/// game names is the slot `ALL` holds it in, for every game and with no
/// slot shared.
#[test]
fn index_addresses_the_games_own_slot_in_all() {
    for g in GameId::ALL {
        assert_eq!(GameId::ALL[g.index()], g);
        assert!(g.index() < GameId::ALL.len());
    }
}

#[test]
fn an_unknown_key_is_rejected_rather_than_guessed() {
    // This is what protects a saved selection when the game list changes.
    assert_eq!(GameId::from_key("OpenTTD"), None);
    assert_eq!(GameId::from_key(""), None);
    assert_eq!(GameId::from_key("0"), None);
}

#[test]
fn paths_are_rooted_at_the_injected_dirs() {
    let g = GameId::OpenRCT2;
    let d = dirs();
    assert_eq!(g.game_path(&d), "/tmp/turnstile-test/OpenRCT2");
    assert_eq!(g.bin_path(&d), "/tmp/turnstile-test/OpenRCT2/bin");
    assert_eq!(
        g.versions_path(&d),
        "/tmp/turnstile-test/OpenRCT2/versions"
    );
    assert_eq!(
        g.version_path(&d, "v0.4.29"),
        "/tmp/turnstile-test/OpenRCT2/versions/v0.4.29"
    );
}

#[test]
fn the_executable_lives_inside_a_capitalized_app_bundle() {
    assert_eq!(
        GameId::OpenRCT2.executable_in("/x"),
        "/x/OpenRCT2.app/Contents/MacOS/OpenRCT2"
    );
    assert_eq!(
        GameId::OpenLoco.executable_in("/x"),
        "/x/OpenLoco.app/Contents/MacOS/OpenLoco"
    );
}

#[test]
fn the_version_file_is_a_dotfile_beside_the_bundle() {
    assert_eq!(version_file_in("/x"), "/x/.version");
}

#[test]
fn ordinary_tags_survive_sanitization_unchanged() {
    assert_eq!(sanitize_tag("v0.4.29").unwrap(), "v0.4.29");
    assert_eq!(sanitize_tag("v26.08").unwrap(), "v26.08");
    assert_eq!(
        sanitize_tag("v0.5.5-9-g394e588fc7").unwrap(),
        "v0.5.5-9-g394e588fc7"
    );
}

#[test]
fn unsafe_characters_are_replaced() {
    assert_eq!(sanitize_tag("release/1.0").unwrap(), "release-1.0");
    assert_eq!(sanitize_tag("a b").unwrap(), "a-b");
    assert_eq!(sanitize_tag("x\u{0000}y").unwrap(), "x-y");
}

#[test]
fn reserved_and_empty_names_are_rejected() {
    assert!(matches!(sanitize_tag("."), Err(TagError::Reserved)));
    assert!(matches!(sanitize_tag(".."), Err(TagError::Reserved)));
    assert!(matches!(sanitize_tag(""), Err(TagError::Empty)));
}

#[test]
fn a_hostile_tag_cannot_escape_the_versions_directory() {
    let g = GameId::OpenRCT2;
    let d = dirs();
    let tag = sanitize_tag("../../etc/passwd").unwrap();
    let p = g.version_path(&d, &tag);
    let p = Path::new(&p);
    let versions = g.versions_path(&d);
    assert_eq!(p.parent().unwrap(), Path::new(&versions));
    assert_eq!(
        p.components().count(),
        Path::new(&versions).components().count() + 1
    );
}

#[test]
fn a_sanitized_tag_never_begins_with_a_dot() {
    // A leading dot would land in this crate's reserved namespace for
    // staging/trash/marker files, and would make the directory invisible
    // among the installed builds.
    assert_eq!(sanitize_tag(".foo").unwrap(), "-foo");
    assert!(!sanitize_tag(".foo").unwrap().starts_with('.'));
    assert!(!sanitize_tag("../../etc/passwd").unwrap().starts_with('.'));
}
