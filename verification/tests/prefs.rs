//! Settings, and what is read where nothing was stored.

use turnstile::game::GameId;
use turnstile::prefs::{
    auto_update_key, change_for, mode_for, Change, Prefs, Value, KEY_CHECK_FOR_UPDATES,
    KEY_INSTALL_ROOT, KEY_MULTI_VERSION, KEY_SELECTED_GAME, KEY_SHOW_DEVELOP,
};
use turnstile::state::Pref;
use turnstile::store::Mode;

#[test]
fn per_game_keys_are_built_from_the_games_stable_key() {
    assert_eq!(
        auto_update_key(GameId::OpenRCT2.key()),
        "autoInstallUpdates.OpenRCT2"
    );
    assert_eq!(
        auto_update_key(GameId::OpenLoco.key()),
        "autoInstallUpdates.OpenLoco"
    );
}

#[test]
fn an_unrecognised_key_still_gets_its_own_distinct_preference_key() {
    assert_eq!(auto_update_key("Something"), "autoInstallUpdates.Something");
}

#[test]
fn the_multi_version_preference_maps_to_the_store_mode() {
    assert_eq!(mode_for(false), Mode::Compatible);
    assert_eq!(mode_for(true), Mode::MultiVersion);
}

#[test]
fn a_round_trip_through_the_real_defaults_preserves_values() {
    let mut p = Prefs::with_suite("TurnstileTestRoundTrip");
    p.remove_all();
    p.set_bool(KEY_MULTI_VERSION, true);
    assert!(p.get_bool(KEY_MULTI_VERSION));
    p.set_bool(KEY_MULTI_VERSION, false);
    assert!(!p.get_bool(KEY_MULTI_VERSION));
    p.set_int(KEY_SELECTED_GAME, 1);
    assert_eq!(p.get_int(KEY_SELECTED_GAME), 1);
    p.remove_all();
}

#[test]
fn absent_keys_return_false_and_zero_so_a_first_run_needs_no_special_case() {
    let mut p = Prefs::with_suite("TurnstileTestEmpty");
    p.remove_all();
    assert!(!p.get_bool(KEY_MULTI_VERSION));
    assert!(!p.get_bool(KEY_SHOW_DEVELOP));
    assert_eq!(p.get_int(KEY_SELECTED_GAME), 0);
}

#[test]
fn selected_game_falls_back_to_the_first_game_when_the_key_is_absent() {
    let mut p = Prefs::with_suite("TurnstileTestSelectedGameAbsent");
    p.remove_all();
    assert_eq!(p.selected_game(), GameId::ALL[0]);
}

#[test]
fn selected_game_falls_back_to_the_first_game_for_an_unrecognised_stored_key() {
    let mut p = Prefs::with_suite("TurnstileTestSelectedGameUnknown");
    p.remove_all();
    p.set_string(KEY_SELECTED_GAME, "NotAGame");
    assert_eq!(p.selected_game(), GameId::ALL[0]);
    p.remove_all();
}

#[test]
fn save_and_selected_game_round_trip_through_the_stable_key_not_an_index() {
    let mut p = Prefs::with_suite("TurnstileTestSelectedGameRoundTrip");
    p.remove_all();
    p.save(Pref::SelectedGame(GameId::OpenLoco), GameId::OpenLoco);
    assert_eq!(p.selected_game(), GameId::OpenLoco);
    p.remove_all();
}

#[test]
fn auto_update_is_saved_per_game_not_globally() {
    let mut p = Prefs::with_suite("TurnstileTestAutoUpdate");
    p.remove_all();
    p.save(Pref::AutoUpdate(true), GameId::OpenRCT2);
    assert!(p.auto_update(GameId::OpenRCT2));
    assert!(!p.auto_update(GameId::OpenLoco));

    p.save(Pref::AutoUpdate(true), GameId::OpenLoco);
    assert!(p.auto_update(GameId::OpenRCT2));
    assert!(p.auto_update(GameId::OpenLoco));
    p.save(Pref::AutoUpdate(false), GameId::OpenRCT2);
    assert!(!p.auto_update(GameId::OpenRCT2));
    assert!(p.auto_update(GameId::OpenLoco));
    p.remove_all();
}

#[test]
fn updates_are_looked_for_unless_that_was_turned_off() {
    let mut p = Prefs::default();
    assert_eq!(p.suite(), "Turnstile");
    assert!(p.check_for_updates());
    p.save(Pref::CheckForUpdates(false), GameId::OpenRCT2);
    assert!(!p.check_for_updates());
    assert!(!p.get_bool(KEY_CHECK_FOR_UPDATES));
    p.save(Pref::CheckForUpdates(true), GameId::OpenRCT2);
    assert!(p.check_for_updates());
}

#[test]
fn what_is_saved_is_read_back_and_the_rest_is_kept() {
    let mut p = Prefs::with_suite("Somewhere");
    p.save(Pref::ShowDevelop(true), GameId::OpenRCT2);
    p.save(Pref::MultiVersion(true), GameId::OpenRCT2);
    p.save(Pref::SelectedGame(GameId::OpenLoco), GameId::OpenLoco);
    p.save(Pref::InstallRoot(Some("/games".to_string())), GameId::OpenRCT2);
    assert!(p.show_develop() && p.multi_version());
    assert_eq!(p.selected_game(), GameId::OpenLoco);
    assert_eq!(p.install_root(), Some("/games".to_string()));
    p.save(Pref::ShowDevelop(false), GameId::OpenRCT2);
    assert!(!p.show_develop() && p.multi_version());
    p.save(Pref::SelectedGame(GameId::OpenRCT2), GameId::OpenLoco);
    assert_eq!(p.selected_game(), GameId::OpenRCT2);
    assert_eq!(p.suite(), "Somewhere");
}

#[test]
fn the_default_directory_is_the_absence_of_an_answer() {
    let mut p = Prefs::new();
    assert_eq!(p.install_root(), None);
    p.set_string(KEY_INSTALL_ROOT, "  \t");
    assert_eq!(p.install_root(), None);
    assert_eq!(p.get_string(KEY_INSTALL_ROOT), Some("  \t".to_string()));
    p.set_string(KEY_INSTALL_ROOT, " /games ");
    assert_eq!(p.install_root(), Some(" /games ".to_string()));
    p.save(Pref::InstallRoot(None), GameId::OpenRCT2);
    assert_eq!(p.install_root(), None);
    assert_eq!(p.get_string(KEY_INSTALL_ROOT), None);
}

#[test]
fn a_value_replaces_the_one_before_whatever_that_was() {
    let mut p = Prefs::new();
    p.set_bool("key", true);
    p.set_int("key", 7);
    assert_eq!(p.get_int("key"), 7);
    assert!(p.get_bool("key"));
    p.set_int("key", 0);
    assert!(!p.get_bool("key"));
    p.set_bool("key", true);
    assert_eq!(p.get_int("key"), 1);
    p.set_string("key", "text");
    assert_eq!((p.get_bool("key"), p.get_int("key")), (false, 0));
    p.remove("key");
    assert_eq!(p.get_string("key"), None);
    p.apply(Change { key: "key".to_string(), value: Some(Value::Flag(true)) });
    assert!(p.get_bool("key"));
    p.apply(Change { key: "key".to_string(), value: None });
    assert!(!p.get_bool("key"));
}

#[test]
fn values_are_read_as_what_is_asked_for() {
    let mut p = Prefs::new();
    for (text, on) in [("YES", true), ("1", true), ("NO", false), ("0", false), ("yes", false)] {
        p.set_string("key", text);
        assert_eq!(p.get_bool("key"), on, "{text}");
    }
    p.set_string(KEY_CHECK_FOR_UPDATES, "NO");
    assert!(!p.check_for_updates());
    p.set_string(KEY_CHECK_FOR_UPDATES, "YES");
    assert!(p.check_for_updates());

    for n in [0, 7, -12, i64::MAX, i64::MIN] {
        p.set_int("key", n);
        assert_eq!(p.get_string("key"), Some(n.to_string()));
        p.set_string("key", &n.to_string());
        assert_eq!(p.get_int("key"), n);
    }
    p.set_bool("key", true);
    assert_eq!(p.get_string("key").as_deref(), Some("1"));
    p.set_bool("key", false);
    assert_eq!(p.get_string("key").as_deref(), Some("0"));
    p.set_int(KEY_INSTALL_ROOT, 7);
    assert_eq!(p.install_root().as_deref(), Some("7"));
}

#[test]
fn a_change_names_its_key_and_value() {
    assert_eq!(
        change_for(Pref::AutoUpdate(true), GameId::OpenLoco),
        Change {
            key: "autoInstallUpdates.OpenLoco".to_string(),
            value: Some(Value::Flag(true)),
        }
    );
    assert_eq!(
        change_for(Pref::SelectedGame(GameId::OpenRCT2), GameId::OpenLoco),
        Change {
            key: KEY_SELECTED_GAME.to_string(),
            value: Some(Value::Text("OpenRCT2".to_string())),
        }
    );
    assert_eq!(
        change_for(Pref::InstallRoot(None), GameId::OpenLoco),
        Change { key: "gameDataDirectory".to_string(), value: None }
    );
}
