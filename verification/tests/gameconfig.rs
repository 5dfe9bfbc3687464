//! Configuration files: one setting is changed, and nothing else.

use turnstile::gameconfig::{
    escape_ini, read_ini_key, read_yaml_key, set_ini_key, set_yaml_key, unescape_ini,
};

fn escape(value: &str) -> String {
    escape_ini(&value.chars().collect::<Vec<char>>()).into_iter().collect()
}

fn unescape(value: &str) -> String {
    unescape_ini(&value.chars().collect::<Vec<char>>()).into_iter().collect()
}

const OPENRCT2: &str = "\
[general]
always_show_gridlines = false
rct1_path = \"/old/rct1\"
game_path = \"/old/rct2\"
language = en-US

[interface]
game_path = \"not this one\"
";

    #[test]
    fn a_key_is_replaced_where_it_stands() {
        let out = set_ini_key(OPENRCT2, "general", "game_path", "/new/rct2");
        assert!(out.contains("game_path = \"/new/rct2\""));
        assert_eq!(out.lines().count(), OPENRCT2.lines().count());
        assert_eq!(
            out.lines().position(|l| l.starts_with("game_path")),
            OPENRCT2.lines().position(|l| l.starts_with("game_path")),
            "the line must not move"
        );
    }

    #[test]
    fn every_other_line_survives_untouched() {
        // This file is somebody's key bindings and language. Rewriting it
        // from what we understand of it would drop everything we do not.
        let out = set_ini_key(OPENRCT2, "general", "game_path", "/new/rct2");
        for line in OPENRCT2.lines().filter(|l| !l.starts_with("game_path")) {
            assert!(out.contains(line), "lost: {line}");
        }
    }

    #[test]
    fn the_same_key_in_another_section_is_left_alone() {
        let out = set_ini_key(OPENRCT2, "general", "game_path", "/new/rct2");
        assert!(
            out.contains("game_path = \"not this one\""),
            "[interface] was edited"
        );
    }

    #[test]
    fn a_missing_key_joins_its_section_rather_than_the_end_of_the_file() {
        // Appended after [interface] it would be an interface setting, and
        // OpenRCT2 would never read it.
        let text = "[general]\nlanguage = en-US\n\n[interface]\ntoolbar = true\n";
        let out = set_ini_key(text, "general", "game_path", "/rct2");

        let game_path = out
            .lines()
            .position(|l| l.starts_with("game_path"))
            .unwrap();
        let interface = out.lines().position(|l| l == "[interface]").unwrap();
        assert!(game_path < interface, "landed in the wrong section:\n{out}");
    }

    #[test]
    fn a_missing_section_is_added() {
        let out = set_ini_key(
            "[interface]\ntoolbar = true\n",
            "general",
            "game_path",
            "/rct2",
        );
        assert!(out.contains("[general]"));
        assert!(out.contains("game_path = \"/rct2\""));
        assert!(out.contains("toolbar = true"));
    }

    #[test]
    fn an_empty_file_becomes_a_minimal_one() {
        // Both games fill in every other default themselves on first run.
        let out = set_ini_key("", "general", "game_path", "/rct2");
        assert_eq!(out, "[general]\ngame_path = \"/rct2\"\n");
    }

    #[test]
    fn spacing_around_the_equals_sign_does_not_hide_the_key() {
        let out = set_ini_key(
            "[general]\n  game_path   =   \"/old\"\n",
            "general",
            "game_path",
            "/new",
        );
        assert!(out.contains("game_path = \"/new\""));
        assert!(!out.contains("/old"), "{out}");
    }

    #[test]
    fn a_quote_or_a_backslash_in_the_path_is_escaped_the_way_openrct2_writes_it() {
        // Checked against OpenRCT2 itself, by giving its own `set-rct2` a
        // directory with each character in the name and reading back what it
        // wrote.
        assert_eq!(escape(r#"/a "b" c"#), r#"/a \"b\" c"#);
        assert_eq!(escape(r"/a\b"), r"/a\\b");
    }

    #[test]
    fn a_path_survives_being_written_and_read_back() {
        for path in [
            "/plain",
            r#"/with "quotes""#,
            r"/with\backslash",
            "/with spaces",
        ] {
            let out = set_ini_key("", "general", "game_path", path);
            assert_eq!(
                read_ini_key(&out, "general", "game_path").as_deref(),
                Some(path),
                "round trip failed for {path}"
            );
        }
    }

    #[test]
    fn unescaping_a_value_that_was_never_escaped_leaves_it_alone() {
        assert_eq!(unescape("/plain/path"), "/plain/path");
    }

    #[test]
    fn a_file_with_windows_line_endings_keeps_them() {
        // Mixing the two would show up as stray characters in an editor and
        // as a needlessly enormous diff in anybody's backups.
        let text = "[general]\r\ngame_path = \"/old\"\r\n";
        let out = set_ini_key(text, "general", "game_path", "/new");
        assert!(!out.contains("\n\n"), "a bare newline crept in: {out:?}");
        assert!(out.contains("game_path = \"/new\"\r\n"));
    }

    const OPENLOCO: &str = "\
loco_install_path: \"/old/loco\"
display:
  mode: window
language: en-GB
";

    #[test]
    fn a_top_level_yaml_key_is_replaced_in_place() {
        let out = set_yaml_key(OPENLOCO, "loco_install_path", "/new/loco");
        assert!(out.contains("loco_install_path: \"/new/loco\""));
        assert!(out.contains("  mode: window"));
        assert!(out.contains("language: en-GB"));
        assert_eq!(out.lines().count(), OPENLOCO.lines().count());
    }

    #[test]
    fn an_indented_key_of_the_same_name_is_not_the_one_we_mean() {
        // Nested under something else it is a different setting, and moving
        // a value there would change the meaning of a document we do not
        // otherwise understand.
        let text = "display:\n  loco_install_path: nested\nlanguage: en-GB\n";
        let out = set_yaml_key(text, "loco_install_path", "/loco");

        assert!(out.contains("  loco_install_path: nested"), "{out}");
        assert!(out.starts_with("loco_install_path: \"/loco\""), "{out}");
    }

    #[test]
    fn a_missing_yaml_key_is_added_at_the_top() {
        let out = set_yaml_key("language: en-GB\n", "loco_install_path", "/loco");
        assert_eq!(out, "loco_install_path: \"/loco\"\nlanguage: en-GB\n");
    }

    #[test]
    fn an_empty_yaml_file_becomes_a_single_line() {
        // What OpenLoco was actually given in testing, and it filled in the
        // other hundred and seventy lines itself.
        let out = set_yaml_key("", "loco_install_path", "/loco");
        assert_eq!(out, "loco_install_path: \"/loco\"\n");
    }

    #[test]
    fn a_yaml_path_survives_being_written_and_read_back() {
        for path in ["/plain", r#"/with "quotes""#, "/with: colon", "/with #hash"] {
            let out = set_yaml_key("", "loco_install_path", path);
            assert_eq!(
                read_yaml_key(&out, "loco_install_path").as_deref(),
                Some(path),
                "round trip failed for {path}"
            );
        }
    }

    #[test]
    fn a_value_openloco_wrote_unquoted_is_read_back_whole() {
        // It writes the path bare when nothing in it needs quoting, so
        // reading has to cope with both.
        let text = "loco_install_path: /Users/someone/Game Data/locomotion\n";
        assert_eq!(
            read_yaml_key(text, "loco_install_path").as_deref(),
            Some("/Users/someone/Game Data/locomotion")
        );
    }

#[test]
fn setting_one_yaml_key_leaves_the_others_as_they_were() {
    let text = "language: en-GB\r\nloco_install_path: '/old'\r\nnested:\r\n  language: de\r\n";
    for key in ["loco_install_path", "new_key"] {
        let out = set_yaml_key(text, key, "/a: \"b\" #c");
        assert_eq!(read_yaml_key(&out, key).as_deref(), Some("/a: \"b\" #c"));
        for other in ["language", "nested", "loco_install_path", "missing"] {
            if other != key {
                assert_eq!(read_yaml_key(&out, other), read_yaml_key(text, other), "{other}");
            }
        }
    }
}
