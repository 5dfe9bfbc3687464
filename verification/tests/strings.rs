//! What the interface says.

use turnstile::age::Age;
use turnstile::download::Status;
use turnstile::strings::{
    age, fallback, format1, format2, get, status, substitute, Bundle, BUILTIN_EN, REQUIRED_KEYS,
};

/// No translations at all.
fn none() -> Bundle {
    Bundle::empty()
}

fn german() -> Bundle {
    Bundle {
        entries: vec![
            ("Play".to_string(), "Spielen".to_string()),
            ("Minutes".to_string(), "vor {0} Minuten".to_string()),
            ("BuildListing".to_string(), "{1}: {0}".to_string()),
            ("Cancel".to_string(), "Cancel".to_string()),
        ],
    }
}

#[test]
fn a_missing_key_falls_back_to_the_key_itself_rather_than_panicking() {
    assert_eq!(get(&none(), "NoSuchKeyAnywhere"), "NoSuchKeyAnywhere");
}

#[test]
fn a_key_missing_from_the_bundle_falls_back_to_the_builtin_english_text() {
    assert_eq!(get(&none(), "StatusDownloading"), "Downloading\u{2026}");
    assert_eq!(get(&none(), "BuildListing"), "{0} (released {1})");
}

#[test]
fn status_produces_the_builtin_english_wording_for_every_variant() {
    assert_eq!(status(&none(), Status::Downloading), "Downloading\u{2026}");
    assert_eq!(status(&none(), Status::Extracting), "Extracting\u{2026}");
}

#[test]
fn the_builtin_english_table_covers_every_key_the_ui_uses() {
    for key in REQUIRED_KEYS {
        assert!(
            BUILTIN_EN.iter().any(|(k, _)| *k == key),
            "no builtin English string for {key}"
        );
    }
}

#[test]
fn placeholders_are_substituted_positionally() {
    assert_eq!(substitute("{0} and {1}", &["a", "b"]), "a and b");
    assert_eq!(substitute("{0} twice {0}", &["x"]), "x twice x");
}

#[test]
fn a_placeholder_with_no_argument_is_left_alone_rather_than_producing_garbage() {
    assert_eq!(substitute("{0} and {1}", &["only"]), "only and {1}");
}

#[test]
fn a_template_with_no_placeholders_is_returned_unchanged() {
    assert_eq!(substitute("plain text", &["ignored"]), "plain text");
}

#[test]
fn every_age_variant_produces_a_non_empty_string() {
    let all = [
        Age::Minute,
        Age::Minutes(5),
        Age::Hour,
        Age::Hours(5),
        Age::Day,
        Age::Days(5),
        Age::Month,
        Age::Months(5),
        Age::Year,
        Age::Years(5),
    ];
    for a in all {
        let s = age(&none(), a);
        assert!(!s.is_empty(), "{a:?} produced an empty string");
        assert!(
            !s.contains("{0}"),
            "{a:?} left an unsubstituted placeholder: {s}"
        );
    }
}

#[test]
fn a_translation_goes_before_the_english_text() {
    assert_eq!(get(&german(), "Play"), "Spielen");
    assert_eq!(get(&german(), "Remove"), "Remove");
    assert_eq!(get(&german(), "Settings"), "Settings");
    assert_eq!(get(&german(), "Cancel"), "Cancel");
    assert_eq!(age(&german(), Age::Minutes(12)), "vor 12 Minuten");
    assert_eq!(age(&german(), Age::Hours(2)), "2 hours ago");
    assert_eq!(format2(&german(), "BuildListing", "v1", "today"), "today: v1");
    assert_eq!(format1(&german(), "Play", "unused"), "Spielen");
}

#[test]
fn arguments_are_filled_in_one_after_the_other() {
    assert_eq!(substitute("{0}", &["{1}", "b"]), "b");
    assert_eq!(substitute("{0}{0}{0}", &["ab"]), "ababab");
    assert_eq!(substitute("", &["a"]), "");
    assert_eq!(substitute("{00}", &["a"]), "{00}");
    let many: Vec<String> = (0..11).map(|i| format!("<{i}>")).collect();
    let many: Vec<&str> = many.iter().map(|s| s.as_str()).collect();
    assert_eq!(substitute("{10}{1}", &many), "<10><1>");
}

#[test]
fn every_listed_text_is_found() {
    for (key, text) in BUILTIN_EN {
        assert_eq!(fallback(key), Some(text));
    }
    assert_eq!(fallback("play"), None);
    assert_eq!(fallback(""), None);
}
