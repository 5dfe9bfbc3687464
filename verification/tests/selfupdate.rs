//! Whether a newer launcher has been published.

use turnstile::error::CoreError;
use turnstile::github::GitHub;
use turnstile::selfupdate::{parse_latest, semver, LatestRelease};

fn body(tag: &str) -> String {
    format!(r#"{{"tag_name":"{tag}","html_url":"https://example.invalid/releases/{tag}"}}"#)
}

/// What a body says, where it says what is expected of it.
fn latest(body: &str) -> Result<LatestRelease, String> {
    let value: serde_json::Value = serde_json::from_str(body).map_err(|e| e.to_string())?;
    let text = |key: &str| {
        value
            .get(key)
            .and_then(|v| v.as_str())
            .map(|v| v.to_string())
            .ok_or_else(|| format!("missing field `{key}`"))
    };
    Ok(LatestRelease {
        tag_name: text("tag_name")?,
        html_url: text("html_url")?,
    })
}

#[test]
fn a_newer_release_is_an_update() {
    let u = parse_latest(latest(&body("v0.2.0")), "0.1.0").unwrap().unwrap();
    assert_eq!(u.version, "0.2.0");
    assert_eq!(u.url, "https://example.invalid/releases/v0.2.0");
}

#[test]
fn the_same_version_is_not_an_update() {
    assert_eq!(parse_latest(latest(&body("v0.1.0")), "0.1.0").unwrap(), None);
}

#[test]
fn an_older_release_is_not_an_update() {
    assert_eq!(parse_latest(latest(&body("v0.1.0")), "0.2.0").unwrap(), None);
}

#[test]
fn the_v_prefix_is_optional_on_either_side() {
    assert!(parse_latest(latest(&body("0.2.0")), "0.1.0").unwrap().is_some());
    assert!(parse_latest(latest(&body("v0.2.0")), "v0.1.0").unwrap().is_some());
}

#[test]
fn each_component_is_compared_as_a_number_not_a_string() {
    assert!(parse_latest(latest(&body("v0.10.0")), "0.9.0").unwrap().is_some());
    assert_eq!(parse_latest(latest(&body("v0.9.0")), "0.10.0").unwrap(), None);
}

#[test]
fn a_tag_that_cannot_be_compared_is_ignored() {
    for tag in ["nightly", "v1.2", "v1.2.3.4", "v1.2.3-rc1", ""] {
        assert_eq!(
            parse_latest(latest(&body(tag)), "0.1.0").unwrap(),
            None,
            "{tag} should not announce an update"
        );
    }
}

#[test]
fn a_running_version_that_cannot_be_parsed_announces_nothing() {
    assert_eq!(
        parse_latest(latest(&body("v9.9.9")), "not-a-version").unwrap(),
        None
    );
}

#[test]
fn a_malformed_body_is_an_error_rather_than_a_silent_no() {
    assert!(parse_latest(latest("{"), "0.1.0").is_err());
}

#[test]
fn a_body_that_cannot_be_read_says_why() {
    match parse_latest(latest("{}"), "0.1.0") {
        Err(CoreError::Json(message)) => assert_eq!(message, "missing field `tag_name`"),
        other => panic!("got {other:?}"),
    }
}

#[test]
fn updates_are_never_announced_both_ways() {
    let versions = ["0.1.0", "0.1.1", "0.2.0", "0.10.0", "1.0.0"];
    for (i, a) in versions.iter().enumerate() {
        for (j, b) in versions.iter().enumerate() {
            let announced = parse_latest(latest(&body(b)), a).unwrap().is_some();
            assert_eq!(announced, i < j, "{a} to {b}");
        }
    }
}

#[test]
fn a_version_is_three_plain_numbers() {
    let read = |s: &str| semver(&s.chars().collect::<Vec<char>>());
    assert_eq!(read("0.10.3"), Some((0, 10, 3)));
    assert_eq!(read("1.2"), None);
    assert_eq!(read("1.2.3.4"), None);
    assert_eq!(read("1.2.x"), None);
    assert_eq!(read("1..3"), None);
    assert_eq!(read("18446744073709551615.0.0"), Some((u64::MAX, 0, 0)));
    assert_eq!(read("18446744073709551616.0.0"), None);
}

#[test]
fn a_check_without_an_answer_fails_as_the_request_did() {
    let gh = GitHub::new();
    let found = gh.latest_turnstile(Ok(latest(&body("v1.0.0"))), "0.9.0").unwrap().unwrap();
    assert_eq!(found.version, "1.0.0");
    assert!(matches!(
        gh.latest_turnstile(Err(CoreError::RateLimited), "0.9.0"),
        Err(CoreError::RateLimited)
    ));
    assert!(matches!(gh.latest_turnstile(Ok(latest("{")), "0.9.0"), Err(CoreError::Json(_))));
}
