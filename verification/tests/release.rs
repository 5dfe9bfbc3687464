//! Releases, and the order they are listed in.

use turnstile::release::{Channel, Download, Release};
use turnstile::timestamp::Timestamp;

fn day(date: &str) -> Timestamp {
    Timestamp::parse(&format!("{date}T00:00:00Z")).unwrap()
}

fn rel(tag: &str, at: Option<Timestamp>) -> Release {
    Release {
        tag: tag.to_string(),
        published: at,
        channel: Channel::Release,
        download: Download {
            url: "https://example.invalid/a.zip".into(),
            bytes: 1,
        },
    }
}

#[test]
fn releases_sort_newest_first() {
    let mut v = vec![
        rel("old", Some(day("2024-01-01"))),
        rel("new", Some(day("2026-01-01"))),
        rel("mid", Some(day("2025-01-01"))),
    ];
    Release::sort_newest_first(&mut v);
    assert_eq!(
        v.iter().map(|r| r.tag.as_str()).collect::<Vec<_>>(),
        ["new", "mid", "old"]
    );
}

#[test]
fn releases_without_a_publication_date_sort_last() {
    let mut v = vec![
        rel("undated", None),
        rel("dated", Some(day("2020-01-01"))),
    ];
    Release::sort_newest_first(&mut v);
    assert_eq!(v[0].tag, "dated");
    assert_eq!(v[1].tag, "undated");
}

#[test]
fn sorting_is_stable_for_equal_timestamps() {
    let at = Some(day("2025-01-01"));
    let mut v = vec![rel("first", at), rel("second", at)];
    Release::sort_newest_first(&mut v);
    assert_eq!(
        v.iter().map(|r| r.tag.as_str()).collect::<Vec<_>>(),
        ["first", "second"]
    );
}

#[test]
fn a_release_always_carries_a_download() {
    let r = rel("v1", None);
    assert!(r.download.url.ends_with(".zip"));
}

#[test]
fn channels_are_distinguishable() {
    let mut r = rel("v1", None);
    assert_eq!(r.channel, Channel::Release);
    r.channel = Channel::Develop;
    assert_ne!(r.channel, Channel::Release);
}
