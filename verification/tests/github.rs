//! What GitHub lists, and what of it this host can install.

use turnstile::asset::HostArch;
use turnstile::error::CoreError;
use turnstile::game::{GameId, RepositoryName};
use turnstile::github::{
    page_has_no_stable_release, parse_releases, Answer, ApiAsset, ApiRelease, GitHub,
};
use turnstile::release::{Channel, Release};
use turnstile::timestamp::Timestamp;

/// What a page lists, where it lists what is expected of it.
fn page(json: &str) -> Result<Vec<ApiRelease>, String> {
    let value: serde_json::Value = serde_json::from_str(json).map_err(|e| e.to_string())?;
    let text = |v: &serde_json::Value| v.as_str().map(|s| s.to_string()).ok_or("not a text");
    let mut releases = Vec::new();
    for r in value.as_array().ok_or("not a list")? {
        let mut assets = Vec::new();
        for a in r["assets"].as_array().ok_or("not a list")? {
            assets.push(ApiAsset {
                name: text(&a["name"])?,
                browser_download_url: text(&a["browser_download_url"])?,
                size: a["size"].as_u64().ok_or("not a number")?,
            });
        }
        releases.push(ApiRelease {
            tag_name: text(&r["tag_name"])?,
            published_at: r["published_at"].as_str().map(|s| s.to_string()),
            prerelease: r["prerelease"].as_bool().ok_or("not a flag")?,
            assets,
        });
    }
    Ok(releases)
}

fn asset(name: &str) -> ApiAsset {
    ApiAsset {
        name: name.into(),
        browser_download_url: format!("https://github.com/{name}"),
        size: 1000,
    }
}

fn listed(tag: &str, published: &str, names: &[&str]) -> ApiRelease {
    ApiRelease {
        tag_name: tag.into(),
        published_at: Some(published.into()),
        prerelease: false,
        assets: names.iter().map(|n| asset(n)).collect(),
    }
}

fn openrct2() -> Result<Vec<ApiRelease>, String> {
    let names = |tag: &str| {
        vec![
            format!("OpenRCT2-{tag}-android.apk"),
            format!("OpenRCT2-{tag}-Linux-bookworm-x86_64.tar.gz"),
            format!("OpenRCT2-{tag}-macos-universal.zip"),
            format!("OpenRCT2-{tag}-windows-portable-x64.zip"),
        ]
    };
    let release = |tag: &str, at: &str| {
        let names = names(tag);
        let names: Vec<&str> = names.iter().map(|n| n.as_str()).collect();
        listed(tag, at, &names)
    };
    Ok(vec![
        release("v0.4.28", "2026-01-04T10:00:00Z"),
        release("v0.4.30", "2026-03-01T10:00:00Z"),
        release("v0.4.29", "2026-02-01T10:00:00Z"),
    ])
}

fn develop() -> Result<Vec<ApiRelease>, String> {
    Ok(vec![listed(
        "v0.5.5-9-g394e588fc7",
        "2026-04-01T10:00:00Z",
        &["OpenRCT2-v0.5.5-9-g394e588fc7-macos-universal.zip"],
    )])
}

fn openloco() -> Result<Vec<ApiRelease>, String> {
    Ok(vec![listed(
        "v26.08",
        "2026-08-01T10:00:00Z",
        &[
            "OpenLoco-v26.08-linux-x64-glibc2.43.tar.gz",
            "OpenLoco-v26.08-macos-arm64.zip",
            "OpenLoco-v26.08-windows-portable-x64.zip",
        ],
    )])
}

#[test]
fn every_fixture_release_resolves_to_a_macos_download_on_apple_silicon() {
    for (name, json) in [("openrct2", openrct2()), ("develop", develop()), ("openloco", openloco())]
    {
        let releases = parse_releases(json, Channel::Release, HostArch::Arm64).unwrap();
        assert!(!releases.is_empty(), "{name} produced no releases");
        for r in &releases {
            assert!(
                r.download.url.starts_with("https://"),
                "{name}: {}",
                r.download.url
            );
            assert!(
                r.download.url.to_lowercase().contains("macos"),
                "{name} picked a non-macOS asset: {}",
                r.download.url
            );
            assert!(r.download.bytes > 0, "{name}: zero-byte download");
        }
    }
}

#[test]
fn openloco_yields_nothing_on_an_intel_mac() {
    // OpenLoco publishes an arm64-only macOS build.
    let releases = parse_releases(openloco(), Channel::Release, HostArch::X86_64).unwrap();
    assert!(
        releases.is_empty(),
        "arm64-only builds must not be offered on Intel"
    );
}

#[test]
fn openrct2_still_yields_releases_on_an_intel_mac() {
    // OpenRCT2 ships universal binaries.
    let releases = parse_releases(openrct2(), Channel::Release, HostArch::X86_64).unwrap();
    assert!(!releases.is_empty());
}

#[test]
fn publication_timestamps_are_parsed() {
    let releases = parse_releases(openrct2(), Channel::Release, HostArch::Arm64).unwrap();
    assert!(releases.iter().any(|r| r.published.is_some()));
    assert_eq!(releases[0].published, Timestamp::parse("2026-03-01T10:00:00Z"));
}

#[test]
fn the_channel_is_applied_to_every_release() {
    let releases = parse_releases(develop(), Channel::Develop, HostArch::Arm64).unwrap();
    assert!(releases.iter().all(|r| r.channel == Channel::Develop));
}

#[test]
fn a_release_with_no_usable_asset_is_dropped_not_errored() {
    let json = r#"[
        {"tag_name":"v1","published_at":null,"prerelease":false,"assets":[
            {"name":"only-windows-x64.zip","browser_download_url":"https://x/w.zip","size":1}]},
        {"tag_name":"v2","published_at":null,"prerelease":false,"assets":[
            {"name":"game-macos-universal.zip","browser_download_url":"https://x/m.zip","size":2}]}
    ]"#;
    let releases = parse_releases(page(json), Channel::Release, HostArch::Arm64).unwrap();
    assert_eq!(
        releases.len(),
        1,
        "the unusable release should vanish, not error"
    );
    assert_eq!(releases[0].tag, "v2");
}

#[test]
fn a_null_publication_date_parses() {
    let json = r#"[{"tag_name":"v1","published_at":null,"prerelease":false,"assets":[
        {"name":"g-macos.zip","browser_download_url":"https://x/m.zip","size":1}]}]"#;
    assert_eq!(
        parse_releases(page(json), Channel::Release, HostArch::Arm64).unwrap()[0].published,
        None
    );
}

#[test]
fn malformed_json_is_an_error_not_a_panic() {
    assert!(parse_releases(page("{oh no"), Channel::Release, HostArch::Arm64).is_err());
    assert!(parse_releases(page("[]"), Channel::Release, HostArch::Arm64)
        .unwrap()
        .is_empty());
}

#[test]
fn releases_come_back_newest_first() {
    let releases = parse_releases(openrct2(), Channel::Release, HostArch::Arm64).unwrap();
    let dated: Vec<_> = releases.iter().filter_map(|r| r.published).map(|t| t.nanos()).collect();
    let mut sorted = dated.clone();
    sorted.sort_by(|a, b| b.cmp(a));
    assert_eq!(dated, sorted);
}

fn tags(releases: &[Release]) -> Vec<&str> {
    releases.iter().map(|r| r.tag.as_str()).collect()
}

fn pre(tag: &str, published: &str) -> ApiRelease {
    ApiRelease { prerelease: true, ..listed(tag, published, &["a-macos-universal.zip"]) }
}

#[test]
fn the_latest_release_joins_a_page_that_holds_no_stable_one() {
    let gh = GitHub::new();
    let nightly = vec![pre("n2", "2026-02-02T00:00:00Z"), pre("n1", "2026-02-01T00:00:00Z")];
    assert!(page_has_no_stable_release(&nightly));
    assert!(page_has_no_stable_release(&vec![]));
    let stable = listed("v1", "2026-01-01T00:00:00Z", &["a-macos-universal.zip"]);
    assert!(!page_has_no_stable_release(&vec![stable]));

    let latest = vec![listed("v1", "2026-01-01T00:00:00Z", &["a-macos-universal.zip"])];
    let merged =
        gh.releases(Ok(nightly), Some(Ok(latest)), Channel::Release, HostArch::Arm64).unwrap();
    assert_eq!(tags(&merged), ["n2", "n1", "v1"]);

    // A page with nothing on it holds no stable release either.
    let latest = vec![listed("v1", "2026-01-01T00:00:00Z", &["a-macos-universal.zip"])];
    let merged =
        gh.releases(Ok(vec![]), Some(Ok(latest)), Channel::Release, HostArch::Arm64).unwrap();
    assert_eq!(tags(&merged), ["v1"]);

    // One that is listed already is not listed twice.
    let page = || Ok(vec![pre("n1", "2026-02-01T00:00:00Z")]);
    let again = Some(Ok(vec![listed("n1", "2026-02-01T00:00:00Z", &["a-macos-universal.zip"])]));
    let merged = gh.releases(page(), again, Channel::Release, HostArch::Arm64).unwrap();
    assert_eq!(tags(&merged), ["n1"]);
    let merged = gh.releases(page(), None, Channel::Release, HostArch::Arm64).unwrap();
    assert_eq!(tags(&merged), ["n1"]);
}

#[test]
fn development_builds_are_sorted_in() {
    let gh = GitHub::default();
    let stable = || parse_releases(openrct2(), Channel::Release, HostArch::Arm64);
    let nightly = || parse_releases(develop(), Channel::Develop, HostArch::Arm64);
    let both = gh.releases_for(stable(), Some(nightly())).unwrap();
    assert_eq!(tags(&both), ["v0.5.5-9-g394e588fc7", "v0.4.30", "v0.4.29", "v0.4.28"]);
    assert_eq!(gh.releases_for(stable(), None).unwrap().len(), 3);
    assert!(gh.releases_for(stable(), Some(Err(CoreError::RateLimited))).is_err());
    assert!(gh.releases_for(Err(CoreError::RateLimited), None).is_err());

    let asked = gh.repositories(GameId::OpenRCT2, true);
    assert_eq!(asked.len(), 2);
    assert_eq!((asked[1].0.name.as_str(), asked[1].1), ("OpenRCT2-binaries", Channel::Develop));
    assert_eq!(gh.repositories(GameId::OpenLoco, true).len(), 1);
    assert_eq!(gh.repositories(GameId::OpenRCT2, false).len(), 1);
}

#[test]
fn requests_go_to_the_repository_they_are_about() {
    let gh = GitHub::new();
    assert_eq!(
        gh.releases_url(&RepositoryName::new("OpenLoco", "OpenLoco")),
        "https://api.github.com/repos/OpenLoco/OpenLoco/releases?per_page=100&page=1"
    );
    assert_eq!(
        gh.latest_url("northbymidwest", "turnstile"),
        "https://api.github.com/repos/northbymidwest/turnstile/releases/latest"
    );
}

#[test]
fn an_exhausted_rate_limit_is_told_from_other_failures() {
    let gh = GitHub::new();
    let refused = |status: u16| {
        let message = format!("http status: {status}");
        gh.get(Answer::Refused { status, message }).unwrap_err().message()
    };
    assert!(refused(403).starts_with("GitHub's rate limit is reached."));
    assert_eq!(refused(404), "network request failed: http status: 404");
    assert_eq!(
        gh.get(Answer::Failed("no route".into())).unwrap_err().message(),
        "network request failed: no route"
    );
}
