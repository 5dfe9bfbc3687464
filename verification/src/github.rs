//! What GitHub publishes, and what this host can make of it.

use vstd::prelude::*;

use crate::asset;
use crate::asset::{choose_asset, Candidate, CandidateView, HostArch};
use crate::error::{CoreError, CoreErrorView};
use crate::game::{GameId, RepositoryName};
use crate::release;
use crate::release::{Channel, Download, Release, ReleaseView};
use crate::text;
use crate::text::{joined, same};
use crate::timestamp;
use crate::timestamp::Timestamp;

verus! {

broadcast use vstd::string::group_string_axioms;

/// How requests name their sender.
pub const USER_AGENT: &'static str = "Turnstile";

/// The version of the interface that requests ask for.
pub const API_VERSION: &'static str = "2022-11-28";

/// A release as GitHub lists it.
#[derive(Debug, PartialEq, Eq)]
pub struct ApiRelease {
    pub tag_name: String,
    pub published_at: Option<String>,
    pub prerelease: bool,
    pub assets: Vec<ApiAsset>,
}

/// A file of a release as GitHub lists it.
#[derive(Debug, PartialEq, Eq)]
pub struct ApiAsset {
    pub name: String,
    pub browser_download_url: String,
    pub size: u64,
}

/// A release as it is listed.
pub struct ApiReleaseView {
    pub tag_name: Seq<char>,
    pub published_at: Option<Seq<char>>,
    pub prerelease: bool,
    pub assets: Seq<CandidateView>,
}

/// What each file is.
pub open spec fn assets_of(v: Seq<ApiAsset>) -> Seq<CandidateView> {
    Seq::new(
        v.len(),
        |i: int|
            CandidateView { name: v[i].name@, url: v[i].browser_download_url@, bytes: v[i].size },
    )
}

impl View for ApiRelease {
    type V = ApiReleaseView;

    open spec fn view(&self) -> ApiReleaseView {
        ApiReleaseView {
            tag_name: self.tag_name@,
            published_at: text::opt_view(self.published_at),
            prerelease: self.prerelease,
            assets: assets_of(self.assets@),
        }
    }
}

/// What each release is listed as.
pub open spec fn listed(v: Seq<ApiRelease>) -> Seq<ApiReleaseView> {
    Seq::new(v.len(), |i: int| v[i]@)
}

/// When a release was published, where it says so in a way that can be read.
pub open spec fn published(api: ApiReleaseView) -> Option<int> {
    match api.published_at {
        Some(s) => timestamp::rfc3339_nanos(s),
        None => None,
    }
}

/// The release this host can install, with the file it would fetch.
pub open spec fn installable(
    api: ApiReleaseView,
    channel: Channel,
    host: HostArch,
    published: Option<int>,
) -> Option<ReleaseView> {
    match asset::choice(api.assets, host) {
        Some(i) => Some(
            ReleaseView {
                tag: api.tag_name,
                published,
                channel,
                url: api.assets[i].url,
                bytes: api.assets[i].bytes,
            },
        ),
        None => None,
    }
}

/// The releases this host can install, in the order they are listed.
pub open spec fn installables(api: Seq<ApiReleaseView>, channel: Channel, host: HostArch) -> Seq<
    ReleaseView,
>
    decreases api.len(),
{
    if api.len() == 0 {
        seq![]
    } else {
        let before = installables(api.drop_last(), channel, host);
        match installable(api.last(), channel, host, published(api.last())) {
            Some(r) => before.push(r),
            None => before,
        }
    }
}

/// The releases this host can install, newest first.
pub open spec fn offered(api: Seq<ApiReleaseView>, channel: Channel, host: HostArch) -> Seq<
    ReleaseView,
> {
    release::newest_first(installables(api, channel, host))
}

/// Whether a page lists nothing that is published: nothing but prereleases, if anything.
pub open spec fn lacks_stable(api: Seq<ApiReleaseView>) -> bool {
    forall|i: int| 0 <= i < api.len() ==> (#[trigger] api[i]).prerelease
}

/// Whether a tag is among releases.
pub open spec fn has_tag(s: Seq<ReleaseView>, tag: Seq<char>) -> bool {
    exists|i: int| 0 <= i < s.len() && (#[trigger] s[i]).tag == tag
}

/// Those of `extra` whose tag is not among `s`.
pub open spec fn missing_from(s: Seq<ReleaseView>, extra: Seq<ReleaseView>) -> Seq<ReleaseView>
    decreases extra.len(),
{
    if extra.len() == 0 {
        seq![]
    } else {
        let before = missing_from(s, extra.drop_last());
        if has_tag(s, extra.last().tag) {
            before
        } else {
            before.push(extra.last())
        }
    }
}

/// Two lists of releases as one.
pub open spec fn merged(s: Seq<ReleaseView>, extra: Seq<ReleaseView>) -> Seq<ReleaseView> {
    release::newest_first(s + missing_from(s, extra))
}

/// How an answer from GitHub came out.
#[derive(Debug)]
pub enum Answer {
    /// The server refused, with a status.
    Refused { status: u16, message: String },
    /// There was no answer.
    Failed(String),
    /// The server answered: how many requests are left, as the header gives it, and
    /// the text or why it could not be read.
    Answered { remaining: Option<Vec<u8>>, body: Result<String, String> },
}

/// The outcome of something that gives a text.
pub open spec fn text_outcome(r: Result<String, CoreError>) -> Result<
    Seq<char>,
    CoreErrorView,
> {
    match r {
        Ok(s) => Ok(s@),
        Err(e) => Err(e@),
    }
}

/// The outcome of something that gives releases.
pub open spec fn releases_outcome(r: Result<Vec<Release>, CoreError>) -> Result<
    Seq<ReleaseView>,
    CoreErrorView,
> {
    match r {
        Ok(v) => Ok(release::releases_of(v@)),
        Err(e) => Err(e@),
    }
}

/// What an answer comes to.
pub open spec fn answered(a: Answer) -> Result<Seq<char>, CoreErrorView> {
    match a {
        Answer::Refused { status, message } => if status == 403 {
            Err(CoreErrorView::RateLimited)
        } else {
            Err(CoreErrorView::Http(message@))
        },
        Answer::Failed(message) => Err(CoreErrorView::Http(message@)),
        Answer::Answered { remaining, body } => if remaining is Some && remaining->0@ == seq![48u8] {
            Err(CoreErrorView::RateLimited)
        } else {
            match body {
                Ok(s) => Ok(s@),
                Err(m) => Err(CoreErrorView::Http(m@)),
            }
        },
    }
}

/// What a page and, where it was asked for, the latest release come to.
pub open spec fn page_outcome(
    page: Result<Vec<ApiRelease>, String>,
    latest: Option<Result<Vec<ApiRelease>, String>>,
    channel: Channel,
    host: HostArch,
) -> Result<Seq<ReleaseView>, CoreErrorView> {
    match page {
        Err(m) => Err(CoreErrorView::Json(m@)),
        Ok(api) => {
            let offered_here = offered(listed(api@), channel, host);
            if lacks_stable(listed(api@)) {
                match latest {
                    Some(Ok(extra)) => Ok(
                        merged(offered_here, offered(listed(extra@), channel, host)),
                    ),
                    _ => Ok(offered_here),
                }
            } else {
                Ok(offered_here)
            }
        },
    }
}

/// The file of a release to fetch, as a release.
pub fn to_release(
    api: ApiRelease,
    channel: Channel,
    host: HostArch,
    published: Option<Timestamp>,
) -> (r: Option<Release>)
    ensures
        r is Some <==> installable(api@, channel, host, release::instant(published)) is Some,
        r matches Some(found) ==> installable(api@, channel, host, release::instant(published))
            == Some(found@),
{
    let mut candidates: Vec<Candidate> = Vec::new();
    let mut i: usize = 0;
    while i < api.assets.len()
        invariant
            i <= api.assets.len(),
            candidates@.len() == i,
            forall|j: int|
                0 <= j < i ==> (#[trigger] candidates@[j])@ == assets_of(api.assets@)[j],
        decreases api.assets.len() - i,
    {
        let a: &ApiAsset = &api.assets[i];
        candidates.push(
            Candidate {
                name: a.name.clone(),
                url: a.browser_download_url.clone(),
                bytes: a.size,
            },
        );
        i += 1;
    }
    assert(asset::candidates_of(candidates@) =~= assets_of(api.assets@));
    proof {
        asset::choice_is_best(assets_of(api.assets@), host, api.assets@.len() as int);
    }
    match choose_asset(&candidates, host) {
        Some(picked) => {
            let url: String = picked.url.clone();
            let bytes: u64 = picked.bytes;
            Some(
                Release {
                    tag: api.tag_name,
                    published,
                    channel,
                    download: Download { url, bytes },
                },
            )
        },
        None => None,
    }
}

/// When a release was published.
fn published_of(api: &ApiRelease) -> (r: Option<Timestamp>)
    ensures
        release::instant(r) == published(api@),
{
    match &api.published_at {
        Some(s) => Timestamp::parse(s.as_str()),
        None => None,
    }
}

/// Takes a release list and resolves each one's download in the same pass. A release
/// with nothing this host can run is dropped: it is not an error, it simply is not
/// installable here. `json` is what the list was read as, or why it could not be read.
pub fn parse_releases(
    json: Result<Vec<ApiRelease>, String>,
    channel: Channel,
    host: HostArch,
) -> (r: Result<Vec<Release>, CoreError>)
    ensures
        releases_outcome(r) == match json {
            Ok(api) => Ok(offered(listed(api@), channel, host)),
            Err(m) => Err(CoreErrorView::Json(m@)),
        },
{
    match json {
        Ok(api) => Ok(offer(api, channel, host)),
        Err(m) => Err(CoreError::Json(m)),
    }
}

/// The releases this host can install, newest first.
fn offer(api: Vec<ApiRelease>, channel: Channel, host: HostArch) -> (releases: Vec<Release>)
    ensures
        release::releases_of(releases@) == offered(listed(api@), channel, host),
{
    let ghost all = listed(api@);
    let mut rest: Vec<ApiRelease> = api;
    let mut releases: Vec<Release> = Vec::new();
    let ghost mut done: int = 0;
    proof {
        assert(all.take(0) =~= seq![]);
        assert(all.skip(0) =~= all);
        assert(release::releases_of(releases@) =~= seq![]);
    }
    while rest.len() > 0
        invariant
            0 <= done <= all.len(),
            listed(rest@) == all.skip(done),
            release::releases_of(releases@) == installables(all.take(done), channel, host),
        decreases rest.len(),
    {
        let ghost before = rest@;
        let item: ApiRelease = rest.remove(0);
        proof {
            assert(item@ == listed(before)[0]);
            assert(listed(rest@) =~= listed(before).drop_first());
            assert(all.skip(done).drop_first() =~= all.skip(done + 1));
            assert(all.take(done + 1).drop_last() =~= all.take(done));
            assert(all.take(done + 1).last() == item@);
            done = done + 1;
        }
        let published: Option<Timestamp> = published_of(&item);
        let ghost sofar = release::releases_of(releases@);
        match to_release(item, channel, host, published) {
            Some(release) => {
                let ghost view = release@;
                releases.push(release);
                assert(release::releases_of(releases@) =~= sofar.push(view));
            },
            None => {},
        }
    }
    assert(all.take(done) =~= all);
    Release::sort_newest_first(&mut releases);
    releases
}

/// True when a page contains no published (non-prerelease) entry, which is the only case
/// where asking for the latest release is worth a request.
pub fn page_has_no_stable_release(api: &Vec<ApiRelease>) -> (r: bool)
    ensures
        r == lacks_stable(listed(api@)),
{
    let ghost all = listed(api@);
    let mut i: usize = 0;
    while i < api.len()
        invariant
            i <= api.len(),
            all == listed(api@),
            forall|j: int| 0 <= j < i ==> (#[trigger] all[j]).prerelease,
        decreases api.len() - i,
    {
        if !api[i].prerelease {
            assert(!all[i as int].prerelease);
            return false;
        }
        i += 1;
    }
    true
}

fn tag_is_among(releases: &Vec<Release>, tag: &str) -> (r: bool)
    ensures
        r == has_tag(release::releases_of(releases@), tag@),
{
    let ghost all = release::releases_of(releases@);
    let mut i: usize = 0;
    while i < releases.len()
        invariant
            i <= releases.len(),
            all == release::releases_of(releases@),
            forall|j: int| 0 <= j < i ==> (#[trigger] all[j]).tag != tag@,
        decreases releases.len() - i,
    {
        if same(releases[i].tag.as_str(), tag) {
            assert(all[i as int].tag == tag@);
            return true;
        }
        i += 1;
    }
    false
}

/// Adds those of `extra` whose tag is not there yet.
fn merge(releases: Vec<Release>, extra: Vec<Release>) -> (out: Vec<Release>)
    ensures
        release::releases_of(out@) == merged(
            release::releases_of(releases@),
            release::releases_of(extra@),
        ),
{
    let ghost s = release::releases_of(releases@);
    let ghost all = release::releases_of(extra@);
    let mut rest: Vec<Release> = extra;
    let mut added: Vec<Release> = Vec::new();
    let ghost mut done: int = 0;
    proof {
        assert(all.take(0) =~= seq![]);
        assert(all.skip(0) =~= all);
        assert(release::releases_of(added@) =~= seq![]);
    }
    while rest.len() > 0
        invariant
            0 <= done <= all.len(),
            s == release::releases_of(releases@),
            release::releases_of(rest@) == all.skip(done),
            release::releases_of(added@) == missing_from(s, all.take(done)),
        decreases rest.len(),
    {
        let ghost before = rest@;
        let item: Release = rest.remove(0);
        let ghost sofar = release::releases_of(added@);
        proof {
            assert(item@ == release::releases_of(before)[0]);
            assert(release::releases_of(rest@) =~= release::releases_of(before).drop_first());
            assert(all.skip(done).drop_first() =~= all.skip(done + 1));
            assert(all.take(done + 1).drop_last() =~= all.take(done));
            assert(all.take(done + 1).last() == item@);
            done = done + 1;
        }
        if !tag_is_among(&releases, item.tag.as_str()) {
            let ghost view = item@;
            added.push(item);
            assert(release::releases_of(added@) =~= sofar.push(view));
        }
    }
    assert(all.take(done) =~= all);
    let mut out: Vec<Release> = releases;
    let ghost first = out@;
    let ghost more = added@;
    out.append(&mut added);
    assert(release::releases_of(out@) =~= release::releases_of(first) + release::releases_of(
        more,
    ));
    Release::sort_newest_first(&mut out);
    out
}

/// GitHub, as far as it is asked anything.
#[derive(Debug, Clone, Copy, PartialEq, Eq, Structural)]
pub struct GitHub;

impl Default for GitHub {
    fn default() -> (g: GitHub)
        ensures
            g == GitHub,
    {
        GitHub
    }
}

impl GitHub {
    pub fn new() -> (g: GitHub)
        ensures
            g == GitHub,
    {
        GitHub
    }

    /// Where a repository's releases are asked for.
    pub open spec fn repo_url(owner: Seq<char>, name: Seq<char>) -> Seq<char> {
        "https://api.github.com/repos/"@ + owner + "/"@ + name + "/releases"@
    }

    fn base_url(owner: &str, name: &str) -> (out: String)
        ensures
            out@ == GitHub::repo_url(owner@, name@),
    {
        let a: String = joined("https://api.github.com/repos/", owner);
        let b: String = joined(joined(a.as_str(), "/").as_str(), name);
        joined(b.as_str(), "/releases")
    }

    /// Where the first page of a repository's releases is.
    pub fn releases_url(&self, repo: &RepositoryName) -> (out: String)
        ensures
            out@ == GitHub::repo_url(repo.owner@, repo.name@) + "?per_page=100&page=1"@,
    {
        joined(
            GitHub::base_url(repo.owner.as_str(), repo.name.as_str()).as_str(),
            "?per_page=100&page=1",
        )
    }

    /// Where a repository's latest release is.
    pub fn latest_url(&self, owner: &str, name: &str) -> (out: String)
        ensures
            out@ == GitHub::repo_url(owner@, name@) + "/latest"@,
    {
        joined(GitHub::base_url(owner, name).as_str(), "/latest")
    }

    /// What an answer comes to. A refusal with the status for it, or an answer after
    /// which no request is left, means that the rate limit is reached.
    pub fn get(&self, answer: Answer) -> (r: Result<String, CoreError>)
        ensures
            text_outcome(r) == answered(answer),
    {
        match answer {
            Answer::Refused { status, message } => if status == 403 {
                Err(CoreError::RateLimited)
            } else {
                Err(CoreError::Http(message))
            },
            Answer::Failed(message) => Err(CoreError::Http(message)),
            Answer::Answered { remaining, body } => {
                let spent: bool = match &remaining {
                    Some(bytes) => bytes.len() == 1 && bytes[0] == 48,
                    None => false,
                };
                proof {
                    if remaining is Some {
                        let bytes = remaining->0@;
                        if bytes.len() == 1 && bytes[0] == 48 {
                            assert(bytes =~= seq![48u8]);
                        }
                    }
                }
                if spent {
                    return Err(CoreError::RateLimited);
                }
                match body {
                    Ok(s) => Ok(s),
                    Err(m) => Err(CoreError::Http(m)),
                }
            },
        }
    }

    /// The releases of a repository, from the first page of them and, where that page
    /// `page_has_no_stable_release`, from the latest release, if that could be had.
    pub fn releases(
        &self,
        page: Result<Vec<ApiRelease>, String>,
        latest: Option<Result<Vec<ApiRelease>, String>>,
        channel: Channel,
        host: HostArch,
    ) -> (r: Result<Vec<Release>, CoreError>)
        ensures
            releases_outcome(r) == page_outcome(page, latest, channel, host),
    {
        match page {
            Err(m) => Err(CoreError::Json(m)),
            Ok(api) => {
                let unstable: bool = page_has_no_stable_release(&api);
                let releases: Vec<Release> = offer(api, channel, host);
                if unstable {
                    match latest {
                        Some(Ok(extra)) => Ok(merge(releases, offer(extra, channel, host))),
                        _ => Ok(releases),
                    }
                } else {
                    Ok(releases)
                }
            },
        }
    }

    /// The repositories to ask for a game's releases, and what each holds.
    pub fn repositories(&self, game: GameId, include_develop: bool) -> (out: Vec<
        (RepositoryName, Channel),
    >)
        ensures
            out@.len() == if include_develop && game == GameId::OpenRCT2 {
                2int
            } else {
                1
            },
            out@[0].0.owner@ == game.title(),
            out@[0].0.name@ == game.title(),
            out@[0].1 == Channel::Release,
            out@.len() == 2 ==> out@[1].0.owner@ == "OpenRCT2"@ && out@[1].0.name@
                == "OpenRCT2-binaries"@ && out@[1].1 == Channel::Develop,
    {
        let mut out: Vec<(RepositoryName, Channel)> = Vec::new();
        out.push((game.release_repo(), Channel::Release));
        if include_develop {
            match game.develop_repo() {
                Some(repo) => out.push((repo, Channel::Develop)),
                None => {},
            }
        }
        out
    }

    /// All of a game's releases, from those of each repository that was asked, in turn.
    /// One that could not be had is an error.
    pub fn releases_for(
        &self,
        stable: Result<Vec<Release>, CoreError>,
        develop: Option<Result<Vec<Release>, CoreError>>,
    ) -> (r: Result<Vec<Release>, CoreError>)
        ensures
            releases_outcome(r) == match releases_outcome(stable) {
                Err(e) => Err(e),
                Ok(s) => match develop {
                    None => Ok(release::newest_first(s)),
                    Some(Err(e)) => Err(e@),
                    Some(Ok(more)) => Ok(
                        release::newest_first(s + release::releases_of(more@)),
                    ),
                },
            },
    {
        let mut releases: Vec<Release> = match stable {
            Ok(releases) => releases,
            Err(e) => {
                return Err(e);
            },
        };
        match develop {
            None => {},
            Some(Err(e)) => {
                return Err(e);
            },
            Some(Ok(more)) => {
                let ghost first = releases@;
                let mut more: Vec<Release> = more;
                let ghost second = more@;
                releases.append(&mut more);
                assert(release::releases_of(releases@) =~= release::releases_of(first)
                    + release::releases_of(second));
            },
        }
        Release::sort_newest_first(&mut releases);
        Ok(releases)
    }
}

/// A list of releases holds no release the host cannot run: each comes from a listed one
/// with a file that fits.
pub proof fn offered_releases_run_here(
    api: Seq<ApiReleaseView>,
    channel: Channel,
    host: HostArch,
    k: int,
)
    requires
        0 <= k < installables(api, channel, host).len(),
    ensures
        exists|i: int, j: int|
            0 <= i < api.len() && 0 <= j < api[i].assets.len() && asset::fits(
                (#[trigger] api[i].assets[j]).name,
                host,
            ) && installables(api, channel, host)[k].url == api[i].assets[j].url && installables(
                api,
                channel,
                host,
            )[k].tag == api[i].tag_name,
    decreases api.len(),
{
    let init = api.drop_last();
    let last = api.last();
    let before = installables(init, channel, host);
    if k < before.len() {
        offered_releases_run_here(init, channel, host, k);
        let (i, j) = choose|i: int, j: int|
            0 <= i < init.len() && 0 <= j < init[i].assets.len() && asset::fits(
                (#[trigger] init[i].assets[j]).name,
                host,
            ) && before[k].url == init[i].assets[j].url && before[k].tag == init[i].tag_name;
        assert(api[i] == init[i]);
        assert(asset::fits(api[i].assets[j].name, host));
    } else {
        asset::choice_is_best(last.assets, host, last.assets.len() as int);
        let j = asset::choice(last.assets, host)->0;
        assert(api[api.len() - 1] == last);
        assert(asset::fits(api[api.len() - 1].assets[j].name, host));
    }
}

/// Adding the latest release to a page never lists a tag twice that was on the page once.
pub proof fn merging_adds_no_doubles(s: Seq<ReleaseView>, extra: Seq<ReleaseView>, k: int)
    requires
        0 <= k < missing_from(s, extra).len(),
    ensures
        !has_tag(s, missing_from(s, extra)[k].tag),
    decreases extra.len(),
{
    let before = missing_from(s, extra.drop_last());
    if k < before.len() {
        merging_adds_no_doubles(s, extra.drop_last(), k);
    }
}

/// Whether a listed release has a file that fits.
pub open spec fn has_fit(host: HostArch) -> spec_fn(ApiReleaseView) -> bool {
    |r: ApiReleaseView|
        exists|j: int| 0 <= j < r.assets.len() && asset::fits((#[trigger] r.assets[j]).name, host)
}

proof fn fitting_is_installable(r: ApiReleaseView, channel: Channel, host: HostArch)
    ensures
        has_fit(host)(r) <==> installable(r, channel, host, published(r)) is Some,
{
    asset::choice_is_best(r.assets, host, r.assets.len() as int);
    if has_fit(host)(r) {
        let j = choose|j: int|
            0 <= j < r.assets.len() && asset::fits((#[trigger] r.assets[j]).name, host);
        assert(asset::fits(r.assets[j].name, host));
    }
    if installable(r, channel, host, published(r)) is Some {
        let i = asset::choice(r.assets, host)->0;
        assert(asset::fits(r.assets[i].name, host));
    }
}

proof fn installables_are_the_fitting(
    api: Seq<ApiReleaseView>,
    channel: Channel,
    host: HostArch,
)
    ensures
        installables(api, channel, host).len() == api.filter(has_fit(host)).len(),
        forall|k: int|
            0 <= k < installables(api, channel, host).len() ==> Some(
                #[trigger] installables(api, channel, host)[k],
            ) == installable(
                api.filter(has_fit(host))[k],
                channel,
                host,
                published(api.filter(has_fit(host))[k]),
            ),
    decreases api.len(),
{
    reveal(Seq::filter);
    if api.len() > 0 {
        installables_are_the_fitting(api.drop_last(), channel, host);
        fitting_is_installable(api.last(), channel, host);
    }
}

/// Nothing this machine can install is left off the list, and nothing else is on it: there
/// are as many releases on it as are listed with a file that fits, and each of those is on
/// it with its own tag, its own date, and the file that was chosen for it.
pub proof fn every_fitting_release_is_offered(
    api: Seq<ApiReleaseView>,
    channel: Channel,
    host: HostArch,
    i: int,
)
    requires
        0 <= i < api.len(),
    ensures
        offered(api, channel, host).len() == api.filter(has_fit(host)).len(),
        (exists|j: int|
            0 <= j < api[i].assets.len() && asset::fits((#[trigger] api[i].assets[j]).name, host))
            ==> asset::choice(api[i].assets, host) is Some && offered(api, channel, host).contains(
            ReleaseView {
                tag: api[i].tag_name,
                published: match api[i].published_at {
                    Some(s) => timestamp::rfc3339_nanos(s),
                    None => None,
                },
                channel,
                url: api[i].assets[asset::choice(api[i].assets, host)->0].url,
                bytes: api[i].assets[asset::choice(api[i].assets, host)->0].bytes,
            },
        ),
{
    let all = installables(api, channel, host);
    let kept = api.filter(has_fit(host));
    installables_are_the_fitting(api, channel, host);
    release::newest_first_is_sorted(all);
    let r = api[i];
    fitting_is_installable(r, channel, host);
    if has_fit(host)(r) {
        broadcast use vstd::seq_lib::group_filter_ensures;

        assert(kept.contains(api[i]));
        let k = kept.index_of(r);
        let one = all[k];
        assert(Some(one) == installable(kept[k], channel, host, published(kept[k])));
        assert(all.contains(one));
        listed_again(all, one);
    }
}

/// What is among releases is among them in order.
pub(crate) proof fn listed_again(s: Seq<ReleaseView>, one: ReleaseView)
    requires
        s.contains(one),
    ensures
        release::newest_first(s).contains(one),
{
    broadcast use vstd::seq_lib::group_to_multiset_ensures;

    release::newest_first_is_sorted(s);
    assert(s.to_multiset().contains(one));
    assert(release::newest_first(s).to_multiset().contains(one));
}

/// Two lists become one with everything of the first in it, and everything of the second
/// whose tag the first has not got.
pub proof fn merging_loses_nothing(s: Seq<ReleaseView>, extra: Seq<ReleaseView>, i: int)
    ensures
        0 <= i < s.len() ==> merged(s, extra).contains(s[i]),
        0 <= i < extra.len() && (forall|k: int|
            0 <= k < s.len() ==> (#[trigger] s[k]).tag != extra[i].tag) ==> merged(
            s,
            extra,
        ).contains(extra[i]),
        merged(s, extra).len() <= s.len() + extra.len(),
        merged(s, extra).len() >= s.len(),
{
    let both = s + missing_from(s, extra);
    release::newest_first_is_sorted(both);
    missing_is_no_more(s, extra);
    if 0 <= i < s.len() {
        assert(both[i] == s[i]);
        listed_again(both, s[i]);
    }
    if 0 <= i < extra.len() && (forall|k: int|
        0 <= k < s.len() ==> (#[trigger] s[k]).tag != extra[i].tag) {
        missing_is_there(s, extra, i);
        let j = missing_from(s, extra).index_of(extra[i]);
        assert(both[s.len() + j] == extra[i]);
        listed_again(both, extra[i]);
    }
}

proof fn missing_is_no_more(s: Seq<ReleaseView>, extra: Seq<ReleaseView>)
    ensures
        missing_from(s, extra).len() <= extra.len(),
    decreases extra.len(),
{
    if extra.len() > 0 {
        missing_is_no_more(s, extra.drop_last());
    }
}

proof fn missing_is_there(s: Seq<ReleaseView>, extra: Seq<ReleaseView>, i: int)
    requires
        0 <= i < extra.len(),
        forall|k: int| 0 <= k < s.len() ==> (#[trigger] s[k]).tag != extra[i].tag,
    ensures
        missing_from(s, extra).contains(extra[i]),
    decreases extra.len(),
{
    let init = extra.drop_last();
    let now = missing_from(s, extra);
    if i < init.len() {
        missing_is_there(s, init, i);
        let j = missing_from(s, init).index_of(extra[i]);
        assert(now[j] == extra[i]);
    } else {
        assert(!has_tag(s, extra[i].tag));
        assert(now[now.len() - 1] == extra[i]);
    }
}

/// A page that lists anything but prereleases is all that counts; the latest release joins
/// one that does not, where it could be had. A page that cannot be read is an error.
pub proof fn the_latest_release_fills_a_gap(
    page: Vec<ApiRelease>,
    latest: Option<Result<Vec<ApiRelease>, String>>,
    channel: Channel,
    host: HostArch,
    reason: String,
)
    ensures
        ({
            let here = offered(listed(page@), channel, host);
            let stable = exists|i: int| 0 <= i < page@.len() && !(#[trigger] page@[i]).prerelease;
            let outcome = page_outcome(Ok(page), latest, channel, host);
            &&& stable ==> outcome == Ok::<Seq<ReleaseView>, CoreErrorView>(here)
            &&& !stable && !(latest matches Some(Ok(_))) ==> outcome == Ok::<
                Seq<ReleaseView>,
                CoreErrorView,
            >(here)
            &&& latest matches Some(Ok(extra)) ==> (!stable ==> outcome == Ok::<
                Seq<ReleaseView>,
                CoreErrorView,
            >(merged(here, offered(listed(extra@), channel, host))))
            &&& page_outcome(Err(reason), latest, channel, host) == Err::<
                Seq<ReleaseView>,
                CoreErrorView,
            >(CoreErrorView::Json(reason@))
        }),
{
    let all = listed(page@);
    assert(lacks_stable(all) == !(exists|i: int|
        0 <= i < page@.len() && !(#[trigger] page@[i]).prerelease)) by {
        if exists|i: int| 0 <= i < page@.len() && !(#[trigger] page@[i]).prerelease {
            let i = choose|i: int| 0 <= i < page@.len() && !(#[trigger] page@[i]).prerelease;
            assert(!all[i].prerelease);
        } else {
            assert forall|i: int| 0 <= i < all.len() implies (#[trigger] all[i]).prerelease by {
                assert(page@[i].prerelease);
            }
        }
    }
}

/// A request refused with the status for it, or answered as the last one that is allowed,
/// is said to be over the limit. Every other failure is said as it is, and the text of
/// every other answer is handed on as it is.
pub proof fn answers_are_handed_on(status: u16, message: String, left: Vec<u8>, body: String)
    ensures
        answered(Answer::Refused { status, message }) == if status == 403 {
            Err::<Seq<char>, CoreErrorView>(CoreErrorView::RateLimited)
        } else {
            Err(CoreErrorView::Http(message@))
        },
        answered(Answer::Failed(message)) == Err::<Seq<char>, CoreErrorView>(
            CoreErrorView::Http(message@),
        ),
        answered(Answer::Answered { remaining: None, body: Ok(body) }) == Ok::<
            Seq<char>,
            CoreErrorView,
        >(body@),
        answered(Answer::Answered { remaining: Some(left), body: Ok(body) }) == if left@.len() == 1
            && left@[0] == 48 {
            Err::<Seq<char>, CoreErrorView>(CoreErrorView::RateLimited)
        } else {
            Ok(body@)
        },
        answered(Answer::Answered { remaining: None, body: Err(message) }) == Err::<
            Seq<char>,
            CoreErrorView,
        >(CoreErrorView::Http(message@)),
{
    if left@.len() == 1 && left@[0] == 48 {
        assert(left@ =~= seq![48u8]);
    }
}

/// Releases are asked for at the repository they are about.
pub proof fn requests_name_the_repository(owner: Seq<char>, name: Seq<char>)
    ensures
        GitHub::repo_url(owner, name) == "https://api.github.com/repos/"@ + owner + "/"@ + name
            + "/releases"@,
{
}

} // verus!
