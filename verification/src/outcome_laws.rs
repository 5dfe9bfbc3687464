//! What the functions that are called from outside give back, said by what is handed to
//! them: each law takes a call's arguments and a result that the call may have, and says
//! how the one follows from the other.

use vstd::prelude::*;

use crate::age::Age;
use crate::asset;
use crate::asset::HostArch;
use crate::controller;
use crate::controller::Lane;
use crate::dirs::Dirs;
use crate::download::{Fraction, Progress, Status, Transfer};
use crate::error::CoreError;
use crate::extract;
use crate::extract::{ArchiveKind, Command, Ran};
use crate::game;
use crate::game::{GameId, RepositoryName};
use crate::gamedata;
use crate::gamedata::{InstallerFile, OriginalGame};
use crate::gamedata_laws;
use crate::github;
use crate::github::{ApiRelease, GitHub};
use crate::install;
use crate::install::Started;
use crate::path;
use crate::prefs;
use crate::prefs::Prefs;
use crate::release;
use crate::release::{Channel, Release};
use crate::screen;
use crate::screen::{Bar, Notice, Screen};
use crate::search;
use crate::selfupdate;
use crate::selfupdate::{LatestRelease, Update};
use crate::state;
use crate::state::{Effect, ReleaseRow, UiState};
use crate::store::{DisableReport, Installed};
use crate::strings;
use crate::strings::Bundle;
use crate::text;
use crate::timestamp::Timestamp;

verus! {

broadcast use vstd::string::group_string_axioms;

// ---------------------------------------------------------------------------
// Installers
// ---------------------------------------------------------------------------

/// Whether one of the files that go into the game directory -- those without a directory
/// constant, and those with the one for it -- is called `exe`, in whatever case.
pub open spec fn brings(files: Seq<InstallerFile>, exe: Seq<char>) -> bool {
    exists|i: int|
        0 <= i < files.len() && ((#[trigger] files[i]).root is None || files[i].root->0@ == "app"@)
            && text::lowercased(files[i].path@) == exe
}

proof fn brought_is_seen(files: Seq<InstallerFile>, exe: Seq<char>)
    ensures
        brings(files, exe) == gamedata_laws::has_program(gamedata::files_of(files), exe),
{
    let views = gamedata::files_of(files);
    if brings(files, exe) {
        let i = choose|i: int|
            0 <= i < files.len() && ((#[trigger] files[i]).root is None || files[i].root->0@
                == "app"@) && text::lowercased(files[i].path@) == exe;
        assert(views[i].root is None || views[i].root == Some("app"@));
    }
    if gamedata_laws::has_program(views, exe) {
        let i = choose|i: int|
            0 <= i < views.len() && ((#[trigger] views[i]).root is None || views[i].root == Some(
                "app"@,
            )) && text::lowercased(views[i].path) == exe;
        assert(files[i].root is None || files[i].root->0@ == "app"@);
    }
}

/// An installer is told by the program it brings.
pub proof fn installers_are_identified(files: &Vec<InstallerFile>, r: Option<OriginalGame>)
    requires
        call_ensures(gamedata::identify, (files,), r),
    ensures
        brings(files@, "rct.exe"@) ==> r == Some(OriginalGame::RollerCoasterTycoon1),
        brings(files@, "rct2.exe"@) && !brings(files@, "rct.exe"@) ==> r == Some(
            OriginalGame::RollerCoasterTycoon2,
        ),
        brings(files@, "loco.exe"@) && !brings(files@, "rct.exe"@) && !brings(files@, "rct2.exe"@)
            ==> r == Some(OriginalGame::Locomotion),
        !brings(files@, "rct.exe"@) && !brings(files@, "rct2.exe"@) && !brings(files@, "loco.exe"@)
            ==> r is None,
{
    brought_is_seen(files@, "rct.exe"@);
    brought_is_seen(files@, "rct2.exe"@);
    brought_is_seen(files@, "loco.exe"@);
    gamedata_laws::installers_are_told_by_their_program(gamedata::files_of(files@));
}

// ---------------------------------------------------------------------------
// A newer launcher
// ---------------------------------------------------------------------------

/// A later release is announced with the page it is published on; the same one and an
/// earlier one are not.
pub proof fn later_launchers_are_announced(
    api: LatestRelease,
    current: &str,
    r: Result<Option<Update>, CoreError>,
    a: (nat, nat, nat),
    b: (nat, nat, nat),
)
    requires
        call_ensures(selfupdate::parse_latest, (Ok(api), current), r),
        a.0 <= u64::MAX && a.1 <= u64::MAX && a.2 <= u64::MAX,
        b.0 <= u64::MAX && b.1 <= u64::MAX && b.2 <= u64::MAX,
        api.tag_name@ == selfupdate::written(a),
        current@ == selfupdate::written(b),
    ensures
        r is Ok,
        r->Ok_0 is Some <==> a.0 > b.0 || a.0 == b.0 && a.1 > b.1 || a.0 == b.0 && a.1 == b.1
            && a.2 > b.2,
        r->Ok_0 matches Some(update) ==> update.url@ == api.html_url@ && update.version@
            == api.tag_name@,
{
    selfupdate::later_versions_are_announced(a, b);
    let v = text::decimal(a.0);
    crate::text_laws::numbers_are_read(a.0, v);
    crate::text_lemmas::decimal_is_read_back(a.0);
    assert(text::is_digit(v[0]));
    assert(api.tag_name@[0] == v[0]);
}

/// An answer that cannot be understood is an error, and says why.
pub proof fn unread_launchers_are_said(
    message: String,
    current: &str,
    r: Result<Option<Update>, CoreError>,
)
    requires
        call_ensures(selfupdate::parse_latest, (Err(message), current), r),
    ensures
        r is Err,
        r->Err_0 is Json,
        r->Err_0->Json_0@ == message@,
{
}

/// What could not be found out about a newer launcher is not said at all.
pub proof fn update_checks_are_quiet(found: Result<Option<Update>, CoreError>, msg: state::Msg)
    requires
        call_ensures(controller::update_checked, (found,), msg),
    ensures
        msg is UpdateChecked,
        found is Err ==> msg->UpdateChecked_0 is None,
        found is Ok ==> (msg->UpdateChecked_0 is Some <==> found->Ok_0 is Some),
        found is Ok && found->Ok_0 is Some ==> msg->UpdateChecked_0->0.version@
            == found->Ok_0->0.version@ && msg->UpdateChecked_0->0.url@ == found->Ok_0->0.url@,
{
}

// ---------------------------------------------------------------------------
// Releases
// ---------------------------------------------------------------------------

/// Everything that is listed with a file for this machine is offered, newest first.
pub proof fn listed_builds_are_offered(
    api: Vec<ApiRelease>,
    channel: Channel,
    host: HostArch,
    r: Result<Vec<Release>, CoreError>,
    i: int,
    j: int,
)
    requires
        call_ensures(github::parse_releases, (Ok(api), channel, host), r),
        0 <= i < api@.len(),
        0 <= j < api@[i].assets@.len(),
        asset::is_a_build_for(api@[i].assets@[j].name@, host),
    ensures
        r is Ok,
        exists|k: int, f: int|
            #![trigger r->Ok_0@[k], api@[i].assets@[f]]
            0 <= k < r->Ok_0@.len() && 0 <= f < api@[i].assets@.len() && r->Ok_0@[k].tag@
                == api@[i].tag_name@ && r->Ok_0@[k].channel == channel
                && r->Ok_0@[k].download.url@ == api@[i].assets@[f].browser_download_url@
                && r->Ok_0@[k].download.bytes == api@[i].assets@[f].size
                && asset::is_a_build_for(api@[i].assets@[f].name@, host),
{
    let views = github::listed(api@);
    let one = views[i];
    assert(one.assets[j].name == api@[i].assets@[j].name@);
    asset::what_is_chosen_can_be_used(one.assets, host);
    assert(asset::is_a_build_for(one.assets[j].name, host) == asset::fits(
        one.assets[j].name,
        host,
    ));
    github::every_fitting_release_is_offered(views, channel, host, i);
    let f = asset::choice(one.assets, host)->0;
    let all = github::offered(views, channel, host);
    let seen = release::releases_of(r->Ok_0@);
    assert(seen == all);
    let wanted = release::ReleaseView {
        tag: one.tag_name,
        published: github::published(one),
        channel,
        url: one.assets[f].url,
        bytes: one.assets[f].bytes,
    };
    assert(all.contains(wanted));
    let k = all.index_of(wanted);
    assert(all[k] == wanted);
    assert(r->Ok_0@[k]@ == wanted);
    assert(api@[i].assets@[f].name@ == one.assets[f].name);
}

/// The stable releases come from the game's own repository, and the development builds,
/// where they are asked for, from the one repository that has any.
pub proof fn builds_come_from_their_repositories(
    github: &GitHub,
    game: GameId,
    develop: bool,
    out: Vec<(RepositoryName, Channel)>,
)
    requires
        call_ensures(GitHub::repositories, (github, game, develop), out),
    ensures
        out@.len() == 2 <==> develop && game == GameId::OpenRCT2,
        out@.len() == 1 || out@.len() == 2,
        out@[0].1 == Channel::Release,
        game == GameId::OpenRCT2 ==> out@[0].0.owner@ == "OpenRCT2"@ && out@[0].0.name@
            == "OpenRCT2"@,
        game == GameId::OpenLoco ==> out@[0].0.owner@ == "OpenLoco"@ && out@[0].0.name@
            == "OpenLoco"@,
        out@.len() == 2 ==> out@[1].0.owner@ == "OpenRCT2"@ && out@[1].0.name@
            == "OpenRCT2-binaries"@ && out@[1].1 == Channel::Develop,
{
}

/// Stable releases and development builds come together; either failing fails the whole.
pub proof fn channels_come_together(
    github: &GitHub,
    stable: Vec<Release>,
    develop: Option<Vec<Release>>,
    r: Result<Vec<Release>, CoreError>,
    i: int,
)
    requires
        call_ensures(
            GitHub::releases_for,
            (
                github,
                Ok(stable),
                match develop {
                    Some(more) => Some(Ok(more)),
                    None => None,
                },
            ),
            r,
        ),
    ensures
        r is Ok,
        r->Ok_0@.len() == stable@.len() + match develop {
            Some(more) => more@.len(),
            None => 0,
        },
        0 <= i < stable@.len() ==> exists|k: int|
            0 <= k < r->Ok_0@.len() && (#[trigger] r->Ok_0@[k])@ == stable@[i]@,
        develop matches Some(more) ==> (0 <= i < more@.len() ==> exists|k: int|
            0 <= k < r->Ok_0@.len() && (#[trigger] r->Ok_0@[k])@ == more@[i]@),
{
    let s = release::releases_of(stable@);
    let out = release::releases_of(r->Ok_0@);
    match develop {
        Some(more) => {
            let m = release::releases_of(more@);
            release::newest_first_is_sorted(s + m);
            assert(out == release::newest_first(s + m));
            if 0 <= i < s.len() {
                assert((s + m)[i] == s[i]);
                github::listed_again(s + m, s[i]);
                assert(out[out.index_of(s[i])] == r->Ok_0@[out.index_of(s[i])]@);
            }
            if 0 <= i < m.len() {
                assert((s + m)[s.len() + i] == m[i]);
                github::listed_again(s + m, m[i]);
                assert(out[out.index_of(m[i])] == r->Ok_0@[out.index_of(m[i])]@);
            }
        },
        None => {
            release::newest_first_is_sorted(s);
            assert(out == release::newest_first(s));
            if 0 <= i < s.len() {
                github::listed_again(s, s[i]);
                assert(out[out.index_of(s[i])] == r->Ok_0@[out.index_of(s[i])]@);
            }
        },
    }
}

/// Where nothing could be had of a repository, that is what is said.
pub proof fn missing_channels_are_said(
    github: &GitHub,
    e: CoreError,
    stable: Vec<Release>,
    develop: Option<Result<Vec<Release>, CoreError>>,
    first: Result<Vec<Release>, CoreError>,
    second: Result<Vec<Release>, CoreError>,
)
    requires
        call_ensures(GitHub::releases_for, (github, Err(e), develop), first),
        call_ensures(GitHub::releases_for, (github, Ok(stable), Some(Err(e))), second),
    ensures
        first is Err && first->Err_0@ == e@,
        second is Err && second->Err_0@ == e@,
{
}

/// The first listed release with a tag is the one that is meant by it.
pub proof fn releases_are_found_by_tag<'a>(
    releases: &'a Vec<Release>,
    tag: &str,
    r: Result<&'a Release, String>,
)
    requires
        call_ensures(controller::listed_release, (releases, tag), r),
    ensures
        r is Ok <==> exists|i: int| 0 <= i < releases@.len() && (#[trigger] releases@[i]).tag@ == tag@,
        r matches Ok(found) ==> exists|i: int|
            0 <= i < releases@.len() && (#[trigger] releases@[i])@ == found@ && found.tag@ == tag@
                && forall|j: int| 0 <= j < i ==> (#[trigger] releases@[j]).tag@ != tag@,
        r matches Err(m) ==> m@ == "that build is no longer listed"@,
{
    let all = release::releases_of(releases@);
    let p = |i: int| all[i].tag == tag@;
    search::first_that_is_first(p, 0, all.len() as int);
    let at = controller::release_index(all, tag@);
    assert(at == search::first_that(p, 0, all.len() as int));
    if r is Ok {
        assert(releases@[at]@ == all[at]);
        assert(p(at));
        assert forall|j: int| 0 <= j < at implies (#[trigger] releases@[j]).tag@ != tag@ by {
            assert(!p(j));
            assert(all[j].tag == releases@[j].tag@);
        }
    } else {
        assert forall|i: int| 0 <= i < releases@.len() implies (#[trigger] releases@[i]).tag@
            != tag@ by {
            assert(!p(i));
            assert(all[i].tag == releases@[i].tag@);
        }
    }
}

/// Every release gets a row, in the same place, with its tag, its channel and, where it
/// has a date, its age.
pub proof fn every_release_gets_a_row(
    releases: &Vec<Release>,
    now: Timestamp,
    out: Vec<ReleaseRow>,
    i: int,
)
    requires
        call_ensures(controller::rows_at, (releases, now), out),
    ensures
        out@.len() == releases@.len(),
        0 <= i < out@.len() ==> {
            &&& out@[i].tag@ == releases@[i].tag@
            &&& out@[i].channel == releases@[i].channel
            &&& out@[i].age is Some <==> releases@[i].published is Some
            &&& releases@[i].published matches Some(at) ==> out@[i].age == Some(
                crate::age::age_of(
                    if now@ < at@ {
                        0
                    } else {
                        (now@ - at@) / 1_000_000_000
                    },
                ),
            )
        },
{
    assert(state::rows(out@).len() == out@.len());
    if 0 <= i < out@.len() {
        assert(state::rows(out@)[i] == out@[i]@);
        assert(release::releases_of(releases@)[i] == releases@[i]@);
    }
}

// ---------------------------------------------------------------------------
// What the interface knows
// ---------------------------------------------------------------------------

/// The release the selection stands on is the one that is named.
pub proof fn the_selected_release_is_named(state: &UiState, r: Option<&str>)
    requires
        call_ensures(UiState::selected_release_version, (state,), r),
    ensures
        r is Some <==> state.selected_release < state.releases@.len(),
        r matches Some(tag) ==> tag@ == state.releases@[state.selected_release as int].tag@,
{
    if state.selected_release < state.releases@.len() {
        assert(state@.releases[state.selected_release as int]
            == state.releases@[state.selected_release as int]@);
    }
}

/// Whether the selected game is set to update by itself.
pub open spec fn is_automatic(state: &UiState) -> bool {
    match state.selected_game {
        GameId::OpenRCT2 => state.auto_update@[0],
        GameId::OpenLoco => state.auto_update@[1],
    }
}

/// What can be done is what the state allows, and nothing while something is under way.
pub proof fn what_can_be_done(
    state: &UiState,
    busy: bool,
    auto: bool,
    play: bool,
    download: bool,
    remove: bool,
    choose_release: bool,
)
    requires
        call_ensures(UiState::is_busy, (state,), busy),
        call_ensures(UiState::auto_update, (state,), auto),
        call_ensures(UiState::play_enabled, (state,), play),
        call_ensures(UiState::download_enabled, (state,), download),
        call_ensures(UiState::remove_enabled, (state,), remove),
        call_ensures(UiState::popup_enabled, (state,), choose_release),
    ensures
        busy == state.busy is Some,
        auto == is_automatic(state),
        play == (state.busy is None && state.selected_installed < state.installed@.len()
            && state.installed@[state.selected_installed as int].can_launch),
        download == (state.busy is None && state.releases@.len() > 0 && !is_automatic(state)),
        remove == (state.busy is None && state.multi_version && state.installed@.len() > 1),
        choose_release == (state.busy is None && !is_automatic(state)),
{
    if state.selected_installed < state.installed@.len() {
        assert(state@.installed[state.selected_installed as int]
            == state.installed@[state.selected_installed as int]@);
    }
}

/// Whether a build is the active one: by its name where versions are kept side by side,
/// by its tag otherwise.
pub open spec fn is_the_active_one(state: &UiState, build: Installed) -> bool {
    state.active matches Some(active) && if state.multi_version {
        build.name@ == active@
    } else {
        build.tag@ == active@
    }
}

/// The active build is the first that goes by what is reported as active.
pub proof fn the_active_build_is_found<'a>(state: &'a UiState, r: Option<&'a Installed>)
    requires
        call_ensures(UiState::active_entry, (state,), r),
    ensures
        r is Some <==> exists|i: int|
            0 <= i < state.installed@.len() && is_the_active_one(
                state,
                #[trigger] state.installed@[i],
            ),
        r matches Some(entry) ==> exists|i: int|
            0 <= i < state.installed@.len() && (#[trigger] state.installed@[i])@ == entry@
                && is_the_active_one(state, state.installed@[i]) && forall|j: int|
                0 <= j < i ==> !is_the_active_one(state, #[trigger] state.installed@[j]),
{
    active_is_first(state);
}

/// The first build that goes by what is reported as active.
proof fn active_is_first(state: &UiState)
    ensures
        state@.active_build() is Some <==> exists|i: int|
            0 <= i < state.installed@.len() && is_the_active_one(
                state,
                #[trigger] state.installed@[i],
            ),
        state@.active_build() matches Some(entry) ==> exists|i: int|
            0 <= i < state.installed@.len() && (#[trigger] state.installed@[i])@ == entry
                && is_the_active_one(state, state.installed@[i]) && forall|j: int|
                0 <= j < i ==> !is_the_active_one(state, #[trigger] state.installed@[j]),
{
    match state@.active {
        Some(active) => {
            let all = state@.installed;
            let p = |i: int| state::is_current(all[i], active, state@.multi_version);
            search::first_that_is_first(p, 0, all.len() as int);
            let at = state::current_index(all, active, state@.multi_version);
            assert(at == search::first_that(p, 0, all.len() as int));
            assert forall|i: int| 0 <= i < all.len() implies p(i) == is_the_active_one(
                state,
                #[trigger] state.installed@[i],
            ) by {
                assert(all[i] == state.installed@[i]@);
            }
            if at < all.len() {
                assert(p(at));
                assert(is_the_active_one(state, state.installed@[at]));
                assert forall|j: int| 0 <= j < at implies !is_the_active_one(
                    state,
                    #[trigger] state.installed@[j],
                ) by {
                    assert(!p(j));
                }
            } else {
                assert forall|j: int| 0 <= j < all.len() implies !is_the_active_one(
                    state,
                    #[trigger] state.installed@[j],
                ) by {
                    assert(!p(j));
                }
            }
        },
        None => {},
    }
}

// ---------------------------------------------------------------------------
// The screen
// ---------------------------------------------------------------------------

/// The window shows the selected game, and its controls can be used as the state allows.
pub proof fn the_window_follows_the_state(state: &UiState, bundle: &Bundle, s: Screen)
    requires
        call_ensures(screen::apply, (state, bundle), s),
    ensures
        state.selected_game == GameId::OpenRCT2 ==> s.row == 0 && s.title@ == "OpenRCT2"@,
        state.selected_game == GameId::OpenLoco ==> s.row == 1 && s.title@ == "OpenLoco"@,
        s.play_enabled == (state.busy is None && state.selected_installed < state.installed@.len()
            && state.installed@[state.selected_installed as int].can_launch),
        s.remove_hidden == !state.multi_version,
        s.remove_enabled == (state.busy is None && state.multi_version && state.installed@.len()
            > 1),
        s.download_enabled == (state.busy is None && state.releases@.len() > 0 && !is_automatic(
            state,
        )),
        s.develop.on == state.show_develop && s.develop.enabled == state.busy is None,
        s.auto_update.on == is_automatic(state) && s.auto_update.enabled == state.busy is None,
        s.multi_version.on == state.multi_version && s.multi_version.enabled == state.busy is None,
        s.check_for_updates.on == state.check_for_updates && s.check_for_updates.enabled,
        state.busy is None ==> s.progress == Bar::Hidden,
        state.busy matches Some(busy) ==> s.progress == match busy.value {
            Some(fraction) => Bar::At(fraction),
            None => Bar::Indeterminate,
        },
        s.download_title@ == if state.busy is Some && state.busy->0.status is Some {
            match state.busy->0.status->0 {
                Status::Downloading => strings::localized(bundle@, "StatusDownloading"@),
                Status::Extracting => strings::localized(bundle@, "StatusExtracting"@),
            }
        } else {
            strings::localized(bundle@, "Download"@)
        },
        state.install_root matches Some(root) ==> s.install_root@ == root@,
        state.install_root is None ==> s.install_root@ == strings::localized(
            bundle@,
            "DefaultDirectory"@,
        ),
        s.update is Some <==> state.update is Some,
        state.update matches Some(update) ==> s.update->0@ == text::replaced(
            strings::localized(bundle@, "UpdateAvailable"@),
            "{0}"@,
            update.version@,
        ),
{
    if state.selected_installed < state.installed@.len() {
        assert(state@.installed[state.selected_installed as int]
            == state.installed@[state.selected_installed as int]@);
    }
    if let Some(update) = state.update {
        one_word(strings::localized(bundle@, "UpdateAvailable"@), update.version@);
    }
}

/// The lists show everything there is to choose from, in its order, with the selection
/// where it stands; the active build is said to be active.
pub proof fn lists_show_everything(state: &UiState, bundle: &Bundle, s: Screen, i: int)
    requires
        call_ensures(screen::apply, (state, bundle), s),
    ensures
        s.installed.entries@.len() == state.installed@.len(),
        s.installed.enabled == (state.busy is None && state.installed@.len() > 0),
        s.installed.selected == if state.installed@.len() > 0 {
            Some(state.selected_installed)
        } else {
            None
        },
        0 <= i < state.installed@.len() ==> s.installed.entries@[i]@ == if state.active is Some
            && (exists|k: int|
            0 <= k < state.installed@.len() && (#[trigger] state.installed@[k]).name@
                == state.installed@[i].name@ && is_the_active_one(state, state.installed@[k])
                && forall|j: int|
                0 <= j < k ==> !is_the_active_one(state, #[trigger] state.installed@[j])) {
            text::replaced(
                strings::localized(bundle@, "ActiveVersion"@),
                "{0}"@,
                state.installed@[i].tag@,
            )
        } else {
            state.installed@[i].tag@
        },
        s.releases.entries@.len() == state.releases@.len(),
        s.releases.enabled == (state.busy is None && !is_automatic(state) && state.releases@.len()
            > 0),
        s.releases.selected == if state.releases@.len() > 0 {
            Some(state.selected_release)
        } else {
            None
        },
        0 <= i < state.releases@.len() ==> s.releases.entries@[i]@
            == match state.releases@[i].age {
            None => state.releases@[i].tag@,
            Some(age) => text::replaced(
                text::replaced(
                    strings::localized(bundle@, "BuildListing"@),
                    "{0}"@,
                    state.releases@[i].tag@,
                ),
                "{1}"@,
                strings::age_text(bundle@, age),
            ),
        },
{
    let builds = text::views(s.installed.entries@);
    let releases = text::views(s.releases.entries@);
    assert(s.installed@.entries == builds && s.releases@.entries == releases);
    assert(s.installed@.selected == s.installed.selected);
    assert(s.releases@.selected == s.releases.selected);
    assert(builds.len() == s.installed.entries@.len());
    assert(releases.len() == s.releases.entries@.len());
    if 0 <= i < state.installed@.len() {
        assert(builds[i] == s.installed.entries@[i]@);
        assert(state@.installed[i] == state.installed@[i]@);
        one_word(strings::localized(bundle@, "ActiveVersion"@), state.installed@[i].tag@);
        active_is_first(state);
        if let Some(current) = state@.active_build() {
            let k = choose|k: int|
                0 <= k < state.installed@.len() && (#[trigger] state.installed@[k])@ == current
                    && is_the_active_one(state, state.installed@[k]) && forall|j: int|
                    0 <= j < k ==> !is_the_active_one(state, #[trigger] state.installed@[j]);
            assert(state.installed@[k]@ == current);
            assert(state.installed@[k].name@ == current.name);
            assert forall|m: int|
                0 <= m < state.installed@.len() && is_the_active_one(
                    state,
                    #[trigger] state.installed@[m],
                ) && (forall|j: int|
                    0 <= j < m ==> !is_the_active_one(
                        state,
                        #[trigger] state.installed@[j],
                    )) implies m == k by {
                if m < k {
                    assert(!is_the_active_one(state, state.installed@[m]));
                }
                if k < m {
                    assert(!is_the_active_one(state, state.installed@[k]));
                }
            }
        }
    }
    if 0 <= i < state.releases@.len() {
        assert(releases[i] == s.releases.entries@[i]@);
        assert(state@.releases[i] == state.releases@[i]@);
        if let Some(age) = state.releases@[i].age {
            two_words(
                strings::localized(bundle@, "BuildListing"@),
                state.releases@[i].tag@,
                strings::age_text(bundle@, age),
            );
        }
    }
}

/// An error is shown under its title, with what it is about in it; its text is looked up
/// where it is the name of a text, and shown as it is where it is not.
pub proof fn errors_are_shown(state: &UiState, bundle: &Bundle, s: Screen)
    requires
        call_ensures(screen::apply, (state, bundle), s),
    ensures
        s.alert is Some <==> state.error is Some,
        state.error matches Some(error) ==> {
            &&& s.alert->0.title@ == match error.title_arg {
                Some(arg) => text::replaced(
                    strings::localized(bundle@, error.title@),
                    "{0}"@,
                    arg@,
                ),
                None => strings::localized(bundle@, error.title@),
            }
            &&& error.message_is_key ==> s.alert->0.message@ == strings::localized(
                bundle@,
                error.message@,
            )
            &&& !error.message_is_key ==> s.alert->0.message@ == error.message@
        },
{
    if let Some(error) = state.error {
        if let Some(arg) = error.title_arg {
            one_word(strings::localized(bundle@, error.title@), arg@);
        }
        assert(s.alert->0@.title == s.alert->0.title@);
        assert(s.alert->0@.message == s.alert->0.message@);
    }
}

/// The selected game's data has a row for each original game it reads, and no other has
/// one; a row shows where the data is, or that there is none.
pub proof fn data_rows_are_the_games_own(
    state: &UiState,
    bundle: &Bundle,
    s: Screen,
    game: OriginalGame,
)
    requires
        call_ensures(screen::apply, (state, bundle), s),
    ensures
        ({
            let at = match game {
                OriginalGame::RollerCoasterTycoon1 => 0int,
                OriginalGame::RollerCoasterTycoon2 => 1,
                OriginalGame::Locomotion => 2,
            };
            let reader = if game == OriginalGame::Locomotion {
                GameId::OpenLoco
            } else {
                GameId::OpenRCT2
            };
            let row = s.game_data@[at];
            &&& row is Some <==> state.selected_game == reader
            &&& row matches Some(row) ==> {
                &&& row.enabled == state.busy is None
                &&& state.game_data@[at] matches Some(place) ==> row.path@ == place@
                    && row.button@ == strings::localized(bundle@, "ReinstallGameData"@)
                &&& state.game_data@[at] is None ==> row.button@ == strings::localized(
                    bundle@,
                    "InstallGameData"@,
                )
                &&& state.game_data@[at] is None && game != OriginalGame::RollerCoasterTycoon1
                    ==> row.path@ == strings::localized(bundle@, "GameDataNotInstalled"@)
                &&& state.game_data@[at] is None && game == OriginalGame::RollerCoasterTycoon1
                    ==> row.path@ == strings::localized(bundle@, "GameDataNotInstalled"@) + " ("@
                    + strings::localized(bundle@, "GameDataOptional"@) + ")"@
            }
        }),
{
    let at = game.place();
    let row = s.game_data@[at];
    assert(crate::state::maybe(row) == screen::data_row(bundle@, state@, game));
    assert(state@.game_data[at] == text::opt_view(state.game_data@[at]));
}

/// One word goes where `{0}` stands.
proof fn one_word(template: Seq<char>, a: Seq<char>)
    ensures
        strings::formatted(template, seq![a]) == text::replaced(template, "{0}"@, a),
{
    strings::words_are_filled_in(template, a, a);
}

/// Two words go where `{0}` and `{1}` stand, the first one first.
proof fn two_words(template: Seq<char>, a: Seq<char>, b: Seq<char>)
    ensures
        strings::formatted(template, seq![a, b]) == text::replaced(
            text::replaced(template, "{0}"@, a),
            "{1}"@,
            b,
        ),
{
    strings::words_are_filled_in(template, a, b);
}

/// A report about versions that stay on disk says how many there are and how much they
/// take, and there is none where none stay.
pub proof fn what_stays_is_reported(bundle: &Bundle, report: &DisableReport, r: Option<Notice>)
    requires
        call_ensures(screen::show_disable_report, (bundle, report), r),
    ensures
        r is Some <==> report.retained@.len() > 0,
        r matches Some(notice) ==> {
            &&& notice.title@ == match report.kept {
                Some(kept) => text::replaced(
                    strings::localized(bundle@, "MultiVersionDisabledTitle"@),
                    "{0}"@,
                    kept@,
                ),
                None => strings::localized(bundle@, "MultiVersionDisabledNoneTitle"@),
            }
            &&& report.retained@.len() == 1 ==> notice.message@ == text::replaced(
                strings::localized(bundle@, "MultiVersionDisabledMessageOne"@),
                "{0}"@,
                screen::size_text(report.retained_bytes),
            )
            &&& report.retained@.len() > 1 ==> notice.message@ == text::replaced(
                text::replaced(
                    strings::localized(bundle@, "MultiVersionDisabledMessage"@),
                    "{0}"@,
                    text::decimal(report.retained@.len()),
                ),
                "{1}"@,
                screen::size_text(report.retained_bytes),
            )
        },
{
    let size = screen::size_text(report.retained_bytes);
    assert(report@.retained.len() == report.retained@.len());
    if let Some(kept) = report.kept {
        one_word(strings::localized(bundle@, "MultiVersionDisabledTitle"@), kept@);
    }
    one_word(strings::localized(bundle@, "MultiVersionDisabledMessageOne"@), size);
    two_words(
        strings::localized(bundle@, "MultiVersionDisabledMessage"@),
        text::decimal(report.retained@.len()),
        size,
    );
    if let Some(notice) = r {
        assert(notice@.title == notice.title@ && notice@.message == notice.message@);
    }
}

/// The question before a removal names the build, and is put in the user's words.
pub proof fn removals_are_asked_about(bundle: &Bundle, tag: &str, q: screen::Question)
    requires
        call_ensures(screen::confirm_remove, (bundle, tag), q),
    ensures
        q.title@ == text::replaced(
            strings::localized(bundle@, "RemoveConfirmTitle"@),
            "{0}"@,
            tag@,
        ),
        q.message@ == strings::localized(bundle@, "RemoveConfirmMessage"@),
        q.remove@ == strings::localized(bundle@, "Remove"@),
        q.cancel@ == strings::localized(bundle@, "Cancel"@),
{
    one_word(strings::localized(bundle@, "RemoveConfirmTitle"@), tag@);
}

/// The sidebar's rows are the two games, and no other row is one.
pub proof fn rows_stand_for_games(row: isize, r: Option<GameId>)
    requires
        call_ensures(screen::game_for_row, (row,), r),
    ensures
        row == 0 ==> r == Some(GameId::OpenRCT2),
        row == 1 ==> r == Some(GameId::OpenLoco),
        row < 0 || row > 1 ==> r is None,
{
}

/// The buttons for game data stand for the three original games.
pub proof fn buttons_stand_for_games(tag: isize, r: Option<OriginalGame>)
    requires
        call_ensures(screen::game_for_tag, (tag,), r),
    ensures
        tag == 0 ==> r == Some(OriginalGame::RollerCoasterTycoon1),
        tag == 1 ==> r == Some(OriginalGame::RollerCoasterTycoon2),
        tag == 2 ==> r == Some(OriginalGame::Locomotion),
        tag < 0 || tag > 2 ==> r is None,
{
}

// ---------------------------------------------------------------------------
// Places
// ---------------------------------------------------------------------------

/// Game data goes where the user chose. Where nothing was chosen it goes below the
/// launcher's own directory, and into the current one where there is none.
pub proof fn chosen_places_are_used(prefs: &Prefs, dirs: &Option<Dirs>, out: String)
    requires
        call_ensures(controller::install_root, (prefs, dirs), out),
    ensures
        prefs::chosen_root(prefs@) matches Some(root) ==> out@ == root,
        prefs::chosen_root(prefs@) is None && dirs is Some ==> out@ == path::under(
            dirs->0.app_support@,
            "Turnstile/games"@,
        ),
        prefs::chosen_root(prefs@) is None && dirs is None ==> out@ == "."@,
{
}

/// Each original game's data has a directory of its own below the chosen one.
pub proof fn data_has_its_own_directory(root: &str, game: OriginalGame, out: String)
    requires
        call_ensures(controller::game_data_destination, (root, game), out),
    ensures
        out@ == path::under(
            root@,
            match game {
                OriginalGame::RollerCoasterTycoon1 => "rct1"@,
                OriginalGame::RollerCoasterTycoon2 => "rct2"@,
                OriginalGame::Locomotion => "locomotion"@,
            },
        ),
{
}

/// Game data that is configured is shown where it is really there.
pub proof fn data_is_shown_where_it_is(
    configured: Option<String>,
    is_there: bool,
    r: Option<String>,
)
    requires
        call_ensures(controller::installed_game_data, (configured, is_there), r),
    ensures
        r is Some <==> is_there && configured is Some,
        r matches Some(place) ==> place@ == configured->0@,
{
}

/// The launcher keeps its files where applications keep theirs.
pub proof fn files_are_kept_in_the_library(home: &str, r: Option<Dirs>)
    requires
        call_ensures(Dirs::system, (Some(home),), r),
    ensures
        r is Some,
        r->0.app_support@ == path::under(home@, "Library/Application Support"@),
{
}

/// A build is asked about under its tag, and under its name where it is not listed.
pub proof fn removals_are_named(installed: &Vec<Installed>, name: &str, out: String)
    requires
        call_ensures(controller::removal_label, (installed, name), out),
    ensures
        (forall|i: int| 0 <= i < installed@.len() ==> (#[trigger] installed@[i]).name@ != name@)
            ==> out@ == name@,
        forall|i: int|
            0 <= i < installed@.len() && (#[trigger] installed@[i]).name@ == name@ && (forall|j: int|
                0 <= j < i ==> (#[trigger] installed@[j]).name@ != name@) ==> out@
                == installed@[i].tag@,
{
    let all = crate::store::builds(installed@);
    let p = |i: int| all[i].name == name@;
    let at = controller::name_index(all, name@);
    assert(at == search::first_that(p, 0, all.len() as int));
    search::first_that_is_first(p, 0, all.len() as int);
    assert forall|i: int| 0 <= i < all.len() implies (#[trigger] installed@[i]).name@
        == all[i].name by {}
    if at < all.len() {
        assert(p(at));
        assert(installed@[at].name@ == name@);
    }
    assert forall|i: int|
        0 <= i < installed@.len() && (#[trigger] installed@[i]).name@ == name@ && (forall|j: int|
            0 <= j < i ==> (#[trigger] installed@[j]).name@ != name@) implies out@
        == installed@[i].tag@ by {
        assert(p(i));
        if at < i {
            assert(installed@[at].name@ != name@);
        }
        if i < at {
            assert(!p(i));
        }
        assert(all[i] == installed@[i]@);
    }
}

// ---------------------------------------------------------------------------
// Archives, transfers and programs
// ---------------------------------------------------------------------------

/// An archive is unpacked by the program for its kind, told by how its name ends, in
/// whatever case.
pub proof fn archives_are_unpacked_by_kind(
    archive: &str,
    url_path: &str,
    into: &str,
    r: Result<(ArchiveKind, Command), CoreError>,
)
    requires
        call_ensures(extract::extract, (archive, url_path, into), r),
    ensures
        ({
            let name = text::lowercased(url_path@);
            let zip = text::finishes(name, ".zip"@);
            let tar = text::finishes(name, ".tar.gz"@) || text::finishes(name, ".tgz"@);
            &&& r is Ok <==> zip || tar
            &&& zip ==> r->Ok_0.0 == ArchiveKind::Zip && r->Ok_0.1.program@ == "/usr/bin/ditto"@
                && text::views(r->Ok_0.1.args@) == seq!["-x"@, "-k"@, archive@, into@]
            &&& tar && !zip ==> r->Ok_0.0 == ArchiveKind::Tarball && r->Ok_0.1.program@ == "tar"@
                && text::views(r->Ok_0.1.args@) == seq!["-C"@, into@, "-xf"@, archive@]
            &&& !zip && !tar ==> r->Err_0 is UnknownArchiveFormat
        }),
{
    if let Ok((kind, command)) = r {
        assert(command@.program == command.program@);
        assert(command@.args == text::views(command.args@));
    }
}

/// A program that ran well is no error; one that did not is one that says what it said.
pub proof fn programs_are_believed(program: &str, outcome: Ran, r: Result<(), CoreError>)
    requires
        call_ensures(extract::run, (program, outcome), r),
    ensures
        r is Ok <==> outcome matches Ran::Ended { success: true, .. },
        outcome matches Ran::NotStarted(m) ==> r->Err_0@
            == crate::error::CoreErrorView::ExtractionFailed(
            "could not run "@ + program@ + ": "@ + m@,
        ),
        outcome matches Ran::Ended { success: false, status, stderr } ==> r->Err_0@
            == crate::error::CoreErrorView::ExtractionFailed(
            program@ + " exited with "@ + status@ + ": "@ + text::trimmed(stderr@),
        ),
{
}

/// A transfer knows how much there is where the server says so in a number, and says that
/// it does not know where it does not.
pub proof fn lengths_are_announced(
    header: Option<&str>,
    r: (Transfer, Option<Progress>),
)
    requires
        call_ensures(Transfer::begin, (header,), r),
    ensures
        r.0.downloaded == 0,
        header is None ==> r.0.total is None,
        header matches Some(s) ==> match text::number(s@) {
            Some(n) => r.0.total is Some && r.0.total->0 == n,
            None => r.0.total is None,
        },
        r.1 is Some <==> r.0.total is None,
        r.1 matches Some(p) ==> p.status == Status::Downloading && p.value is None,
{
}

/// A game starts where its program is, and only where it is there.
pub proof fn games_start_where_they_are(
    game: GameId,
    dir: &str,
    is_there: bool,
    r: Result<String, CoreError>,
)
    requires
        call_ensures(install::launch, (game, dir, is_there), r),
    ensures
        r is Ok <==> is_there,
        is_there && game == GameId::OpenRCT2 ==> r->Ok_0@ == path::under(
            path::under(path::under(dir@, "OpenRCT2.app"@), "Contents/MacOS"@),
            "OpenRCT2"@,
        ),
        is_there && game == GameId::OpenLoco ==> r->Ok_0@ == path::under(
            path::under(path::under(dir@, "OpenLoco.app"@), "Contents/MacOS"@),
            "OpenLoco"@,
        ),
        !is_there ==> r->Err_0 is LaunchFailed && text::finishes(
            r->Err_0->LaunchFailed_0@,
            " is not installed here"@,
        ) && text::begins(r->Err_0->LaunchFailed_0@, game.executable(dir@)),
{
    reveal_strlit("OpenRCT2");
    reveal_strlit("OpenLoco");
    reveal_strlit(".app");
    reveal_strlit("OpenRCT2.app");
    reveal_strlit("OpenLoco.app");
    assert("OpenRCT2"@ + ".app"@ =~= "OpenRCT2.app"@);
    assert("OpenLoco"@ + ".app"@ =~= "OpenLoco.app"@);
    if !is_there {
        let a = game.executable(dir@);
        let b = " is not installed here"@;
        assert((a + b).take(a.len() as int) =~= a);
        assert((a + b).skip(a.len() as int) =~= b);
    }
}

/// A game that runs, or that ended well, is no error. One that did not start says why; one
/// that gave up says what it wrote, or with what status it ended where it wrote nothing.
pub proof fn games_that_give_up_are_heard(started: Started, r: Result<(), CoreError>)
    requires
        call_ensures(install::launched, (started,), r),
    ensures
        r is Err ==> r->Err_0 is LaunchFailed,
        started is Runs ==> r is Ok,
        started matches Started::Not(m) ==> r is Err && r->Err_0->LaunchFailed_0@ == m@,
        started matches Started::Ended { success: true, .. } ==> r is Ok,
        started matches Started::Ended { success: false, status, stderr } ==> r is Err
            && r->Err_0->LaunchFailed_0@ == if text::trimmed(stderr@).len() > 0 {
            text::trimmed(stderr@)
        } else {
            "the game exited immediately with "@ + status@
        },
{
}

/// The work of an effect is done where it belongs: what the screen does at once, what
/// changes the builds alone, and what only looks or waits together with anything else.
pub proof fn work_is_done_where_it_belongs(effect: &Effect, lane: Lane)
    requires
        call_ensures(controller::lane, (effect,), lane),
    ensures
        *effect is LoadInstalled || *effect is InstallGameData || *effect is Install
            || *effect is Activate || *effect is SwitchThenRemove || *effect is SetMode <==> lane
            == Lane::Store,
        *effect is CheckForUpdate || *effect is ScanGameData || *effect is FetchReleases
            || *effect is Launch <==> lane == Lane::Worker,
{
}

/// What went wrong in repairing the games at the start is said game by game, a line each.
pub proof fn failed_repairs_are_listed(
    failures: &Vec<(GameId, String)>,
    r: Option<state::Msg>,
)
    requires
        call_ensures(controller::repair_failures, (failures,), r),
    ensures
        r is Some <==> failures@.len() > 0,
        r matches Some(msg) ==> msg is StartupRepairFailed,
        failures@.len() == 1 ==> r->0->message@ == failures@[0].0.title() + ": "@
            + failures@[0].1@,
        failures@.len() == 2 ==> r->0->message@ == failures@[0].0.title() + ": "@
            + failures@[0].1@ + "\n"@ + (failures@[1].0.title() + ": "@ + failures@[1].1@),
{
    reveal_with_fuel(controller::repair_text, 3);
}

/// A game's data is looked into by the file that tells it.
pub proof fn data_is_told_by_a_file(game: OriginalGame, directory: &str, out: String)
    requires
        call_ensures(gamedata::installed_at, (game, directory), out),
    ensures
        out@ == path::under(
            directory@,
            match game {
                OriginalGame::RollerCoasterTycoon1 => "Data/csg1.dat"@,
                OriginalGame::RollerCoasterTycoon2 => "Data/g1.dat"@,
                OriginalGame::Locomotion => "Data/g1.DAT"@,
            },
        ),
{
}

/// An installer from which not every file could be read is an error that says how many
/// could; one from which all could be is none.
pub proof fn unfinished_installers_are_said(u: &gamedata::Unpacking, r: Result<(), CoreError>)
    requires
        call_ensures(gamedata::Unpacking::finish, (u,), r),
    ensures
        r is Err <==> u@.written < u@.files.len(),
        r matches Err(e) ==> e is ExtractionFailed && e->ExtractionFailed_0@ == "only "@
            + text::decimal(u@.written) + " of "@ + text::decimal(u@.files.len())
            + " files could be read out of the installer"@,
{
}

/// What is unpacked are the files for the game directory, all of them, and nothing is
/// written yet; an installer without any is refused.
pub proof fn unpacking_takes_the_games_files(
    files: Vec<InstallerFile>,
    locations: Vec<u32>,
    r: Result<gamedata::Unpacking, CoreError>,
)
    requires
        call_ensures(gamedata::Unpacking::begin, (files, locations), r),
    ensures
        ({
            let own = gamedata::files_of(files@).filter(gamedata_laws::goes_to_the_game());
            &&& r is Ok <==> own.len() > 0
            &&& r matches Ok(u) ==> u@.files == own && u@.locations == locations@ && u@.written == 0
            &&& r matches Err(e) ==> e is ExtractionFailed && e->ExtractionFailed_0@
                == "the installer holds no game files"@
        }),
{
    gamedata_laws::files_without_a_constant_are_kept(gamedata::files_of(files@));
}

/// Data without the file that tells it is refused.
pub proof fn data_is_checked(
    install: &gamedata::DataInstall,
    marker_is_there: bool,
    r: Result<(), CoreError>,
)
    requires
        call_ensures(gamedata::DataInstall::check, (install, marker_is_there), r),
    ensures
        r is Ok <==> marker_is_there,
        r matches Err(e) ==> e is ExtractionFailed && e->ExtractionFailed_0@
            == "the installer did not contain "@ + match install.game {
            OriginalGame::RollerCoasterTycoon1 => "Data/csg1.dat"@,
            OriginalGame::RollerCoasterTycoon2 => "Data/g1.dat"@,
            OriginalGame::Locomotion => "Data/g1.DAT"@,
        },
{
}

/// The age of a release is that of the whole seconds since it was published.
pub proof fn ages_are_counted_in_seconds(published: Timestamp, now: Timestamp, age: Age)
    requires
        call_ensures(Age::since, (published, now), age),
    ensures
        now@ < published@ ==> age == crate::age::age_of(0),
        now@ >= published@ ==> age == crate::age::age_of((now@ - published@) / 1_000_000_000),
{
}

/// The machine's processor is Apple's where it is called `aarch64`, and Intel's otherwise.
pub proof fn processors_are_told_by_name(target: &str, h: HostArch)
    requires
        call_ensures(HostArch::current, (target,), h),
    ensures
        h == HostArch::Arm64 <==> target@ == "aarch64"@,
{
}

/// The file that is chosen is one of those there are, and a build for this machine; one is
/// chosen wherever there is such a file.
pub proof fn one_of_the_files_is_chosen(
    files: &Vec<asset::Candidate>,
    host: HostArch,
    r: Option<&asset::Candidate>,
)
    requires
        call_ensures(asset::choose_asset, (files, host), r),
    ensures
        r is Some <==> exists|i: int|
            0 <= i < files@.len() && asset::is_a_build_for((#[trigger] files@[i]).name@, host),
        r matches Some(one) ==> exists|i: int|
            0 <= i < files@.len() && (#[trigger] files@[i])@ == one@ && asset::is_a_build_for(
                files@[i].name@,
                host,
            ),
{
    let all = asset::candidates_of(files@);
    asset::what_is_chosen_can_be_used(all, host);
    assert forall|i: int| 0 <= i < files@.len() implies (#[trigger] files@[i]).name@
        == all[i].name by {}
    if r is Some {
        let i = asset::choice(all, host)->0;
        assert(files@[i]@ == all[i]);
        assert(asset::is_a_build_for(files@[i].name@, host));
    }
    if exists|i: int|
        0 <= i < files@.len() && asset::is_a_build_for((#[trigger] files@[i]).name@, host) {
        let i = choose|i: int|
            0 <= i < files@.len() && asset::is_a_build_for((#[trigger] files@[i]).name@, host);
        assert(asset::is_a_build_for(all[i].name, host));
    }
}

/// Requests go to the repository's releases, a hundred at a time, or to the latest one.
pub proof fn requests_go_to_the_repository(
    github: &GitHub,
    repo: &RepositoryName,
    owner: &str,
    name: &str,
    list: String,
    latest: String,
)
    requires
        call_ensures(GitHub::releases_url, (github, repo), list),
        call_ensures(GitHub::latest_url, (github, owner, name), latest),
    ensures
        list@ == "https://api.github.com/repos/"@ + repo.owner@ + "/"@ + repo.name@ + "/releases"@
            + "?per_page=100&page=1"@,
        latest@ == "https://api.github.com/repos/"@ + owner@ + "/"@ + name@ + "/releases"@
            + "/latest"@,
{
}

/// A page has no stable release where every release on it is a prerelease.
pub proof fn stable_releases_are_looked_for(api: &Vec<ApiRelease>, r: bool)
    requires
        call_ensures(github::page_has_no_stable_release, (api,), r),
    ensures
        r <==> forall|i: int| 0 <= i < api@.len() ==> (#[trigger] api@[i]).prerelease,
{
    let all = github::listed(api@);
    if r {
        assert forall|i: int| 0 <= i < api@.len() implies (#[trigger] api@[i]).prerelease by {
            assert(all[i].prerelease);
        }
    } else if forall|i: int| 0 <= i < api@.len() ==> (#[trigger] api@[i]).prerelease {
        assert forall|i: int| 0 <= i < all.len() implies (#[trigger] all[i]).prerelease by {
            assert(api@[i].prerelease);
        }
    }
}

/// Settings are read by the names they are saved under.
pub proof fn settings_are_read_by_name(
    prefs: &Prefs,
    game: GameId,
    develop: bool,
    side_by_side: bool,
    look: bool,
    auto: bool,
)
    requires
        call_ensures(Prefs::show_develop, (prefs,), develop),
        call_ensures(Prefs::multi_version, (prefs,), side_by_side),
        call_ensures(Prefs::check_for_updates, (prefs,), look),
        call_ensures(Prefs::auto_update, (prefs, game), auto),
    ensures
        develop == prefs::flag(prefs@, "showDevelopmentVersions"@),
        side_by_side == prefs::flag(prefs@, "keepMultipleVersions"@),
        look == (!prefs@.dom().contains("checkForUpdates"@) || prefs::flag(
            prefs@,
            "checkForUpdates"@,
        )),
        game == GameId::OpenRCT2 ==> auto == prefs::flag(prefs@, "autoInstallUpdates.OpenRCT2"@),
        game == GameId::OpenLoco ==> auto == prefs::flag(prefs@, "autoInstallUpdates.OpenLoco"@),
{
    reveal_strlit("autoInstallUpdates.");
    reveal_strlit("OpenRCT2");
    reveal_strlit("OpenLoco");
    reveal_strlit("autoInstallUpdates.OpenRCT2");
    reveal_strlit("autoInstallUpdates.OpenLoco");
    assert("autoInstallUpdates."@ + "OpenRCT2"@ =~= "autoInstallUpdates.OpenRCT2"@);
    assert("autoInstallUpdates."@ + "OpenLoco"@ =~= "autoInstallUpdates.OpenLoco"@);
}

/// The selected game and the chosen directory are read by the names they are saved under.
pub proof fn choices_are_read_by_name(prefs: &Prefs, game: GameId, root: Option<String>)
    requires
        call_ensures(Prefs::selected_game, (prefs,), game),
        call_ensures(Prefs::install_root, (prefs,), root),
    ensures
        game == GameId::OpenLoco <==> prefs::words(prefs@, "selectedGame"@) == Some("OpenLoco"@),
        root is Some <==> prefs::words(prefs@, "gameDataDirectory"@) is Some && text::trimmed(
            prefs::words(prefs@, "gameDataDirectory"@)->0,
        ).len() > 0,
        root matches Some(place) ==> Some(place@) == prefs::words(prefs@, "gameDataDirectory"@),
{
}

/// A game is found by its name, and by no other.
pub proof fn games_are_found_by_name(key: &str, r: Option<GameId>)
    requires
        call_ensures(GameId::from_key, (key,), r),
    ensures
        key@ == "OpenRCT2"@ ==> r == Some(GameId::OpenRCT2),
        key@ == "OpenLoco"@ ==> r == Some(GameId::OpenLoco),
        key@ != "OpenRCT2"@ && key@ != "OpenLoco"@ ==> r is None,
{
    if let Some(game) = r {
        match game {
            GameId::OpenRCT2 => {},
            GameId::OpenLoco => {},
        }
    }
}

/// A game's own files: where its builds are, and where its program is in one.
pub proof fn builds_are_where_they_should_be(
    game: GameId,
    dirs: &Dirs,
    dir: &str,
    tag: &str,
    version: String,
    exe: String,
    stamp: String,
)
    requires
        call_ensures(GameId::version_path, (game, dirs, tag), version),
        call_ensures(GameId::executable_in, (game, dir), exe),
        call_ensures(game::version_file_in, (dir,), stamp),
    ensures
        game == GameId::OpenRCT2 ==> version@ == path::under(
            path::under(path::under(dirs.app_support@, "OpenRCT2"@), "versions"@),
            tag@,
        ),
        game == GameId::OpenLoco ==> version@ == path::under(
            path::under(path::under(dirs.app_support@, "OpenLoco"@), "versions"@),
            tag@,
        ),
        game == GameId::OpenRCT2 ==> exe@ == path::under(
            path::under(path::under(dir@, "OpenRCT2.app"@), "Contents/MacOS"@),
            "OpenRCT2"@,
        ),
        game == GameId::OpenLoco ==> exe@ == path::under(
            path::under(path::under(dir@, "OpenLoco.app"@), "Contents/MacOS"@),
            "OpenLoco"@,
        ),
        stamp@ == path::under(dir@, ".version"@),
{
    reveal_strlit("OpenRCT2");
    reveal_strlit("OpenLoco");
    reveal_strlit(".app");
    reveal_strlit("OpenRCT2.app");
    reveal_strlit("OpenLoco.app");
    assert("OpenRCT2"@ + ".app"@ =~= "OpenRCT2.app"@);
    assert("OpenLoco"@ + ".app"@ =~= "OpenLoco.app"@);
}

/// What holds one directory and nothing else is what that directory holds.
pub proof fn lone_directories_are_flattened(entries: &Vec<extract::Unpacked>, r: Option<&String>)
    requires
        call_ensures(extract::flatten_single_directory, (entries,), r),
    ensures
        r is Some <==> entries@.len() == 1 && entries@[0].is_dir,
        r matches Some(name) ==> name@ == entries@[0].name@,
{
}

/// A transfer begins with nothing of it there.
pub proof fn transfers_begin_with_nothing(p: Progress)
    requires
        call_ensures(Transfer::opening, (), p),
    ensures
        p == (Progress {
            status: Status::Downloading,
            value: Some(Fraction { done: 0, total: 1 }),
        }),
{
}

/// A step that fails in a switch is told as a failed switch, and one that fails behind it
/// as a failed removal.
pub proof fn failed_switches_are_told(
    step: usize,
    message: String,
    generation: u64,
    msg: state::Msg,
)
    requires
        call_ensures(
            controller::switch_then_remove_failed,
            (step, message, generation),
            msg,
        ),
    ensures
        step < 4 ==> msg is Activated && msg->Activated_generation == generation
            && msg->Activated_result is Err && msg->Activated_result->Err_0@ == message@,
        step >= 4 ==> msg is Removed && msg->Removed_generation == generation
            && msg->Removed_result is Err && msg->Removed_result->Err_0@ == message@,
{
    if step < 4 {
        assert(msg@ is Activated);
    } else {
        assert(msg@ is Removed);
    }
}

/// What is installed is told with what is active among it; what could not be looked at is
/// told with the reason.
pub proof fn what_is_installed_is_told(
    store: &crate::store::VersionStore,
    seen: Result<crate::disk::Disk, String>,
    mode: crate::store::Mode,
    generation: u64,
    msg: state::Msg,
)
    requires
        call_ensures(controller::load_installed, (store, seen, mode, generation), msg),
    ensures
        msg is InstalledLoaded,
        msg->InstalledLoaded_generation == generation,
        seen matches Err(m) ==> msg->InstalledLoaded_result is Err
            && msg->InstalledLoaded_result->Err_0@ == m@,
        seen matches Ok(d) ==> msg@->InstalledLoaded_result == Ok::<
            (Seq<crate::store::InstalledView>, Option<Seq<char>>),
            Seq<char>,
        >(
            (
                crate::store::installations(d@, mode, store.bin_dir(), store.versions_dir()),
                crate::store::active_in(d@, mode),
            ),
        ),
{
    assert(msg@ is InstalledLoaded);
}

/// Instants are counted from the epoch, and only those that can be dated are held.
pub proof fn instants_are_counted(
    seconds: i64,
    nanos: i128,
    a: Option<Timestamp>,
    b: Option<Timestamp>,
)
    requires
        call_ensures(Timestamp::from_unix_timestamp, (seconds,), a),
        call_ensures(Timestamp::from_nanos, (nanos,), b),
    ensures
        a is Some <==> -400_000_000_000 <= seconds <= 400_000_000_000,
        a matches Some(t) ==> t@ == seconds * 1_000_000_000,
        b is Some <==> -400_000_000_000_000_000_000 <= nanos <= 400_000_000_000_000_000_000,
        b matches Some(t) ==> t@ == nanos,
{
}

/// Games and original games go by their names.
pub proof fn games_go_by_their_names(
    game: GameId,
    name: &'static str,
    icon: &'static str,
    original: OriginalGame,
    title: &'static str,
    optional: bool,
)
    requires
        call_ensures(GameId::display_name, (game,), name),
        call_ensures(screen::icon_name, (game,), icon),
        call_ensures(screen::title_of, (original,), title),
        call_ensures(screen::optional, (original,), optional),
    ensures
        game == GameId::OpenRCT2 ==> name@ == "OpenRCT2"@ && icon@ == "icon-openrct2"@,
        game == GameId::OpenLoco ==> name@ == "OpenLoco"@ && icon@ == "icon-openloco"@,
        original == OriginalGame::RollerCoasterTycoon1 ==> title@ == "RollerCoaster Tycoon"@
            && optional,
        original == OriginalGame::RollerCoasterTycoon2 ==> title@ == "RollerCoaster Tycoon 2"@
            && !optional,
        original == OriginalGame::Locomotion ==> title@ == "Chris Sawyer's Locomotion"@
            && !optional,
{
}

} // verus!
