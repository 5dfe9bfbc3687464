//! What the interface does about each thing that can happen to it, said of what is on
//! screen and of what comes out.

use vstd::prelude::*;

use crate::download::{Fraction, Status};
use crate::game::GameId;
use crate::gamedata::OriginalGame;
use crate::search;
use crate::selfupdate::UpdateView;
use crate::state::{AlertView, Busy, EffectView, MsgView, PrefView, RemovalView, RowView, StateView};
use crate::store::{InstalledView, ReportView};

verus! {

broadcast use vstd::string::group_string_axioms;

// ---------------------------------------------------------------------------
// Playing and downloading
// ---------------------------------------------------------------------------

/// Play starts the build that is shown, and no other; where none is shown, where it
/// cannot be started, and while something is under way, it does nothing. It changes
/// nothing on screen.
pub proof fn play_starts_what_is_shown(s: StateView)
    ensures
        s.next(MsgView::ClickPlay).0 == s,
        s.busy is None && s.selected_installed < s.installed.len()
            && s.installed[s.selected_installed as int].can_launch ==> s.next(
            MsgView::ClickPlay,
        ).1 == seq![
            EffectView::Launch {
                game: s.selected_game,
                dir: s.installed[s.selected_installed as int].dir,
            },
        ],
        s.busy is Some || s.selected_installed >= s.installed.len()
            || !s.installed[s.selected_installed as int].can_launch ==> s.next(
            MsgView::ClickPlay,
        ).1.len() == 0,
{
}

/// Whether the selected game is set to update by itself.
pub open spec fn is_automatic(s: StateView) -> bool {
    match s.selected_game {
        GameId::OpenRCT2 => s.auto_update[0],
        GameId::OpenLoco => s.auto_update[1],
    }
}

/// Download fetches the release that was picked, whichever it is.
pub proof fn download_fetches_what_was_picked(s: StateView, i: usize)
    requires
        s.busy is None,
        !is_automatic(s),
        i < s.releases.len(),
        s.outstanding < u32::MAX,
    ensures
        ({
            let picked = s.next(MsgView::SelectRelease(i));
            let clicked = picked.0.next(MsgView::ClickDownload);
            &&& picked.1.len() == 0
            &&& picked.0 == StateView { selected_release: i, ..s }
            &&& clicked.1 == seq![
                EffectView::Install {
                    generation: s.generation,
                    game: s.selected_game,
                    tag: s.releases[i as int].tag,
                },
            ]
            &&& clicked.0 == StateView {
                selected_release: i,
                busy: Some(Busy { status: None, value: None }),
                outstanding: (s.outstanding + 1) as u32,
                ..s
            }
        }),
{
}

/// Nothing is downloaded on a click while something is under way, where the game updates
/// by itself, or where no release is picked.
pub proof fn download_can_be_refused(s: StateView)
    requires
        s.busy is Some || is_automatic(s) || s.selected_release >= s.releases.len(),
    ensures
        s.next(MsgView::ClickDownload).0 == s,
        s.next(MsgView::ClickDownload).1.len() == 0,
{
}

// ---------------------------------------------------------------------------
// Choosing among installed builds
// ---------------------------------------------------------------------------

/// Picking an installed build shows it, unless something is under way. Where versions are
/// kept side by side it is also switched to, by the name it has on disk, unless it is the
/// active one already.
pub proof fn picking_a_build_switches_to_it(s: StateView, i: usize)
    requires
        s.outstanding < u32::MAX,
    ensures
        ({
            let after = s.next(MsgView::SelectInstalled(i));
            let there = i < s.installed.len();
            let switch = there && s.multi_version && s.active != Some(s.installed[i as int].name);
            &&& s.busy is Some ==> after.0 == s && after.1.len() == 0
            &&& s.busy is None && !switch ==> after.0 == (StateView { selected_installed: i, ..s })
                && after.1.len() == 0
            &&& s.busy is None && switch ==> after.0 == (StateView {
                selected_installed: i,
                busy: Some(Busy { status: None, value: None }),
                outstanding: (s.outstanding + 1) as u32,
                ..s
            }) && after.1 == seq![
                EffectView::Activate {
                    generation: s.generation,
                    game: s.selected_game,
                    name: s.installed[i as int].name,
                },
            ]
        }),
{
    match s.active {
        Some(active) => {
            search::first_that_is_first(
                |j: int| crate::state::is_current(s.installed[j], active, s.multi_version),
                0,
                s.installed.len() as int,
            );
            let p = |j: int| crate::state::is_current(s.installed[j], active, s.multi_version);
            if i < s.installed.len() && s.installed[i as int].name == active && s.multi_version {
                assert(p(i as int));
            }
        },
        None => {},
    }
}

/// Whether a build is one that is active: by its name where versions are kept side by
/// side, and by its tag otherwise.
pub open spec fn is_active(s: StateView, build: InstalledView) -> bool {
    s.active == Some(
        if s.multi_version {
            build.name
        } else {
            build.tag
        },
    )
}

/// The list of builds is taken over as it was read, with what is active. The selection
/// goes to the first active build, and to the first of all where none is.
pub proof fn a_read_list_is_shown(
    s: StateView,
    installed: Seq<InstalledView>,
    active: Option<Seq<char>>,
)
    requires
        installed.len() <= usize::MAX,
    ensures
        ({
            let msg = MsgView::InstalledLoaded {
                generation: s.generation,
                result: Ok((installed, active)),
            };
            let t = s.next(msg).0;
            let at = t.selected_installed as int;
            &&& s.next(msg).1.len() == 0
            &&& t == StateView { installed, active, selected_installed: t.selected_installed, ..s }
            &&& at > 0 ==> at < installed.len() && is_active(t, installed[at])
            &&& forall|j: int| 0 <= j < installed.len() && is_active(t, #[trigger] installed[j])
                ==> at <= j && is_active(t, installed[at])
        }),
{
    let s2 = StateView { installed, active, ..s };
    match active {
        Some(active) => {
            let p = |j: int| crate::state::is_current(installed[j], active, s.multi_version);
            search::first_that_is_first(p, 0, installed.len() as int);
            let msg = MsgView::InstalledLoaded {
                generation: s.generation,
                result: Ok((installed, Some(active))),
            };
            let t = s.next(msg).0;
            let at = t.selected_installed as int;
            assert forall|j: int|
                0 <= j < installed.len() && is_active(t, #[trigger] installed[j]) implies at <= j
                && is_active(t, installed[at]) by {
                assert(p(j));
            }
        },
        None => {},
    }
}

/// A list that could not be read is said, and what was shown stays.
pub proof fn an_unread_list_is_said(s: StateView, message: Seq<char>)
    ensures
        s.next(
            MsgView::InstalledLoaded { generation: s.generation, result: Err(message) },
        ).1.len() == 0,
        s.next(MsgView::InstalledLoaded { generation: s.generation, result: Err(message) }).0
            == (StateView {
            error: Some(
                AlertView {
                    title: "FailedToReadInstalledVersions"@,
                    message,
                    message_is_key: false,
                    generation: Some(s.generation),
                    title_arg: None,
                },
            ),
            ..s
        }),
{
}

// ---------------------------------------------------------------------------
// Removing a build
// ---------------------------------------------------------------------------

/// Remove asks about the build that is shown, where versions are kept side by side, there
/// is another build, and nothing is under way. What it would switch to is the first build
/// in the list with another name.
pub proof fn remove_asks_about_what_is_shown(s: StateView)
    ensures
        ({
            let after = s.next(MsgView::ClickRemove);
            let shown = s.installed[s.selected_installed as int].name;
            let can = s.busy is None && s.multi_version && s.selected_installed < s.installed.len()
                && exists|j: int|
                0 <= j < s.installed.len() && (#[trigger] s.installed[j]).name != shown;
            &&& !can ==> after.1.len() == 0 && after.0 == (StateView { pending_removal: None, ..s })
            &&& can ==> after.1 == seq![EffectView::ConfirmRemove { name: shown }]
            &&& can ==> after.0 == (StateView { pending_removal: after.0.pending_removal, ..s })
            &&& can ==> (after.0.pending_removal matches Some(pending) && pending.remove == shown
                && exists|j: int|
                0 <= j < s.installed.len() && (#[trigger] s.installed[j]).name != shown
                    && pending.activate == s.installed[j].name && forall|k: int|
                    0 <= k < j ==> (#[trigger] s.installed[k]).name == shown)
        }),
{
    let shown = s.installed[s.selected_installed as int].name;
    let p = |j: int| s.installed[j].name != shown;
    search::first_that_is_first(p, 0, s.installed.len() as int);
    let at = search::first_that(p, 0, s.installed.len() as int);
    assert(crate::state::other_index(s.installed, shown) == at);
    if at < s.installed.len() {
        assert(s.installed[at].name != shown);
        assert forall|k: int| 0 <= k < at implies (#[trigger] s.installed[k]).name == shown by {
            assert(!p(k));
        }
        if s.selected_installed < s.installed.len() {
            assert(s.installed[s.selected_installed as int].name == shown);
        }
    } else {
        assert forall|j: int| 0 <= j < s.installed.len() implies (
        #[trigger] s.installed[j]).name == shown by {
            assert(!p(j));
        }
    }
}

/// Confirming does what was asked about: it switches and then removes, in one go. While
/// something is under way it is refused with a message, and where nothing was asked it
/// does nothing. Either way the question is over.
pub proof fn confirming_does_what_was_asked(s: StateView)
    requires
        s.outstanding < u32::MAX,
    ensures
        ({
            let after = s.next(MsgView::ConfirmRemove);
            &&& after.0.pending_removal is None
            &&& s.pending_removal is None ==> after.0 == s && after.1.len() == 0
            &&& s.pending_removal is Some && s.busy is None ==> after.1 == seq![
                EffectView::SwitchThenRemove {
                    generation: s.generation,
                    game: s.selected_game,
                    activate: s.pending_removal->0.activate,
                    remove: s.pending_removal->0.remove,
                },
            ] && after.0 == (StateView {
                pending_removal: None,
                busy: Some(Busy { status: None, value: None }),
                outstanding: (s.outstanding + 1) as u32,
                ..s
            })
            &&& s.pending_removal is Some && s.busy is Some ==> after.1.len() == 0 && after.0 == (
            StateView {
                pending_removal: None,
                error: Some(
                    AlertView {
                        title: "FailedToRemoveVersion"@,
                        message: "RemoveBusyMessage"@,
                        message_is_key: true,
                        generation: Some(s.generation),
                        title_arg: None,
                    },
                ),
                ..s
            })
        }),
{
}

// ---------------------------------------------------------------------------
// Releases
// ---------------------------------------------------------------------------

/// Whether an update is due: there is a release, and no active build, the first of them,
/// is of the newest one.
pub open spec fn lacks_the_newest(
    installed: Seq<InstalledView>,
    active: Option<Seq<char>>,
    multi_version: bool,
    newest: Seq<char>,
) -> bool {
    forall|j: int|
        0 <= j < installed.len() && active == Some(
            if multi_version {
                (#[trigger] installed[j]).name
            } else {
                installed[j].tag
            },
        ) && (forall|k: int|
            0 <= k < j ==> active != Some(
                if multi_version {
                    (#[trigger] installed[k]).name
                } else {
                    installed[k].tag
                },
            )) ==> installed[j].tag != newest
}

proof fn due_is_lacking(s: StateView)
    requires
        s.releases.len() > 0,
    ensures
        s.due() == if lacks_the_newest(
            s.installed,
            s.active,
            s.multi_version,
            s.releases[0].tag,
        ) {
            Some(s.releases[0].tag)
        } else {
            None
        },
{
    let newest = s.releases[0].tag;
    match s.active {
        Some(active) => {
            let p = |j: int| crate::state::is_current(s.installed[j], active, s.multi_version);
            let n = s.installed.len() as int;
            search::first_that_is_first(p, 0, n);
            let at = search::first_that(p, 0, n);
            assert(crate::state::current_index(s.installed, active, s.multi_version) == at);
            assert forall|j: int|
                0 <= j < n && s.active == Some(
                    if s.multi_version {
                        (#[trigger] s.installed[j]).name
                    } else {
                        s.installed[j].tag
                    },
                ) && (forall|k: int|
                    0 <= k < j ==> s.active != Some(
                        if s.multi_version {
                            (#[trigger] s.installed[k]).name
                        } else {
                            s.installed[k].tag
                        },
                    )) implies j == at by {
                assert(p(j));
                if at < j {
                    assert(p(at));
                    let _ = s.installed[at].name;
                }
            }
            if at < n {
                assert(p(at));
                assert forall|k: int| 0 <= k < at implies s.active != Some(
                    if s.multi_version {
                        (#[trigger] s.installed[k]).name
                    } else {
                        s.installed[k].tag
                    },
                ) by {
                    assert(!p(k));
                }
                let _ = s.installed[at].tag;
            }
        },
        None => {},
    }
}

/// What is done with a list of releases: it is shown, with the newest picked, and the
/// newest is installed at once where the game updates by itself and has not got it.
pub open spec fn shows(
    before: StateView,
    found: Seq<RowView>,
    after: StateView,
    effects: Seq<EffectView>,
) -> bool {
    let install = is_automatic(before) && found.len() > 0 && lacks_the_newest(
        before.installed,
        before.active,
        before.multi_version,
        found[0].tag,
    );
    &&& !install ==> effects.len() == 0 && after == (StateView {
        releases: found,
        selected_release: 0,
        ..before
    })
    &&& install ==> effects == seq![
        EffectView::Install {
            generation: before.generation,
            game: before.selected_game,
            tag: found[0].tag,
        },
    ] && after == (StateView {
        releases: found,
        selected_release: 0,
        outstanding: (before.outstanding + 1) as u32,
        busy: if before.busy is None {
            Some(Busy { status: None, value: None })
        } else {
            before.busy
        },
        ..before
    })
}

proof fn adopting_shows(s: StateView, found: Seq<RowView>)
    ensures
        shows(s, found, s.adopting(found).0, s.adopting(found).1),
{
    let t = StateView { releases: found, selected_release: 0, ..s };
    if found.len() > 0 {
        due_is_lacking(t);
    }
}

/// Where in the cache the releases of a game are kept: apart for each game, and apart
/// with development builds and without.
pub open spec fn cache_place(game: GameId, develop: bool) -> int {
    match (game, develop) {
        (GameId::OpenRCT2, false) => 0,
        (GameId::OpenRCT2, true) => 1,
        (GameId::OpenLoco, false) => 2,
        (GameId::OpenLoco, true) => 3,
    }
}

/// A list of releases that comes in is kept for the game and the channels it was asked
/// for, and shown.
pub proof fn fetched_releases_are_shown(s: StateView, found: Seq<RowView>)
    requires
        s.release_cache.len() == 4,
    ensures
        ({
            let after = s.next(
                MsgView::ReleasesLoaded { generation: s.generation, result: Ok(found) },
            );
            let kept = StateView {
                release_cache: s.release_cache.update(
                    cache_place(s.selected_game, s.show_develop),
                    Some(found),
                ),
                ..s
            };
            shows(kept, found, after.0, after.1)
        }),
{
    let kept = StateView {
        release_cache: s.release_cache.update(
            cache_place(s.selected_game, s.show_develop),
            Some(found),
        ),
        ..s
    };
    adopting_shows(kept, found);
}

/// A list of releases that could not be had is said, and what was shown stays.
pub proof fn missing_releases_are_said(s: StateView, message: Seq<char>)
    ensures
        s.next(
            MsgView::ReleasesLoaded { generation: s.generation, result: Err(message) },
        ).1.len() == 0,
        s.next(MsgView::ReleasesLoaded { generation: s.generation, result: Err(message) }).0 == (
        StateView {
            error: Some(
                AlertView {
                    title: "FailedToObtainBuilds"@,
                    message,
                    message_is_key: false,
                    generation: Some(s.generation),
                    title_arg: None,
                },
            ),
            ..s
        }),
{
}

/// What a new generation begins with: nothing is under way in it, and no error of the
/// work that is abandoned is left. An error of a launch is.
pub open spec fn anew(s: StateView) -> StateView {
    StateView {
        generation: (s.generation + 1) as u64,
        outstanding: 0,
        busy: None,
        error: match s.error {
            Some(alert) if alert.generation is None => Some(alert),
            _ => None,
        },
        ..s
    }
}

/// Going to another game abandons what is under way, remembers the choice, empties both
/// lists and reads the builds of that game. Its releases are asked for, unless they are in
/// the cache.
pub proof fn choosing_a_game_starts_over(s: StateView, game: GameId)
    requires
        s.generation < u64::MAX,
        s.release_cache.len() == 4,
    ensures
        ({
            let after = s.next(MsgView::SelectGame(game));
            let fresh = StateView {
                selected_game: game,
                installed: seq![],
                releases: seq![],
                active: None,
                selected_installed: 0,
                selected_release: 0,
                ..anew(s)
            };
            let first = seq![
                EffectView::CancelInFlight { generation: s.generation },
                EffectView::SavePref(PrefView::SelectedGame(game)),
                EffectView::LoadInstalled { generation: (s.generation + 1) as u64, game },
            ];
            &&& after.1.take(3) == first
            &&& s.release_cache[cache_place(game, s.show_develop)] is None ==> after.0 == fresh
                && after.1.skip(3) == seq![
                EffectView::FetchReleases {
                    generation: (s.generation + 1) as u64,
                    game,
                    include_develop: s.show_develop,
                },
            ]
            &&& s.release_cache[cache_place(game, s.show_develop)] matches Some(found) ==> shows(
                fresh,
                found,
                after.0,
                after.1.skip(3),
            )
        }),
{
    let after = s.next(MsgView::SelectGame(game));
    let fresh = StateView {
        selected_game: game,
        installed: seq![],
        releases: seq![],
        active: None,
        selected_installed: 0,
        selected_release: 0,
        ..anew(s)
    };
    let first = seq![
        EffectView::CancelInFlight { generation: s.generation },
        EffectView::SavePref(PrefView::SelectedGame(game)),
        EffectView::LoadInstalled { generation: (s.generation + 1) as u64, game },
    ];
    let rest = fresh.wanting_releases().1;
    assert(after.1 =~= first + rest);
    assert(after.1.take(3) =~= first);
    assert(after.1.skip(3) =~= rest);
    match s.release_cache[cache_place(game, s.show_develop)] {
        Some(found) => adopting_shows(fresh, found),
        None => {},
    }
}

/// Turning development builds on or off does the same for the releases alone: what is
/// installed stays on screen.
pub proof fn choosing_channels_asks_for_releases(s: StateView, on: bool)
    requires
        s.generation < u64::MAX,
        s.release_cache.len() == 4,
    ensures
        ({
            let after = s.next(MsgView::ToggleDevelop(on));
            let fresh = StateView { show_develop: on, ..anew(s) };
            let first = seq![
                EffectView::CancelInFlight { generation: s.generation },
                EffectView::SavePref(PrefView::ShowDevelop(on)),
            ];
            &&& after.1.take(2) == first
            &&& s.release_cache[cache_place(s.selected_game, on)] is None ==> after.0 == fresh
                && after.1.skip(2) == seq![
                EffectView::FetchReleases {
                    generation: (s.generation + 1) as u64,
                    game: s.selected_game,
                    include_develop: on,
                },
            ]
            &&& s.release_cache[cache_place(s.selected_game, on)] matches Some(found) ==> shows(
                fresh,
                found,
                after.0,
                after.1.skip(2),
            )
        }),
{
    let after = s.next(MsgView::ToggleDevelop(on));
    let fresh = StateView { show_develop: on, ..anew(s) };
    let first = seq![
        EffectView::CancelInFlight { generation: s.generation },
        EffectView::SavePref(PrefView::ShowDevelop(on)),
    ];
    let rest = fresh.wanting_releases().1;
    assert(after.1 =~= first + rest);
    assert(after.1.take(2) =~= first);
    assert(after.1.skip(2) =~= rest);
    match s.release_cache[cache_place(s.selected_game, on)] {
        Some(found) => adopting_shows(fresh, found),
        None => {},
    }
}

// ---------------------------------------------------------------------------
// Settings
// ---------------------------------------------------------------------------

/// Letting a game update by itself is remembered for that game alone. Where that is turned
/// on, nothing is under way and the newest release is not the active one, it is installed
/// at once.
pub proof fn automatic_updates_are_for_one_game(s: StateView, on: bool)
    requires
        s.auto_update.len() == 2,
        s.outstanding < u32::MAX,
    ensures
        ({
            let after = s.next(MsgView::ToggleAutoUpdate(on));
            let saved = EffectView::SavePref(PrefView::AutoUpdate(on));
            let flags = match s.selected_game {
                GameId::OpenRCT2 => seq![on, s.auto_update[1]],
                GameId::OpenLoco => seq![s.auto_update[0], on],
            };
            let install = on && s.busy is None && s.releases.len() > 0 && lacks_the_newest(
                s.installed,
                s.active,
                s.multi_version,
                s.releases[0].tag,
            );
            &&& !install ==> after.1 == seq![saved] && after.0 == (StateView {
                auto_update: flags,
                ..s
            })
            &&& install ==> after.1 == seq![
                saved,
                EffectView::Install {
                    generation: s.generation,
                    game: s.selected_game,
                    tag: s.releases[0].tag,
                },
            ] && after.0 == (StateView {
                auto_update: flags,
                busy: Some(Busy { status: None, value: None }),
                outstanding: (s.outstanding + 1) as u32,
                ..s
            })
        }),
{
    let flags = match s.selected_game {
        GameId::OpenRCT2 => seq![on, s.auto_update[1]],
        GameId::OpenLoco => seq![s.auto_update[0], on],
    };
    let place = match s.selected_game {
        GameId::OpenRCT2 => 0,
        GameId::OpenLoco => 1int,
    };
    assert(s.auto_update.update(place, on) =~= flags);
    if s.releases.len() > 0 {
        due_is_lacking(StateView { auto_update: flags, ..s });
    }
    let after = s.next(MsgView::ToggleAutoUpdate(on));
    assert(after.1.len() == 2 ==> after.1 =~= seq![after.1[0], after.1[1]]);
}

/// Keeping versions side by side, or not, is one choice for every game: it is remembered,
/// and each game's directory is changed, once. While something is under way the choice is
/// refused.
pub proof fn the_layout_changes_for_every_game(s: StateView, on: bool)
    requires
        s.generation < u64::MAX,
    ensures
        ({
            let after = s.next(MsgView::ToggleMultiVersion(on));
            let generation = (s.generation + 1) as u64;
            &&& s.busy is Some ==> after.0 == s && after.1.len() == 0
            &&& s.busy is None ==> after.0 == (StateView {
                multi_version: on,
                outstanding: 2,
                busy: Some(Busy { status: None, value: None }),
                ..anew(s)
            })
            &&& s.busy is None ==> after.1 == seq![
                EffectView::CancelInFlight { generation: s.generation },
                EffectView::SavePref(PrefView::MultiVersion(on)),
                EffectView::SetMode { generation, game: GameId::OpenRCT2, multi_version: on },
                EffectView::SetMode { generation, game: GameId::OpenLoco, multi_version: on },
            ]
        }),
{
}

/// Looking for updates can be turned off, which takes an announcement off the screen, and
/// on again. Either is remembered.
pub proof fn looking_for_updates_is_a_choice(s: StateView, on: bool)
    ensures
        s.next(MsgView::ToggleCheckForUpdates(on)).1 == seq![
            EffectView::SavePref(PrefView::CheckForUpdates(on)),
        ],
        s.next(MsgView::ToggleCheckForUpdates(on)).0 == (StateView {
            check_for_updates: on,
            update: if on {
                s.update
            } else {
                None
            },
            ..s
        }),
        s.next(MsgView::ShowSettings) == (s, seq![EffectView::ShowSettings]),
{
}

/// What the look for an update found is announced, unless nobody wants to know; and an
/// announcement goes away when it is dismissed or followed, to the page it names.
pub proof fn updates_are_announced(s: StateView, found: Option<UpdateView>)
    ensures
        s.check_for_updates ==> s.next(MsgView::UpdateChecked(found)).0 == (StateView {
            update: found,
            ..s
        }),
        !s.check_for_updates ==> s.next(MsgView::UpdateChecked(found)).0 == s,
        s.next(MsgView::UpdateChecked(found)).1.len() == 0,
        s.next(MsgView::DismissUpdate).0 == (StateView { update: None, ..s }),
        s.next(MsgView::DismissUpdate).1.len() == 0,
        s.next(MsgView::OpenUpdatePage).0 == (StateView { update: None, ..s }),
        s.update is None ==> s.next(MsgView::OpenUpdatePage).1.len() == 0,
        s.update matches Some(update) ==> s.next(MsgView::OpenUpdatePage).1 == seq![
            EffectView::OpenUrl(update.url),
        ],
{
}

/// A directory for game data is remembered as it was chosen, and the data is looked for
/// again.
pub proof fn a_chosen_directory_is_remembered(s: StateView, root: Option<Seq<char>>)
    ensures
        s.next(MsgView::ChooseInstallRoot) == (s, seq![EffectView::PickInstallRoot]),
        s.next(MsgView::InstallRootChosen(root)).0 == (StateView { install_root: root, ..s }),
        s.next(MsgView::InstallRootChosen(root)).1 == seq![
            EffectView::SavePref(PrefView::InstallRoot(root)),
            EffectView::ScanGameData,
        ],
{
}

// ---------------------------------------------------------------------------
// Original games' data
// ---------------------------------------------------------------------------

/// An installer is asked for, and unpacked if one was picked. Picking none does nothing.
pub proof fn a_picked_installer_is_unpacked(
    s: StateView,
    game: OriginalGame,
    installer: Seq<char>,
)
    requires
        s.outstanding < u32::MAX,
    ensures
        s.next(MsgView::ChooseInstaller(game)) == (s, seq![EffectView::PickInstaller(game)]),
        s.next(MsgView::InstallerChosen { game, installer: None }).0 == s,
        s.next(MsgView::InstallerChosen { game, installer: None }).1.len() == 0,
        s.next(MsgView::InstallerChosen { game, installer: Some(installer) }).1 == seq![
            EffectView::InstallGameData { generation: s.generation, game, installer },
        ],
        s.next(MsgView::InstallerChosen { game, installer: Some(installer) }).0 == (StateView {
            outstanding: (s.outstanding + 1) as u32,
            busy: if s.busy is None {
                Some(Busy { status: None, value: None })
            } else {
                s.busy
            },
            ..s
        }),
{
}

/// Where an original game's data is kept track of.
pub open spec fn data_place(game: OriginalGame) -> int {
    match game {
        OriginalGame::RollerCoasterTycoon1 => 0,
        OriginalGame::RollerCoasterTycoon2 => 1,
        OriginalGame::Locomotion => 2,
    }
}

/// One operation less is under way, and the interface is free once none is.
pub open spec fn one_less(s: StateView) -> StateView {
    StateView {
        outstanding: if s.outstanding == 0 {
            0
        } else {
            (s.outstanding - 1) as u32
        },
        busy: if s.outstanding <= 1 {
            None
        } else {
            s.busy
        },
        ..s
    }
}

/// Data that was unpacked is shown where it is, for its own game; a failure is said.
pub proof fn unpacked_data_is_shown(
    s: StateView,
    game: OriginalGame,
    path: Seq<char>,
    message: Seq<char>,
)
    requires
        s.game_data.len() == 3,
    ensures
        ({
            let done = s.next(
                MsgView::GameDataInstalled { generation: s.generation, game, result: Ok(path) },
            );
            let failed = s.next(
                MsgView::GameDataInstalled { generation: s.generation, game, result: Err(message) },
            );
            &&& done.1.len() == 0 && failed.1.len() == 0
            &&& done.0 == StateView { game_data: done.0.game_data, ..one_less(s) }
            &&& done.0.game_data.len() == 3
            &&& forall|other: OriginalGame| #[trigger]
                done.0.game_data[data_place(other)] == if other == game {
                    Some(path)
                } else {
                    s.game_data[data_place(other)]
                }
            &&& failed.0 == StateView {
                error: Some(
                    AlertView {
                        title: "FailedToInstallGameData"@,
                        message,
                        message_is_key: false,
                        generation: Some(s.generation),
                        title_arg: None,
                    },
                ),
                ..one_less(s)
            }
        }),
{
}

/// What a look for the data found is shown, for each game as it was found last, and a game
/// that was not looked for keeps what was known of it.
pub proof fn found_data_is_shown(
    s: StateView,
    found: Seq<(OriginalGame, Option<Seq<char>>)>,
    game: OriginalGame,
)
    requires
        s.game_data.len() == 3,
    ensures
        ({
            let after = s.next(MsgView::GameDataScanned(found));
            let now = after.0.game_data[data_place(game)];
            &&& after.1.len() == 0
            &&& after.0 == StateView { game_data: after.0.game_data, ..s }
            &&& after.0.game_data.len() == 3
            &&& (forall|j: int| 0 <= j < found.len() ==> (#[trigger] found[j]).0 != game) ==> now
                == s.game_data[data_place(game)]
            &&& forall|j: int|
                0 <= j < found.len() && (#[trigger] found[j]).0 == game && (forall|k: int|
                    j < k < found.len() ==> (#[trigger] found[k]).0 != game) ==> now == found[j].1
        }),
{
    last_find_counts(s.game_data, found, game);
}

proof fn last_find_counts(
    data: Seq<Option<Seq<char>>>,
    found: Seq<(OriginalGame, Option<Seq<char>>)>,
    game: OriginalGame,
)
    requires
        data.len() == 3,
    ensures
        ({
            let after = crate::state::with_finds(data, found);
            let now = after[data_place(game)];
            &&& after.len() == 3
            &&& (forall|j: int| 0 <= j < found.len() ==> (#[trigger] found[j]).0 != game) ==> now
                == data[data_place(game)]
            &&& forall|j: int|
                0 <= j < found.len() && (#[trigger] found[j]).0 == game && (forall|k: int|
                    j < k < found.len() ==> (#[trigger] found[k]).0 != game) ==> now == found[j].1
        }),
    decreases found.len(),
{
    if found.len() > 0 {
        let init = found.drop_last();
        let last = found.last();
        last_find_counts(data, init, game);
        let after = crate::state::with_finds(data, found);
        let now = after[data_place(game)];
        assert(found[found.len() - 1] == last);
        if forall|j: int| 0 <= j < found.len() ==> (#[trigger] found[j]).0 != game {
            assert forall|j: int| 0 <= j < init.len() implies (#[trigger] init[j]).0 != game by {
                assert(found[j].0 != game);
            }
        }
        assert forall|j: int|
            0 <= j < found.len() && (#[trigger] found[j]).0 == game && (forall|k: int|
                j < k < found.len() ==> (#[trigger] found[k]).0 != game) implies now
            == found[j].1 by {
            if j < init.len() {
                assert(init[j] == found[j]);
                assert(found[found.len() - 1].0 != game);
                assert forall|k: int| j < k < init.len() implies (#[trigger] init[k]).0
                    != game by {
                    assert(found[k].0 != game);
                }
            }
        }
    }
}

// ---------------------------------------------------------------------------
// Work that ends
// ---------------------------------------------------------------------------

/// The alert for a failure of the current work.
pub open spec fn said(s: StateView, title: Seq<char>, message: Seq<char>) -> Option<AlertView> {
    Some(
        AlertView {
            title,
            message,
            message_is_key: false,
            generation: Some(s.generation),
            title_arg: None,
        },
    )
}

/// An install or a switch that ends well clears the error on screen and has the builds
/// read again; one that fails is said, each under its own title, and nothing is read.
pub proof fn work_that_ends_is_shown(s: StateView, message: Seq<char>)
    ensures
        ({
            let generation = s.generation;
            let reload = EffectView::LoadInstalled { generation, game: s.selected_game };
            let well = StateView { error: None, ..one_less(s) };
            &&& s.next(MsgView::InstallFinished { generation, result: Ok(()) }) == (
                well,
                seq![reload],
            )
            &&& s.next(MsgView::Activated { generation, result: Ok(()) }) == (well, seq![reload])
            &&& s.next(MsgView::Removed { generation, result: Ok(()) }) == (well, seq![reload])
            &&& s.next(MsgView::InstallFinished { generation, result: Err(message) }).0 == (
            StateView { error: said(s, "DownloadBuildFailedTitle"@, message), ..one_less(s) })
            &&& s.next(MsgView::InstallFinished { generation, result: Err(message) }).1.len() == 0
            &&& s.next(MsgView::Activated { generation, result: Err(message) }).0 == (StateView {
                error: said(s, "FailedToSwitchVersion"@, message),
                ..one_less(s)
            })
            &&& s.next(MsgView::Activated { generation, result: Err(message) }).1.len() == 0
        }),
{
}

/// A removal that fails is said too, and the builds are read again all the same: the switch
/// that came before it may have happened.
pub proof fn failed_removals_are_looked_into(s: StateView, message: Seq<char>)
    ensures
        ({
            let generation = s.generation;
            let after = s.next(MsgView::Removed { generation, result: Err(message) });
            &&& after.0 == StateView {
                error: said(s, "FailedToRemoveVersion"@, message),
                ..one_less(s)
            }
            &&& after.1 == seq![EffectView::LoadInstalled { generation, game: s.selected_game }]
        }),
{
}

/// A change of layout that ends well has the builds read again, and says which builds it
/// left where it left any.
pub proof fn a_changed_layout_is_shown(
    s: StateView,
    report: Option<ReportView>,
    message: Seq<char>,
)
    ensures
        ({
            let generation = s.generation;
            let reload = EffectView::LoadInstalled { generation, game: s.selected_game };
            let well = s.next(MsgView::ModeChanged { generation, result: Ok(report) });
            let badly = s.next(MsgView::ModeChanged { generation, result: Err(message) });
            let leaves = report matches Some(r) && r.retained.len() > 0;
            &&& well.0 == StateView { error: None, ..one_less(s) }
            &&& leaves ==> well.1 == seq![reload, EffectView::ShowDisableReport(report->0)]
            &&& !leaves ==> well.1 == seq![reload]
            &&& badly.0 == StateView {
                error: said(s, "FailedToChangeVersionMode"@, message),
                ..one_less(s)
            }
            &&& badly.1.len() == 0
        }),
{
}

/// What the current work says of itself is shown while any is under way.
pub proof fn progress_is_shown(s: StateView, status: Status, value: Option<Fraction>)
    ensures
        ({
            let msg = MsgView::Progress { generation: s.generation, status, value };
            &&& s.next(msg).1.len() == 0
            &&& s.outstanding > 0 ==> s.next(msg).0 == (StateView {
                busy: Some(Busy { status: Some(status), value }),
                ..s
            })
            &&& s.outstanding == 0 ==> s.next(msg).0 == s
        }),
{
}

/// A game that does not start is said, by its name; one that does clears that, and no
/// other error.
pub proof fn launches_are_followed(s: StateView, message: Seq<char>)
    ensures
        ({
            let well = s.next(MsgView::LaunchFinished { result: Ok(()) });
            let badly = s.next(MsgView::LaunchFinished { result: Err(message) });
            &&& well.1.len() == 0 && badly.1.len() == 0
            &&& (s.error matches Some(alert) && alert.generation is None) ==> well.0 == (StateView {
                error: None,
                ..s
            })
            &&& !(s.error matches Some(alert) && alert.generation is None) ==> well.0 == s
            &&& badly.0 == StateView {
                error: Some(
                    AlertView {
                        title: "FailedToLaunchGame"@,
                        message,
                        message_is_key: false,
                        generation: None,
                        title_arg: Some(
                            match s.selected_game {
                                GameId::OpenRCT2 => "OpenRCT2"@,
                                GameId::OpenLoco => "OpenLoco"@,
                            },
                        ),
                    },
                ),
                ..s
            }
        }),
{
}

/// A repair that failed when the launcher started is said.
pub proof fn failed_repairs_are_said(s: StateView, message: Seq<char>)
    ensures
        s.next(MsgView::StartupRepairFailed { message }).0 == (StateView {
            error: said(s, "FailedToRepairInstallation"@, message),
            ..s
        }),
        s.next(MsgView::StartupRepairFailed { message }).1.len() == 0,
{
}

/// Work that was asked for before is not listened to any more, whatever it says.
pub proof fn abandoned_work_is_not_heard(s: StateView, old: u64, message: Seq<char>)
    requires
        old != s.generation,
    ensures
        s.next(MsgView::InstallFinished { generation: old, result: Err(message) }) == (
            s,
            Seq::<EffectView>::empty(),
        ),
        s.next(MsgView::Activated { generation: old, result: Ok(()) }) == (
            s,
            Seq::<EffectView>::empty(),
        ),
        s.next(MsgView::Removed { generation: old, result: Ok(()) }) == (
            s,
            Seq::<EffectView>::empty(),
        ),
        s.next(MsgView::InstallFinished { generation: old, result: Ok(()) }) == (
            s,
            Seq::<EffectView>::empty(),
        ),
        s.next(MsgView::ModeChanged { generation: old, result: Ok(None) }) == (
            s,
            Seq::<EffectView>::empty(),
        ),
{
}

/// What was asked about is a removal that waits, and nothing else that happens answers it
/// but a confirmation or another question.
pub proof fn a_question_waits(s: StateView, msg: MsgView, pending: RemovalView)
    requires
        s.pending_removal == Some(pending),
        !(msg is ClickRemove),
        !(msg is ConfirmRemove),
    ensures
        s.next(msg).0.pending_removal == Some(pending),
{
}

} // verus!
