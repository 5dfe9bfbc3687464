//! What the functions that change something make of it, said by what was there before:
//! each law takes a call's arguments, as they were and as they become, and a result that
//! the call may have.

use vstd::prelude::*;

use crate::behaviour_laws;
use crate::controller;
use crate::controller::ProgressThrottle;
use crate::disk::{Folder, Plan, Spot};
use crate::download::{Event, Fraction, Progress, Status, Transfer, Verdict};
use crate::error::{CoreError, StoreError};
use crate::game::GameId;
use crate::gamedata::Unpacking;
use crate::github;
use crate::install;
use crate::install::Install;
use crate::path;
use crate::prefs::{Prefs, ValueView};
use crate::release;
use crate::release::Release;
use crate::size;
use crate::size::{Found, SizeWalk};
use crate::state;
use crate::state::{Effect, Msg, Pref, UiState};
use crate::store;
use crate::store::{DisableReport, Mode, VersionStore};
use crate::text;

verus! {

broadcast use vstd::string::group_string_axioms;

// ---------------------------------------------------------------------------
// The interface
// ---------------------------------------------------------------------------

/// Whether the selected game is set to update by itself.
pub open spec fn is_automatic(state: UiState) -> bool {
    match state.selected_game {
        GameId::OpenRCT2 => state.auto_update@[0],
        GameId::OpenLoco => state.auto_update@[1],
    }
}

/// Play starts the build that is shown, in its directory, where it can be started and
/// nothing else is under way.
pub proof fn play_is_answered(state: &mut UiState, effects: Vec<Effect>)
    requires
        call_ensures(state::reduce, (state, Msg::ClickPlay), effects),
    ensures
        ({
            let shown = old(state).selected_installed as int;
            let can = old(state).busy is None && shown < old(state).installed@.len()
                && old(state).installed@[shown].can_launch;
            &&& can ==> effects@.len() == 1 && effects@[0] is Launch && effects@[0]->Launch_game
                == old(state).selected_game && effects@[0]->dir@
                == old(state).installed@[shown].dir@
            &&& !can ==> effects@.len() == 0
            &&& final(state)@ == old(state)@
        }),
{
    let s = old(state)@;
    let seen = state::effects_of(effects@);
    behaviour_laws::play_starts_what_is_shown(s);
    assert(seen.len() == effects@.len());
    if s.selected_installed < s.installed.len() {
        assert(s.installed[s.selected_installed as int] == old(state).installed@[s.selected_installed as int]@);
    }
    if effects@.len() == 1 {
        assert(seen[0] == effects@[0]@);
    }
}

/// Download fetches the release the selection stands on, of the game that is selected, and
/// the interface is busy from then on.
pub proof fn download_is_answered(state: &mut UiState, effects: Vec<Effect>)
    requires
        call_ensures(state::reduce, (state, Msg::ClickDownload), effects),
        old(state).outstanding < u32::MAX,
    ensures
        ({
            let shown = old(state).selected_release as int;
            let can = old(state).busy is None && !is_automatic(*old(state)) && shown < old(state).releases@.len();
            &&& can ==> effects@.len() == 1 && effects@[0] is Install && effects@[0]->Install_game
                == old(state).selected_game && effects@[0]->Install_generation == old(state).generation && effects@[0]->tag@ == old(state).releases@[shown].tag@
            &&& can ==> final(state).busy is Some && final(state).outstanding == old(state).outstanding + 1
            &&& !can ==> effects@.len() == 0 && final(state)@ == old(state)@
        }),
{
    let s = old(state)@;
    let seen = state::effects_of(effects@);
    assert(seen.len() == effects@.len());
    let can = s.busy is None && !behaviour_laws::is_automatic(s) && s.selected_release
        < s.releases.len();
    if can {
        assert(s.releases[s.selected_release as int] == old(state).releases@[s.selected_release as int]@);
        assert(s.next(state::MsgView::ClickDownload).1.len() == 1) by {
            behaviour_laws::download_fetches_what_was_picked(s, s.selected_release);
            assert(s.next(state::MsgView::SelectRelease(s.selected_release)).0 == s);
        }
        behaviour_laws::download_fetches_what_was_picked(s, s.selected_release);
        assert(s.next(state::MsgView::SelectRelease(s.selected_release)).0 == s);
        assert(seen[0] == effects@[0]@);
        assert(final(state)@.outstanding == final(state).outstanding);
        assert(final(state)@.busy == final(state).busy);
    } else {
        behaviour_laws::download_can_be_refused(s);
    }
}

/// Picking a release only moves the selection.
pub proof fn picked_releases_are_selected(state: &mut UiState, i: usize, effects: Vec<Effect>)
    requires
        call_ensures(state::reduce, (state, Msg::SelectRelease(i)), effects),
    ensures
        final(state).selected_release == i,
        final(state)@ == (state::StateView { selected_release: i, ..old(state)@ }),
        effects@.len() == 0,
{
    assert(final(state)@.selected_release == final(state).selected_release);
    assert(state::effects_of(effects@).len() == effects@.len());
}

/// Updating by itself is set for one game, and stays as it is for the other.
pub proof fn automatic_updates_are_set(state: &mut UiState, game: GameId, on: bool)
    requires
        call_ensures(UiState::set_auto_update, (state, game, on), ()),
    ensures
        final(state).auto_update@[match game {
            GameId::OpenRCT2 => 0int,
            GameId::OpenLoco => 1,
        }] == on,
        final(state).auto_update@[match game {
            GameId::OpenRCT2 => 1int,
            GameId::OpenLoco => 0,
        }] == old(state).auto_update@[match game {
            GameId::OpenRCT2 => 1int,
            GameId::OpenLoco => 0,
        }],
{
    assert(final(state)@.auto_update == final(state).auto_update@);
    assert(old(state)@.auto_update == old(state).auto_update@);
    assert(old(state).auto_update@.len() == 2);
}

/// A report that is passed on is remembered with its time; one that is left out leaves
/// what is remembered as it was.
pub proof fn reports_are_remembered(t: &mut ProgressThrottle, p: Progress, now: u64, r: bool)
    requires
        call_ensures(ProgressThrottle::should_post, (t, p, now), r),
    ensures
        r == !(p.value is Some && p.value->0.done < p.value->0.total && (old(t).last matches Some(
            (at, status),
        ) && status == p.status && now < at + 50_000_000)),
        r ==> final(t).last == Some((now, p.status)),
        !r ==> final(t).last == old(t).last,
{
}

// ---------------------------------------------------------------------------
// Transfers and sizes
// ---------------------------------------------------------------------------

/// What was written is counted, and nothing else is; how much there is does not change.
pub proof fn what_is_written_is_counted(t: &mut Transfer, event: Event, v: Verdict)
    requires
        call_ensures(Transfer::stream, (t, event), v),
    ensures
        final(t).total == old(t).total,
        event matches Event::Wrote(n) ==> final(t).downloaded == old(t).downloaded + n,
        !(event is Wrote) ==> final(t).downloaded == old(t).downloaded,
        event is Cancelled ==> v is Failed && v->Failed_0 is Cancelled,
        event matches Event::ReadFailed(m) ==> v is Failed && v->Failed_0 is Http
            && v->Failed_0->Http_0@ == m@,
        event matches Event::WriteFailed(m) ==> v is Failed && v->Failed_0 is Io
            && v->Failed_0->Io_0@ == m@,
        event matches Event::SyncFailed(m) ==> v is Failed && v->Failed_0 is Io
            && v->Failed_0->Io_0@ == m@,
        event is ReadAll ==> v is Sync,
        event is Synced ==> v == Verdict::Finished(
            Progress {
                status: Status::Downloading,
                value: Some(Fraction { done: 1, total: 1 }),
            },
        ),
        event is Wrote ==> v is Continue,
{
}

/// Directories are looked into one by one, the last one found first, and each is looked
/// into once.
pub proof fn directories_are_looked_into(w: &mut SizeWalk, r: Option<String>)
    requires
        call_ensures(SizeWalk::next_dir, (w,), r),
    ensures
        r is Some <==> old(w).left().len() > 0,
        r matches Some(dir) ==> final(w).left().push(dir@) == old(w).left(),
        r is None ==> final(w).left().len() == 0,
        final(w).so_far() == old(w).so_far(),
{
    if let Some(dir) = r {
        assert(old(w).left().drop_last().push(old(w).left().last()) =~= old(w).left());
    }
}

/// A directory in which one file lies adds that file's size.
pub proof fn files_are_added(w: &mut SizeWalk, found: &Vec<Found>)
    requires
        call_ensures(SizeWalk::saw, (w, found), ()),
    ensures
        found@.len() == 1 && found@[0] is File && old(w).so_far() + found@[0]->bytes <= u64::MAX
            ==> final(w).so_far() == old(w).so_far() + found@[0]->bytes && final(w).left() == old(w).left(),
        found@.len() == 1 && found@[0] is Dir ==> final(w).so_far() == old(w).so_far() && final(w).left() == old(w).left().push(found@[0]->Dir_0@),
        found@.len() == 1 && (found@[0] is Link || found@[0] is Unknown) ==> final(w).so_far()
            == old(w).so_far() && final(w).left() == old(w).left(),
        found@.len() == 0 ==> final(w).so_far() == old(w).so_far() && final(w).left() == old(w).left(),
{
    let seen = size::finds(found@);
    let none: Seq<size::FoundView> = seq![];
    if found@.len() == 1 {
        assert(seen =~= none.push(found@[0]@));
        size::each_entry_counts_once(none, found@[0]@);
    } else if found@.len() == 0 {
        assert(seen =~= none);
        size::each_entry_counts_once(none, size::FoundView::Link);
    }
    assert(old(w).left() + Seq::<Seq<char>>::empty() =~= old(w).left());
    assert(size::dirs_in(none) =~= Seq::<Seq<char>>::empty());
    if found@.len() == 1 && found@[0] is Dir {
        let one = found@[0]->Dir_0@;
        assert(old(w).left() + Seq::<Seq<char>>::empty().push(one) =~= old(w).left().push(one));
    }
}

/// Each file that is written is counted and reported, of as many as there are.
pub proof fn files_written_are_reported(u: &mut Unpacking, p: Progress)
    requires
        call_ensures(Unpacking::wrote, (u,), p),
    ensures
        final(u)@.written == old(u)@.written + 1,
        final(u)@.files == old(u)@.files,
        p.status == Status::Extracting,
        p.value is Some && p.value->0.done == final(u)@.written && p.value->0.total == old(u)@.files.len(),
{
}

// ---------------------------------------------------------------------------
// Settings
// ---------------------------------------------------------------------------

/// What is set is what is read afterwards, and every other setting stays.
pub proof fn settings_are_set(
    p: &mut Prefs,
    q: &mut Prefs,
    r: &mut Prefs,
    s: &mut Prefs,
    key: &str,
    on: bool,
    n: i64,
    words: &str,
)
    requires
        call_ensures(Prefs::set_bool, (p, key, on), ()),
        call_ensures(Prefs::set_int, (q, key, n), ()),
        call_ensures(Prefs::set_string, (r, key, words), ()),
        call_ensures(Prefs::remove, (s, key), ()),
    ensures
        final(p)@ == old(p)@.insert(key@, ValueView::Flag(on)),
        final(q)@ == old(q)@.insert(key@, ValueView::Number(n as int)),
        final(r)@ == old(r)@.insert(key@, ValueView::Text(words@)),
        final(s)@ == old(s)@.remove(key@),
        final(p).name() == old(p).name() && final(q).name() == old(q).name() && final(r).name()
            == old(r).name() && final(s).name() == old(s).name(),
{
}

/// Settings are saved under the names they are read by.
pub proof fn choices_are_saved(
    a: &mut Prefs,
    b: &mut Prefs,
    c: &mut Prefs,
    game: GameId,
    other: GameId,
    on: bool,
    root: String,
)
    requires
        call_ensures(Prefs::save, (a, Pref::AutoUpdate(on), game), ()),
        call_ensures(Prefs::save, (b, Pref::SelectedGame(other), game), ()),
        call_ensures(Prefs::save, (c, Pref::InstallRoot(Some(root)), game), ()),
    ensures
        game == GameId::OpenRCT2 ==> final(a)@ == old(a)@.insert(
            "autoInstallUpdates.OpenRCT2"@,
            ValueView::Flag(on),
        ),
        game == GameId::OpenLoco ==> final(a)@ == old(a)@.insert(
            "autoInstallUpdates.OpenLoco"@,
            ValueView::Flag(on),
        ),
        other == GameId::OpenRCT2 ==> final(b)@ == old(b)@.insert(
            "selectedGame"@,
            ValueView::Text("OpenRCT2"@),
        ),
        other == GameId::OpenLoco ==> final(b)@ == old(b)@.insert(
            "selectedGame"@,
            ValueView::Text("OpenLoco"@),
        ),
        final(c)@ == old(c)@.insert("gameDataDirectory"@, ValueView::Text(root@)),
{
    crate::prefs::settings_are_stored_by_name(old(a)@, game, other, on, root@);
    crate::prefs::settings_are_stored_by_name(old(b)@, game, other, on, root@);
    crate::prefs::settings_are_stored_by_name(old(c)@, game, other, on, root@);
}

// ---------------------------------------------------------------------------
// Releases and builds
// ---------------------------------------------------------------------------

/// Sorting leaves every release where the later ones stand in front of it.
pub proof fn releases_are_sorted(releases: &mut Vec<Release>, i: int, j: int)
    requires
        call_ensures(Release::sort_newest_first, (releases,), ()),
    ensures
        final(releases)@.len() == old(releases)@.len(),
        0 <= i < j < final(releases)@.len() ==> (final(releases)@[j].published matches Some(later)
            ==> (final(releases)@[i].published matches Some(earlier) && earlier@ >= later@)),
        0 <= i < old(releases)@.len() ==> exists|k: int|
            0 <= k < final(releases)@.len() && (#[trigger] final(releases)@[k])@ == old(releases)@[i]@,
{
    let before = release::releases_of(old(releases)@);
    let after = release::releases_of(final(releases)@);
    assert(after == release::newest_first(before));
    release::newest_first_is_sorted(before);
    assert(after.len() == final(releases)@.len());
    if 0 <= i < j < after.len() {
        release::later_releases_stand_in_front(before, i, j);
        assert(after[i] == final(releases)@[i]@ && after[j] == final(releases)@[j]@);
    }
    if 0 <= i < before.len() {
        assert(before[i] == old(releases)@[i]@);
        github::listed_again(before, before[i]);
        let k = after.index_of(before[i]);
        assert(after[k] == final(releases)@[k]@);
    }
}

/// A build that is there is switched to where versions are kept side by side; where that is
/// refused nothing changes.
pub proof fn switching_is_answered(
    store: &VersionStore,
    plan: &mut Plan,
    mode: Mode,
    name: &str,
    r: Result<(), StoreError>,
)
    requires
        call_ensures(VersionStore::activate, (store, plan, mode, name), r),
    ensures
        r is Ok <==> mode == Mode::MultiVersion && path::is_plain(name@) && old(plan)@.disk.landing(Spot { folder: Folder::Versions, name: name@ }) is Dir,
        r is Err ==> final(plan)@ == old(plan)@,
        r is Ok ==> final(plan)@ == old(plan)@.activating(name@),
        mode == Mode::Compatible ==> r->Err_0 is RequiresMultiVersion,
        mode == Mode::MultiVersion && path::is_plain(name@) && r is Err ==> r->Err_0
            is NoSuchVersion && r->Err_0->NoSuchVersion_0@ == name@,
{
}

/// A build that is there, and is not the active one, is removed with all that is in it,
/// where versions are kept side by side; nothing else is touched, and where it is refused
/// nothing changes.
pub proof fn removing_is_answered(
    store: &VersionStore,
    plan: &mut Plan,
    mode: Mode,
    name: &str,
    r: Result<(), StoreError>,
    other: Spot,
)
    requires
        call_ensures(VersionStore::remove, (store, plan, mode, name), r),
        old(plan)@.ready(),
    ensures
        r is Ok <==> mode == Mode::MultiVersion && path::is_plain(name@) && store::active_version(
            old(plan)@.disk,
        ) != Some(name@) && !(old(plan)@.disk.landing(
            Spot { folder: Folder::Versions, name: name@ },
        ) is Nothing),
        r is Err ==> final(plan)@ == old(plan)@,
        r is Ok && old(plan)@.disk.is_dir(Spot { folder: Folder::Versions, name: name@ }) ==> final(plan)@.disk.node(Spot { folder: Folder::Versions, name: name@ }) is None,
        r is Ok && old(plan)@.disk.is_dir(Spot { folder: Folder::Versions, name: name@ }) && other
            != (Spot { folder: Folder::Versions, name: name@ }) ==> final(plan)@.disk.node(other)
            == old(plan)@.disk.node(other),
        mode == Mode::MultiVersion && path::is_plain(name@) && store::active_version(
            old(plan)@.disk,
        ) == Some(name@) ==> r->Err_0 is RemoveActive,
{
    let spot = Spot { folder: Folder::Versions, name: name@ };
    if r is Ok && old(plan)@.disk.is_dir(spot) {
        crate::disk::steps_do_what_they_say(
            old(plan)@,
            crate::disk::ActView::RemoveTree(spot),
            crate::disk::OnError::Fail,
            other,
        );
    }
}

/// Going back to one build at a time is refused while an earlier change is unfinished; else
/// it says which build was active, and which stay on disk and how much they take.
pub proof fn going_back_is_reported(
    store: &VersionStore,
    plan: &mut Plan,
    r: Result<DisableReport, StoreError>,
)
    requires
        call_ensures(VersionStore::disable_multi_version, (store, plan), r),
    ensures
        r is Err <==> !(old(plan)@.disk.landing(
            Spot { folder: Folder::Game, name: ".bin.incoming"@ },
        ) is Nothing),
        r is Err ==> final(plan)@ == old(plan)@ && r->Err_0 is Io,
        r matches Ok(report) ==> {
            let left = store::stored(final(plan)@.disk, store.versions_dir());
            &&& text::opt_view(report.kept) == store::active_version(old(plan)@.disk)
            &&& report.retained@.len() == left.len()
            &&& forall|i: int|
                0 <= i < left.len() ==> (#[trigger] report.retained@[i])@ == left[i].build
            &&& report.retained_bytes == store::total_bytes(left)
        },
{
    if let Ok(report) = r {
        let left = store::stored(final(plan)@.disk, store.versions_dir());
        assert(report@.retained == store::builds(report.retained@));
        assert(report@.retained.len() == left.len());
        assert forall|i: int| 0 <= i < left.len() implies (#[trigger] report.retained@[i])@
            == left[i].build by {
            assert(report@.retained[i] == report.retained@[i]@);
        }
    }
}

/// Room is made by putting aside what is where the build goes; whether there was anything
/// is said, and it is refused where something was put aside before.
pub proof fn making_way_is_answered(
    i: &Install,
    store: &VersionStore,
    plan: &mut Plan,
    r: Result<bool, CoreError>,
)
    requires
        call_ensures(Install::make_way, (i, store, plan), r),
    ensures
        ({
            let to = match i.mode {
                Mode::MultiVersion => Spot { folder: Folder::Versions, name: i.name@ },
                Mode::Compatible => Spot { folder: Folder::Game, name: "bin"@ },
            };
            let trash = Spot {
                folder: match i.mode {
                    Mode::MultiVersion => Folder::Versions,
                    Mode::Compatible => Folder::Game,
                },
                name: ".trash-"@ + i.name@,
            };
            let before = old(plan)@.disk;
            &&& r is Err <==> before.node(to) is Some && before.node(trash) is Some
            &&& r is Err ==> r->Err_0 is Io && final(plan)@ == old(plan)@
            &&& r is Ok ==> r->Ok_0 == before.node(to) is Some
            &&& r == Ok::<bool, CoreError>(false) ==> final(plan)@ == old(plan)@
        }),
{
    assert(i@.mode == i.mode && i@.name == i.name@);
}

/// An install is of the tag that was asked for; a tag that names no directory is refused,
/// and nothing changes.
pub proof fn installs_are_begun(
    store: &VersionStore,
    plan: &mut Plan,
    mode: Mode,
    tag: &str,
    r: Result<Install, CoreError>,
)
    requires
        call_ensures(install::install, (store, plan, mode, tag), r),
    ensures
        r matches Ok(i) ==> i.mode == mode && i.tag@ == tag@,
        r matches Ok(i) ==> (mode == Mode::Compatible ==> Ok::<Seq<char>, crate::error::TagError>(
            i.name@,
        ) == crate::game::directory_name(tag@)),
        crate::game::directory_name(tag@) is Err ==> r is Err && r->Err_0 is Tag && final(plan)@
            == old(plan)@,
{
}

/// An install that is in place is switched to where versions are kept side by side: the
/// first build with its tag. One that is not listed then could not be told, and is said so;
/// where one build is kept at a time there is nothing to switch.
pub proof fn installed_builds_are_switched_to(
    store: &VersionStore,
    plan: &mut Plan,
    mode: Mode,
    tag: &str,
    r: Result<(), String>,
    i: int,
)
    requires
        call_ensures(controller::finish_install, (store, plan, mode, tag), r),
    ensures
        mode == Mode::Compatible ==> r is Ok && final(plan)@ == old(plan)@,
        ({
            let all = store::installations(
                old(plan)@.disk,
                mode,
                store.bin_dir(),
                store.versions_dir(),
            );
            &&& mode == Mode::MultiVersion && (forall|k: int|
                0 <= k < all.len() ==> (#[trigger] all[k]).tag != tag@) ==> r is Err && r->Err_0@
                == "the build was written but could not be identified afterwards; its version file may be unreadable"@
                && final(plan)@ == old(plan)@
            &&& mode == Mode::MultiVersion && 0 <= i < all.len() && all[i].tag == tag@ && (forall|k:
                int| 0 <= k < i ==> (#[trigger] all[k]).tag != tag@) && path::is_plain(all[i].name)
                && old(plan)@.disk.landing(
                Spot { folder: Folder::Versions, name: all[i].name },
            ) is Dir ==> r is Ok && final(plan)@ == old(plan)@.activating(all[i].name)
        }),
{
    let all = store::installations(
        old(plan)@.disk,
        mode,
        store.bin_dir(),
        store.versions_dir(),
    );
    let at = controller::tag_index(all, tag@);
    controller::builds_are_found_by_tag(all, tag@, i);
    if at < all.len() {
        assert(all[at].tag == tag@);
    }
}

/// Changing the layout for one that keeps versions side by side has nothing to report, and
/// going back reports what stays; what cannot be done says why and changes nothing.
pub proof fn layout_changes_are_answered(
    store: &VersionStore,
    plan: &mut Plan,
    on: bool,
    r: Result<Option<DisableReport>, String>,
)
    requires
        call_ensures(controller::set_mode, (store, plan, on), r),
    ensures
        on && r is Ok ==> r->Ok_0 is None,
        !on && r is Ok ==> r->Ok_0 is Some && text::opt_view(r->Ok_0->0.kept)
            == store::active_version(old(plan)@.disk),
        !on ==> (r is Err <==> !(old(plan)@.disk.landing(
            Spot { folder: Folder::Game, name: ".bin.incoming"@ },
        ) is Nothing)),
        !on && r is Err ==> final(plan)@ == old(plan)@,
{
}

} // verus!
