//! What carrying out an effect comes to: what is decided along the way, and the message
//! that is sent back.
//!
//! The work itself -- threads, network, disk, screen -- is done by the caller, which
//! hands in what it found and takes out what to say.

use vstd::prelude::*;

use crate::age;
use crate::age::Age;
use crate::dirs::Dirs;
use crate::disk::{ActView, Disk, OnError, Plan, PlanView};
use crate::download::{Progress, Status};
use crate::error::{CoreError, StoreErrorView};
use crate::game::GameId;
use crate::gamedata::OriginalGame;
use crate::path;
use crate::path::join;
use crate::prefs;
use crate::prefs::{Prefs, ValueView};
use crate::release;
use crate::release::{Release, ReleaseView};
use crate::search;
use crate::selfupdate::Update;
use crate::state;
use crate::state::{Effect, EffectView, Msg, MsgView, ReleaseRow, RowView, StateView, UiState};
use crate::store;
use crate::store::{DisableReport, Installed, InstalledView, Mode, VersionStore};
use crate::store_laws;
use crate::text;
use crate::text::{joined, same};
use crate::timestamp::Timestamp;

verus! {

broadcast use vstd::string::group_string_axioms;

/// Where the update check looks. Named here rather than read at run time: an application
/// that takes its update source from a file it ships is one whose update source can be
/// changed by editing that file.
pub const UPDATE_OWNER: &'static str = "northbymidwest";

pub const UPDATE_REPO: &'static str = "turnstile";

// ---------------------------------------------------------------------------
// Progress
// ---------------------------------------------------------------------------

/// The shortest gap between two *fraction* updates that are passed on, in nanoseconds.
///
/// Measured rather than guessed: a 117 MB release produced 7293 progress calls in 2.3
/// seconds, and each one redrew the whole window at some 434 microseconds. Passing three
/// thousand of them a second to a main thread that can retire two thousand means that it
/// never gets to the point of drawing anything.
pub const PROGRESS_INTERVAL: u64 = 50_000_000;

/// Whether a report only says how far along something is.
pub open spec fn is_intermediate(p: Progress) -> bool {
    match p.value {
        Some(fraction) => fraction.done < fraction.total,
        None => false,
    }
}

/// Decides which of an install's progress reports are worth passing on.
pub struct ProgressThrottle {
    /// When a report was last passed on, in nanoseconds, and what it said was going on.
    pub last: Option<(u64, Status)>,
}

impl ProgressThrottle {
    /// Nothing has been passed on yet.
    pub fn new() -> (t: ProgressThrottle)
        ensures
            t.last is None,
    {
        ProgressThrottle { last: None }
    }

    /// Whether a report is left out: it only says how far along something is, and the
    /// last one about the same thing was a moment ago.
    pub open spec fn leaves_out(self, p: Progress, now: u64) -> bool {
        &&& is_intermediate(p)
        &&& self.last matches Some((at, status)) && status == p.status && now
            < at + PROGRESS_INTERVAL
    }

    /// Whether `p` must be passed on. **Only an intermediate fraction is ever dropped.**
    /// The first report, any change of status, a switch to indeterminate and the report
    /// that completes a phase all say what is being *done* rather than how far along it
    /// is, and swallowing one would leave the interface stating something untrue.
    pub fn should_post(&mut self, p: Progress, now: u64) -> (r: bool)
        ensures
            r == !old(self).leaves_out(p, now),
            final(self).last == if r {
                Some((now, p.status))
            } else {
                old(self).last
            },
    {
        let intermediate: bool = match p.value {
            Some(fraction) => fraction.done < fraction.total,
            None => false,
        };
        if intermediate {
            if let Some((at, status)) = self.last {
                let elapsed: u64 = if now < at {
                    0
                } else {
                    now - at
                };
                if status == p.status && elapsed < PROGRESS_INTERVAL {
                    return false;
                }
            }
        }
        self.last = Some((now, p.status));
        true
    }
}

// ---------------------------------------------------------------------------
// Where things are
// ---------------------------------------------------------------------------

/// What is said where there is no home directory.
pub fn no_home() -> (out: String)
    ensures
        out@ == "no home directory"@,
{
    "no home directory".to_owned()
}

/// The directory game data is unpacked into, unless another was chosen.
pub open spec fn default_root(dirs: Option<Dirs>) -> Seq<char> {
    match dirs {
        Some(dirs) => path::under(dirs@, "Turnstile/games"@),
        None => "."@,
    }
}

/// `~/Library/Application Support/Turnstile/games`, falling back to the current
/// directory in the impossible case of no home, so that this is always an answer.
pub fn default_install_root(dirs: &Option<Dirs>) -> (out: String)
    ensures
        out@ == default_root(*dirs),
{
    match dirs {
        Some(dirs) => join(dirs.app_support.as_str(), "Turnstile/games"),
        None => ".".to_owned(),
    }
}

/// Where game data is unpacked: whatever Settings says, or the default beneath
/// Turnstile's own directory.
pub fn install_root(prefs: &Prefs, dirs: &Option<Dirs>) -> (out: String)
    ensures
        out@ == match prefs::chosen_root(prefs@) {
            Some(root) => root,
            None => default_root(*dirs),
        },
{
    match prefs.install_root() {
        Some(root) => root,
        None => default_install_root(dirs),
    }
}

/// The directory a game's data is unpacked into.
pub fn game_data_destination(root: &str, game: OriginalGame) -> (out: String)
    ensures
        out@ == path::under(root@, game.dir_name()),
{
    join(root, game.directory())
}

/// Where a game's data is, if the game's own configuration says so and something is
/// actually there. The configuration is the authority rather than the preference:
/// somebody may have pointed the game somewhere by hand.
pub fn installed_game_data(configured: Option<String>, is_there: bool) -> (r: Option<String>)
    ensures
        text::opt_view(r) == if is_there {
            text::opt_view(configured)
        } else {
            None
        },
{
    if is_there {
        configured
    } else {
        None
    }
}

/// The version store of a game, where there is a home directory.
pub fn store_for(dirs: Option<Dirs>, game: GameId) -> (r: Option<VersionStore>)
    ensures
        r is Some <==> dirs is Some,
        r matches Some(s) ==> s.dirs@ == dirs->0@ && s.game == game,
{
    match dirs {
        Some(dirs) => Some(VersionStore::new(dirs, game)),
        None => None,
    }
}

// ---------------------------------------------------------------------------
// Starting
// ---------------------------------------------------------------------------

/// The interface as it starts, with what the settings say and nothing else known yet.
pub open spec fn first_state(prefs: Map<Seq<char>, ValueView>) -> StateView {
    StateView {
        selected_game: prefs::chosen_game(prefs),
        installed: seq![],
        selected_installed: 0,
        active: None,
        releases: seq![],
        release_cache: seq![None, None, None, None],
        selected_release: 0,
        show_develop: prefs::flag(prefs, prefs::KEY_SHOW_DEVELOP@),
        check_for_updates: prefs::checks_for_updates(prefs),
        game_data: seq![None, None, None],
        install_root: None,
        update: None,
        auto_update: seq![
            prefs::updates_itself(prefs, GameId::OpenRCT2),
            prefs::updates_itself(prefs, GameId::OpenLoco),
        ],
        multi_version: prefs::flag(prefs, prefs::KEY_MULTI_VERSION@),
        busy: None,
        outstanding: 0,
        error: None,
        generation: 0,
        pending_removal: None,
    }
}

/// The interface as it starts. Every game's setting for updating itself is taken over,
/// not just the selected one's: selecting a game reads no settings, so this leaves no
/// moment in which one game's releases could be acted on by another's setting.
pub fn start(prefs: &Prefs) -> (s: UiState)
    ensures
        s@ == first_state(prefs@),
{
    let mut state: UiState = UiState::new(prefs.selected_game());
    state.show_develop = prefs.show_develop();
    state.check_for_updates = prefs.check_for_updates();
    state.multi_version = prefs.multi_version();
    state.set_auto_update(GameId::OpenRCT2, prefs.auto_update(GameId::OpenRCT2));
    state.set_auto_update(GameId::OpenLoco, prefs.auto_update(GameId::OpenLoco));
    state
}

/// What is said of the games that could not be repaired, one line for each.
pub open spec fn repair_text(failures: Seq<(GameId, String)>) -> Seq<char>
    decreases failures.len(),
{
    if failures.len() == 0 {
        seq![]
    } else {
        let line = failures.last().0.title() + ": "@ + failures.last().1@;
        if failures.len() == 1 {
            line
        } else {
            repair_text(failures.drop_last()) + "\n"@ + line
        }
    }
}

/// The message to send where some game could not be repaired. Reported rather than
/// discarded: a repair can fail with an error whose stated remedy is the thing that just
/// failed, and swallowing it would leave somebody with an unrepaired installation and
/// told nothing.
pub fn repair_failures(failures: &Vec<(GameId, String)>) -> (r: Option<Msg>)
    ensures
        r is None <==> failures@.len() == 0,
        r matches Some(msg) ==> msg@ == (MsgView::StartupRepairFailed {
            message: repair_text(failures@),
        }),
{
    if failures.len() == 0 {
        return None;
    }
    let mut message: String = String::new();
    let mut i: usize = 0;
    while i < failures.len()
        invariant
            i <= failures@.len(),
            message@ == repair_text(failures@.take(i as int)),
        decreases failures@.len() - i,
    {
        let ghost front = failures@.take(i as int + 1);
        assert(front.drop_last() =~= failures@.take(i as int));
        let line: String = joined(
            joined(failures[i].0.display_name(), ": ").as_str(),
            failures[i].1.as_str(),
        );
        message = if i == 0 {
            line
        } else {
            joined(joined(message.as_str(), "\n").as_str(), line.as_str())
        };
        i += 1;
    }
    assert(failures@.take(i as int) =~= failures@);
    Some(Msg::StartupRepairFailed { message })
}

// ---------------------------------------------------------------------------
// Who does what
// ---------------------------------------------------------------------------

/// Where an effect is carried out.
#[derive(Debug, Clone, Copy, PartialEq, Eq, Structural)]
pub enum Lane {
    /// At once, on the main thread.
    Main,
    /// On a thread of its own, together with anything else.
    Worker,
    /// On a thread of its own, with no other store operation running for the whole of
    /// it, whichever game that is about.
    Store,
}

/// Where an effect is carried out. Everything that touches the version store is kept
/// apart from everything else that does, reads included: a removal running alongside
/// would have two halves of one answer describing two different moments. A request to
/// GitHub is not, so that one that hangs holds up nothing; neither is a launch, which
/// changes nothing.
pub open spec fn lane_of(effect: EffectView) -> Lane {
    match effect {
        EffectView::LoadInstalled { .. } => Lane::Store,
        EffectView::InstallGameData { .. } => Lane::Store,
        EffectView::Install { .. } => Lane::Store,
        EffectView::Activate { .. } => Lane::Store,
        EffectView::SwitchThenRemove { .. } => Lane::Store,
        EffectView::SetMode { .. } => Lane::Store,
        EffectView::CheckForUpdate => Lane::Worker,
        EffectView::ScanGameData => Lane::Worker,
        EffectView::FetchReleases { .. } => Lane::Worker,
        EffectView::Launch { .. } => Lane::Worker,
        EffectView::SavePref(_) => Lane::Main,
        EffectView::PickInstaller(_) => Lane::Main,
        EffectView::PickInstallRoot => Lane::Main,
        EffectView::ShowSettings => Lane::Main,
        EffectView::OpenUrl(_) => Lane::Main,
        EffectView::CancelInFlight { .. } => Lane::Main,
        EffectView::ConfirmRemove { .. } => Lane::Main,
        EffectView::ShowDisableReport(_) => Lane::Main,
    }
}

/// Where an effect is carried out.
pub fn lane(effect: &Effect) -> (l: Lane)
    ensures
        l == lane_of(effect@),
{
    match effect {
        Effect::LoadInstalled { .. } => Lane::Store,
        Effect::InstallGameData { .. } => Lane::Store,
        Effect::Install { .. } => Lane::Store,
        Effect::Activate { .. } => Lane::Store,
        Effect::SwitchThenRemove { .. } => Lane::Store,
        Effect::SetMode { .. } => Lane::Store,
        Effect::CheckForUpdate => Lane::Worker,
        Effect::ScanGameData => Lane::Worker,
        Effect::FetchReleases { .. } => Lane::Worker,
        Effect::Launch { .. } => Lane::Worker,
        Effect::SavePref(_) => Lane::Main,
        Effect::PickInstaller(_) => Lane::Main,
        Effect::PickInstallRoot => Lane::Main,
        Effect::ShowSettings => Lane::Main,
        Effect::OpenUrl(_) => Lane::Main,
        Effect::CancelInFlight { .. } => Lane::Main,
        Effect::ConfirmRemove { .. } => Lane::Main,
        Effect::ShowDisableReport(_) => Lane::Main,
    }
}

// ---------------------------------------------------------------------------
// Releases
// ---------------------------------------------------------------------------

/// The row for a release, at a given instant.
pub open spec fn row_for(release: ReleaseView, now: int) -> RowView {
    RowView {
        tag: release.tag,
        age: match release.published {
            Some(at) => Some(age::age_of(age::seconds_between(at, now))),
            None => None,
        },
        channel: release.channel,
    }
}

/// The rows for releases, at a given instant.
pub open spec fn rows_for(releases: Seq<ReleaseView>, now: int) -> Seq<RowView> {
    Seq::new(releases.len(), |i: int| row_for(releases[i], now))
}

/// Formats releases for the popup, as seen at a given instant. Nothing is left out: a
/// release that gets here already has a download this machine can run.
pub fn rows_at(releases: &Vec<Release>, now: Timestamp) -> (out: Vec<ReleaseRow>)
    ensures
        state::rows(out@) == rows_for(release::releases_of(releases@), now@),
{
    let ghost all = release::releases_of(releases@);
    let mut out: Vec<ReleaseRow> = Vec::new();
    let mut i: usize = 0;
    while i < releases.len()
        invariant
            i <= releases@.len(),
            all == release::releases_of(releases@),
            state::rows(out@) == rows_for(all.take(i as int), now@),
        decreases releases@.len() - i,
    {
        let r: &Release = &releases[i];
        let age: Option<Age> = match r.published {
            Some(at) => Some(Age::since(at, now)),
            None => None,
        };
        let ghost before = state::rows(out@);
        out.push(ReleaseRow { tag: r.tag.clone(), age, channel: r.channel });
        assert(state::rows(out@) =~= before.push(row_for(all[i as int], now@)));
        assert(rows_for(all.take(i as int + 1), now@) =~= rows_for(all.take(i as int), now@).push(
            row_for(all[i as int], now@),
        ));
        i += 1;
    }
    assert(all.take(i as int) =~= all);
    out
}

/// Formats releases for the popup, as seen now.
pub fn to_rows(releases: Vec<Release>) -> (out: Vec<ReleaseRow>)
    ensures
        exists|now: int|
            state::rows(out@) == #[trigger] rows_for(release::releases_of(releases@), now),
{
    let now: Timestamp = age::now();
    rows_at(&releases, now)
}

/// The first release with a tag, or how many there are.
pub open spec fn release_index(releases: Seq<ReleaseView>, tag: Seq<char>) -> int {
    search::first_that(|i: int| releases[i].tag == tag, 0, releases.len() as int)
}

/// The release to install. Every listed release already carries a download this host
/// can run, so there is no asset selection here.
pub fn listed_release<'a>(releases: &'a Vec<Release>, tag: &str) -> (r: Result<&'a Release, String>)
    ensures
        ({
            let all = release::releases_of(releases@);
            let i = release_index(all, tag@);
            &&& r is Ok <==> i < all.len()
            &&& r matches Ok(found) ==> found@ == all[i]
            &&& r matches Err(m) ==> m@ == "that build is no longer listed"@
        }),
{
    let ghost all = release::releases_of(releases@);
    let ghost p = |i: int| all[i].tag == tag@;
    let mut i: usize = 0;
    while i < releases.len() && !same(releases[i].tag.as_str(), tag)
        invariant
            i <= releases@.len(),
            all == release::releases_of(releases@),
            p == (|i: int| all[i].tag == tag@),
            forall|j: int| 0 <= j < i ==> !#[trigger] p(j),
        decreases releases@.len() - i,
    {
        i += 1;
    }
    proof {
        search::first_that_is(p, 0, all.len() as int, i as int);
    }
    if i < releases.len() {
        Ok(&releases[i])
    } else {
        Err("that build is no longer listed".to_owned())
    }
}

// ---------------------------------------------------------------------------
// Replies
// ---------------------------------------------------------------------------

/// The first installed build with a tag, or how many there are.
pub open spec fn tag_index(installed: Seq<InstalledView>, tag: Seq<char>) -> int {
    search::first_that(|i: int| installed[i].tag == tag, 0, installed.len() as int)
}

/// The first installed build with a name, or how many there are.
pub open spec fn name_index(installed: Seq<InstalledView>, name: Seq<char>) -> int {
    search::first_that(|i: int| installed[i].name == name, 0, installed.len() as int)
}

fn find_tag(installed: &Vec<Installed>, tag: &str) -> (i: usize)
    ensures
        i == tag_index(store::builds(installed@), tag@),
        i <= installed@.len(),
{
    let ghost all = store::builds(installed@);
    let ghost p = |i: int| all[i].tag == tag@;
    let mut i: usize = 0;
    while i < installed.len() && !same(installed[i].tag.as_str(), tag)
        invariant
            i <= installed@.len(),
            all == store::builds(installed@),
            p == (|i: int| all[i].tag == tag@),
            forall|j: int| 0 <= j < i ==> !#[trigger] p(j),
        decreases installed@.len() - i,
    {
        i += 1;
    }
    proof {
        search::first_that_is(p, 0, all.len() as int, i as int);
    }
    i
}

fn find_name(installed: &Vec<Installed>, name: &str) -> (i: usize)
    ensures
        i == name_index(store::builds(installed@), name@),
        i <= installed@.len(),
{
    let ghost all = store::builds(installed@);
    let ghost p = |i: int| all[i].name == name@;
    let mut i: usize = 0;
    while i < installed.len() && !same(installed[i].name.as_str(), name)
        invariant
            i <= installed@.len(),
            all == store::builds(installed@),
            p == (|i: int| all[i].name == name@),
            forall|j: int| 0 <= j < i ==> !#[trigger] p(j),
        decreases installed@.len() - i,
    {
        i += 1;
    }
    proof {
        search::first_that_is(p, 0, all.len() as int, i as int);
    }
    i
}

/// Which build to ask about before it is removed: the one that is called `name`, by its
/// tag. `name` is the on-disk identity, which is not what somebody should be asked to
/// confirm; but it is what finds the build, never the current selection, which can move
/// while the question is open.
pub fn removal_label(installed: &Vec<Installed>, name: &str) -> (out: String)
    ensures
        ({
            let all = store::builds(installed@);
            let i = name_index(all, name@);
            out@ == if i < all.len() {
                all[i].tag
            } else {
                name@
            }
        }),
{
    let i: usize = find_name(installed, name);
    if i < installed.len() {
        installed[i].tag.clone()
    } else {
        name.to_owned()
    }
}

/// The reply to a check for a newer launcher. Failure is silence: no banner is better
/// than an error on launch about a check nobody asked for.
pub fn update_checked(found: Result<Option<Update>, CoreError>) -> (msg: Msg)
    ensures
        msg@ == MsgView::UpdateChecked(
            match found {
                Ok(update) => state::maybe(update),
                Err(_) => None,
            },
        ),
{
    match found {
        Ok(update) => Msg::UpdateChecked(update),
        Err(_) => Msg::UpdateChecked(None),
    }
}

/// What is installed and which of it is active, as one directory shows it.
pub fn load_installed(
    store: &VersionStore,
    seen: Result<Disk, String>,
    mode: Mode,
    generation: u64,
) -> (msg: Msg)
    ensures
        msg@ == (MsgView::InstalledLoaded {
            generation,
            result: match seen {
                Ok(d) => Ok(
                    (
                        store::installations(d@, mode, store.bin_dir(), store.versions_dir()),
                        store::active_in(d@, mode),
                    ),
                ),
                Err(m) => Err(m@),
            },
        }),
{
    match seen {
        Ok(d) => Msg::InstalledLoaded {
            generation,
            result: Ok((store.installed(&d, mode), store.active(&d, mode))),
        },
        Err(m) => Msg::InstalledLoaded { generation, result: Err(m) },
    }
}

/// An outcome, with an error in words.
pub open spec fn said(r: Result<(), StoreErrorView>) -> Result<(), Seq<char>> {
    match r {
        Ok(()) => Ok(()),
        Err(e) => Err(e.words()),
    }
}

/// Makes a version the active one, and says why where it cannot be.
pub fn activate(store: &VersionStore, plan: &mut Plan, mode: Mode, name: &str) -> (r: Result<
    (),
    String,
>)
    ensures
        state::outcome(r) == said(store::activation(old(plan)@.disk, mode, name@)),
        final(plan)@ == if r is Ok {
            old(plan)@.activating(name@)
        } else {
            old(plan)@
        },
{
    match store.activate(plan, mode, name) {
        Ok(()) => Ok(()),
        Err(e) => Err(e.message()),
    }
}

/// What is said where the build that was just written is not among those installed. Not
/// "vanished": the build may be correct and its `.version` file unreadable.
pub open spec fn unidentified() -> Seq<char> {
    "the build was written but could not be identified afterwards; its version file may be unreadable"@
}

/// What is left to do once a build has been written. Where versions are kept side by
/// side it is made the active one, by the name it turns out to have: the directory need
/// not be called what the tag says. The newest comes first in the list, so the first
/// match is right even where an older build shares the tag.
pub fn finish_install(store: &VersionStore, plan: &mut Plan, mode: Mode, tag: &str) -> (r: Result<
    (),
    String,
>)
    ensures
        ({
            let all = store::installations(
                old(plan)@.disk,
                mode,
                store.bin_dir(),
                store.versions_dir(),
            );
            let i = tag_index(all, tag@);
            match mode {
                Mode::Compatible => r is Ok && final(plan)@ == old(plan)@,
                Mode::MultiVersion => if i < all.len() {
                    &&& state::outcome(r) == said(
                        store::activation(old(plan)@.disk, mode, all[i].name),
                    )
                    &&& final(plan)@ == if r is Ok {
                        old(plan)@.activating(all[i].name)
                    } else {
                        old(plan)@
                    }
                } else {
                    &&& state::outcome(r) == Err::<(), Seq<char>>(unidentified())
                    &&& final(plan)@ == old(plan)@
                },
            }
        }),
{
    if mode == Mode::Compatible {
        return Ok(());
    }
    let installed: Vec<Installed> = store.installed(plan.disk(), mode);
    let i: usize = find_tag(&installed, tag);
    if i < installed.len() {
        activate(store, plan, mode, installed[i].name.as_str())
    } else {
        Err(
            "the build was written but could not be identified afterwards; its version file may be unreadable".to_owned(),
        )
    }
}

/// Turns to keeping versions side by side, or back. Only the way back has something to
/// report.
pub fn set_mode(store: &VersionStore, plan: &mut Plan, multi_version: bool) -> (r: Result<
    Option<DisableReport>,
    String,
>)
    requires
        old(plan)@.ready(),
    ensures
        multi_version ==> {
            let (after, outcome) = store::enabling(
                old(plan)@,
                store.game_dir(),
                store.versions_dir(),
            );
            &&& final(plan)@ == after
            &&& r is Ok <==> outcome is Ok
            &&& r matches Ok(report) ==> report is None
            &&& r matches Err(m) ==> m@ == outcome->Err_0.words()
        },
        !multi_version ==> {
            let before = old(plan)@.disk;
            let left = store::stored(final(plan)@.disk, store.versions_dir());
            &&& r is Err <==> before.leads_somewhere(store::incoming())
            &&& r matches Err(m) ==> m@ == store::interrupted(store.game_dir()) && final(plan)@
                == old(plan)@
            &&& r is Ok ==> final(plan)@ == old(plan)@.disabling()
            &&& r matches Ok(report) ==> state::maybe(report) == Some(
                (store::ReportView {
                    kept: store::active_version(before),
                    retained: store::undated(left),
                    retained_bytes: store::total_bytes(left),
                }),
            )
        },
{
    if multi_version {
        match store.enable_multi_version(plan) {
            Ok(()) => Ok(None),
            Err(e) => Err(e.message()),
        }
    } else {
        match store.disable_multi_version(plan) {
            Ok(report) => Ok(Some(report)),
            Err(e) => Err(e.message()),
        }
    }
}

// ---------------------------------------------------------------------------
// Switching away from a build, and removing it
// ---------------------------------------------------------------------------

/// What is said where the build to switch to is gone.
pub open spec fn nothing_to_switch_to() -> Seq<char> {
    "the version to switch to is no longer installed"@
}

/// Why a build cannot be switched to, if it cannot.
pub open spec fn switching(
    plan: PlanView,
    mode: Mode,
    bin_dir: Seq<char>,
    versions: Seq<char>,
    name: Seq<char>,
) -> Result<(), Seq<char>> {
    let all = store::installations(plan.disk, mode, bin_dir, versions);
    if name_index(all, name) < all.len() {
        said(store::activation(plan.disk, mode, name))
    } else {
        Err(nothing_to_switch_to())
    }
}

/// What becomes of the installed builds when one is switched to and another removed.
/// The removal is planned only where the switch was.
pub open spec fn switched_then_removed(
    plan: PlanView,
    mode: Mode,
    bin_dir: Seq<char>,
    versions: Seq<char>,
    activate: Seq<char>,
    remove: Seq<char>,
) -> PlanView {
    if switching(plan, mode, bin_dir, versions, activate) is Ok {
        let switched = plan.activating(activate);
        if store::removal(switched.disk, mode, remove) is Ok {
            switched.step(ActView::RemoveTree(store::version(remove)), OnError::Fail)
        } else {
            switched
        }
    } else {
        plan
    }
}

/// Switches to `activate`, and deletes `remove` only if that switch really happened.
/// Both are steps of one plan, so there is nowhere for anything else to get between the
/// two halves.
///
/// The failures are reported as different messages: a failed switch as `Activated`,
/// because nothing was deleted; a failed removal as `Removed`, which also reloads,
/// because by then `bin` has already moved.
///
/// Nothing here lets the active version be removed: if the switch silently did nothing,
/// removing would still be refused, and the answer would be an error instead of a broken
/// installation.
pub fn switch_then_remove(
    store: &VersionStore,
    plan: &mut Plan,
    mode: Mode,
    activate: &str,
    remove: &str,
    generation: u64,
) -> (msg: Msg)
    ensures
        final(plan)@ == switched_then_removed(
            old(plan)@,
            mode,
            store.bin_dir(),
            store.versions_dir(),
            activate@,
            remove@,
        ),
        msg@ == match switching(
            old(plan)@,
            mode,
            store.bin_dir(),
            store.versions_dir(),
            activate@,
        ) {
            Err(message) => MsgView::Activated { generation, result: Err(message) },
            Ok(()) => MsgView::Removed {
                generation,
                result: said(
                    store::removal(old(plan)@.activating(activate@).disk, mode, remove@),
                ),
            },
        },
{
    // The name acted on is the caller's; this only declines where it refers to nothing.
    let installed: Vec<Installed> = store.installed(plan.disk(), mode);
    if find_name(&installed, activate) == installed.len() {
        return Msg::Activated {
            generation,
            result: Err("the version to switch to is no longer installed".to_owned()),
        };
    }
    match self::activate(store, plan, mode, activate) {
        Err(message) => Msg::Activated { generation, result: Err(message) },
        Ok(()) => Msg::Removed {
            generation,
            result: match store.remove(plan, mode, remove) {
                Ok(()) => Ok(()),
                Err(e) => Err(e.message()),
            },
        },
    }
}

/// How many steps a switch takes.
pub const SWITCH_STEPS: usize = 4;

/// The message for a step of switching and removing that could not be taken: one of the
/// switch's own, after which nothing has been deleted, or the removal.
pub fn switch_then_remove_failed(step: usize, message: String, generation: u64) -> (msg: Msg)
    ensures
        msg@ == if step < SWITCH_STEPS {
            MsgView::Activated { generation, result: Err(message@) }
        } else {
            MsgView::Removed { generation, result: Err(message@) }
        },
{
    if step < SWITCH_STEPS {
        Msg::Activated { generation, result: Err(message) }
    } else {
        Msg::Removed { generation, result: Err(message) }
    }
}

// ---------------------------------------------------------------------------
// What follows
// ---------------------------------------------------------------------------

/// Of all reports, only one that says how far along something is can be dropped: never
/// the first, one about something else, one without an amount, or a final one.
pub proof fn only_fractions_are_dropped(t: ProgressThrottle, p: Progress, now: u64)
    requires
        t.leaves_out(p, now),
    ensures
        t.last matches Some((_, status)) && status == p.status,
        p.value is Some,
        p.value->0.done < p.value->0.total,
{
}

/// What is listed by a name is a directory of the store.
proof fn listed_names_are_directories(
    plan: PlanView,
    bin_dir: Seq<char>,
    versions: Seq<char>,
    name: Seq<char>,
)
    requires
        plan.ready(),
        ({
            let all = store::installations(plan.disk, Mode::MultiVersion, bin_dir, versions);
            name_index(all, name) < all.len()
        }),
    ensures
        plan.disk.is_dir(store::version(name)),
{
    let all = store::installations(plan.disk, Mode::MultiVersion, bin_dir, versions);
    let p = |i: int| all[i].name == name;
    search::first_that_is_first(p, 0, all.len() as int);
    let i = name_index(all, name);
    assert(p(i));
    store::stored_are_directories(plan.disk, versions, i);
}

/// Removing a build, seen whole: either nothing is deleted, or the build switched to is
/// active, the other one is gone, and every further build is as it was.
pub proof fn switching_precedes_removing(
    plan: PlanView,
    bin_dir: Seq<char>,
    versions: Seq<char>,
    activate: Seq<char>,
    remove: Seq<char>,
)
    requires
        plan.ready(),
        store_laws::can_be_linked(plan.disk),
    ensures
        ({
            let mode = Mode::MultiVersion;
            let after = switched_then_removed(plan, mode, bin_dir, versions, activate, remove);
            let switched = plan.activating(activate);
            if switching(plan, mode, bin_dir, versions, activate) is Err {
                after == plan
            } else {
                &&& store::active_in(after.disk, mode) == Some(activate)
                &&& after.disk.landing(store::version(activate)) == plan.disk.landing(
                    store::version(activate),
                )
                &&& after.disk.resolves(store::version(activate))
                &&& remove == activate ==> after == switched
                &&& plan.disk.is_dir(store::version(remove)) && remove != activate
                    && path::is_plain(remove) ==> !after.disk.taken(store::version(remove))
                &&& forall|other: crate::disk::Spot|
                    other != store::bin() && other != store::link_in_progress() && other
                        != store::version(remove) ==> #[trigger] after.disk.node(other)
                        == plan.disk.node(other)
            }
        }),
{
    let mode = Mode::MultiVersion;
    if switching(plan, mode, bin_dir, versions, activate) is Ok {
        listed_names_are_directories(plan, bin_dir, versions, activate);
        store_laws::activating_activates(plan, activate);
        let switched = plan.activating(activate);
        assert(store::version(activate) != store::bin());
        assert(store::version(activate) != store::link_in_progress());
        assert(store::version(remove) != store::bin());
        assert(store::version(remove) != store::link_in_progress());
        assert(switched.disk.node(store::version(activate)) == plan.disk.node(
            store::version(activate),
        ));
        assert(switched.disk.node(store::version(remove)) == plan.disk.node(
            store::version(remove),
        ));
        if store::removal(switched.disk, mode, remove) is Ok {
            assert(remove != activate);
            if switched.disk.is_dir(store::version(remove)) || switched.disk.is_link(
                store::version(remove),
            ) {
                store_laws::removing_removes_one(switched, remove);
                let after = switched.step(
                    ActView::RemoveTree(store::version(remove)),
                    OnError::Fail,
                );
                assert(after.disk.node(store::version(activate)) == plan.disk.node(
                    store::version(activate),
                ));
            }
        }
    }
}

/// Where the switch is refused, nothing at all is planned.
pub proof fn refused_switches_change_nothing(
    plan: PlanView,
    mode: Mode,
    bin_dir: Seq<char>,
    versions: Seq<char>,
    activate: Seq<char>,
    remove: Seq<char>,
)
    requires
        switching(plan, mode, bin_dir, versions, activate) is Err,
    ensures
        switched_then_removed(plan, mode, bin_dir, versions, activate, remove) == plan,
{
}

/// A switch takes the steps it is said to take, and the removal is the one after them.
pub proof fn switches_take_their_steps(
    plan: PlanView,
    mode: Mode,
    bin_dir: Seq<char>,
    versions: Seq<char>,
    activate: Seq<char>,
    remove: Seq<char>,
)
    ensures
        ({
            let after = switched_then_removed(plan, mode, bin_dir, versions, activate, remove);
            forall|i: int|
                plan.steps.len() <= i < after.steps.len() ==> (((
                #[trigger] after.steps[i]).act is RemoveTree) <==> i - plan.steps.len()
                    >= SWITCH_STEPS)
        }),
{
}

/// Work on the version store is never done alongside other such work, nor on the main
/// thread, and what asks GitHub never holds it up.
pub proof fn store_work_is_kept_apart(effect: EffectView)
    ensures
        (effect is LoadInstalled || effect is Install || effect is Activate
            || effect is SwitchThenRemove || effect is SetMode || effect is InstallGameData)
            <==> lane_of(effect) == Lane::Store,
        effect is FetchReleases || effect is CheckForUpdate ==> lane_of(effect) == Lane::Worker,
{
}

/// A report is left out only where it follows one about the same work by less than a
/// twentieth of a second and says that the work is under way.
pub proof fn reports_are_spaced(t: ProgressThrottle, p: Progress, now: u64)
    ensures
        t.leaves_out(p, now) <==> p.value is Some && p.value->0.done < p.value->0.total
            && (t.last matches Some((at, status)) && status == p.status && now < at + 50_000_000),
{
}

/// What failed in two lots of repairs is said in one, the one lot below the other.
pub proof fn repairs_are_said_one_below_the_other(
    a: Seq<(GameId, String)>,
    b: Seq<(GameId, String)>,
)
    requires
        a.len() > 0,
        b.len() > 0,
    ensures
        repair_text(a + b) == repair_text(a) + "\n"@ + repair_text(b),
        a.len() == 1 ==> repair_text(a) == a[0].0.title() + ": "@ + a[0].1@,
    decreases b.len(),
{
    assert((a + b).last() == b.last());
    assert((a + b).drop_last() =~= a + b.drop_last());
    if b.len() == 1 {
        assert(a + b.drop_last() =~= a);
    } else {
        repairs_are_said_one_below_the_other(a, b.drop_last());
        let line = b.last().0.title() + ": "@ + b.last().1@;
        assert(repair_text(a) + "\n"@ + repair_text(b.drop_last()) + "\n"@ + line
            =~= repair_text(a) + "\n"@ + (repair_text(b.drop_last()) + "\n"@ + line));
    }
}

/// The launcher starts with what was saved: the game, and each setting by the name it was
/// saved under. Nothing is known yet of builds, releases or data, and nothing is under way.
pub proof fn starting_shows_what_was_saved(prefs: Map<Seq<char>, ValueView>)
    ensures
        ({
            let s = first_state(prefs);
            &&& s.selected_game == prefs::chosen_game(prefs)
            &&& s.show_develop == prefs::flag(prefs, "showDevelopmentVersions"@)
            &&& s.multi_version == prefs::flag(prefs, "keepMultipleVersions"@)
            &&& s.check_for_updates == (!prefs.dom().contains("checkForUpdates"@) || prefs::flag(
                prefs,
                "checkForUpdates"@,
            ))
            &&& s.auto_update == seq![
                prefs::flag(prefs, "autoInstallUpdates.OpenRCT2"@),
                prefs::flag(prefs, "autoInstallUpdates.OpenLoco"@),
            ]
            &&& s.installed.len() == 0 && s.releases.len() == 0 && s.active is None
            &&& s.busy is None && s.outstanding == 0 && s.generation == 0
            &&& s.error is None && s.update is None && s.pending_removal is None
            &&& s.install_root is None
            &&& s.selected_installed == 0 && s.selected_release == 0
            &&& s.release_cache == seq![
                None::<Seq<RowView>>,
                None::<Seq<RowView>>,
                None::<Seq<RowView>>,
                None::<Seq<RowView>>,
            ]
            &&& s.game_data == seq![None::<Seq<char>>, None::<Seq<char>>, None::<Seq<char>>]
        }),
{
    reveal_strlit("autoInstallUpdates.");
    reveal_strlit("OpenRCT2");
    reveal_strlit("OpenLoco");
    reveal_strlit("autoInstallUpdates.OpenRCT2");
    reveal_strlit("autoInstallUpdates.OpenLoco");
    assert(prefs::auto_update_name("OpenRCT2"@) =~= "autoInstallUpdates.OpenRCT2"@);
    assert(prefs::auto_update_name("OpenLoco"@) =~= "autoInstallUpdates.OpenLoco"@);
}

/// A build is switched to where one of that name is listed and can be switched to, and the
/// refusal of any other says so.
pub proof fn switches_are_to_listed_builds(
    plan: PlanView,
    mode: Mode,
    bin_dir: Seq<char>,
    versions: Seq<char>,
    name: Seq<char>,
)
    ensures
        ({
            let all = store::installations(plan.disk, mode, bin_dir, versions);
            let there = exists|i: int| 0 <= i < all.len() && (#[trigger] all[i]).name == name;
            &&& switching(plan, mode, bin_dir, versions, name) is Ok <==> there
                && store::activation(plan.disk, mode, name) is Ok
            &&& !there ==> switching(plan, mode, bin_dir, versions, name) == Err::<(), Seq<char>>(
                "the version to switch to is no longer installed"@,
            )
            &&& there && store::activation(plan.disk, mode, name) is Err ==> switching(
                plan,
                mode,
                bin_dir,
                versions,
                name,
            ) == Err::<(), Seq<char>>(store::activation(plan.disk, mode, name)->Err_0.words())
        }),
{
    let all = store::installations(plan.disk, mode, bin_dir, versions);
    let p = |i: int| all[i].name == name;
    search::first_that_is_first(p, 0, all.len() as int);
    let at = name_index(all, name);
    assert(at == search::first_that(p, 0, all.len() as int));
    if at < all.len() {
        assert(p(at));
        assert(all[at].name == name);
    } else {
        assert forall|i: int| 0 <= i < all.len() implies (#[trigger] all[i]).name != name by {
            assert(!p(i));
        }
    }
}

/// The first build with a tag is the one that is meant by it.
pub proof fn builds_are_found_by_tag(all: Seq<InstalledView>, tag: Seq<char>, i: int)
    ensures
        0 <= tag_index(all, tag) <= all.len(),
        tag_index(all, tag) < all.len() ==> all[tag_index(all, tag)].tag == tag,
        0 <= i < all.len() && all[i].tag == tag ==> tag_index(all, tag) <= i,
{
    let p = |i: int| all[i].tag == tag;
    search::first_that_is_first(p, 0, all.len() as int);
    assert(tag_index(all, tag) == search::first_that(p, 0, all.len() as int));
    if tag_index(all, tag) < all.len() {
        assert(p(tag_index(all, tag)));
    }
    if 0 <= i < all.len() && all[i].tag == tag {
        assert(p(i));
    }
}

} // verus!
