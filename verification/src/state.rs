//! The interface's behavior, with no screen anywhere near it. `UiState` holds what is
//! on screen; `reduce` is the only thing allowed to change it, and it returns
//! `Effect`s for something else to carry out and report back as another `Msg`. Control
//! enablement is always derived from state, never a separately-assigned flag.
//!
//! Every effect that resolves a directory is tagged with the `generation` current when
//! it was issued, and any reply carrying a stale generation is discarded.

use vstd::prelude::*;

use crate::age::Age;
use crate::download::{Fraction, Status};
use crate::game::GameId;
use crate::gamedata::OriginalGame;
use crate::release::Channel;
use crate::search;
use crate::selfupdate::{Update, UpdateView};
use crate::store;
use crate::store::{DisableReport, Installed, InstalledView, ReportView};
use crate::text;
use crate::text::same;

verus! {

broadcast use vstd::string::group_string_axioms;

// ---------------------------------------------------------------------------
// What is on screen
// ---------------------------------------------------------------------------

/// One row of the available-releases popup.
#[derive(Debug, PartialEq, Eq)]
pub struct ReleaseRow {
    pub tag: String,
    pub age: Option<Age>,
    pub channel: Channel,
}

/// What a row says.
pub struct RowView {
    pub tag: Seq<char>,
    pub age: Option<Age>,
    pub channel: Channel,
}

impl View for ReleaseRow {
    type V = RowView;

    open spec fn view(&self) -> RowView {
        RowView { tag: self.tag@, age: self.age, channel: self.channel }
    }
}

impl Clone for ReleaseRow {
    fn clone(&self) -> (r: ReleaseRow)
        ensures
            r@ == self@,
    {
        ReleaseRow { tag: self.tag.clone(), age: self.age, channel: self.channel }
    }
}

/// What each row says.
pub open spec fn rows(v: Seq<ReleaseRow>) -> Seq<RowView> {
    Seq::new(v.len(), |i: int| v[i]@)
}

/// Something is running: present from the moment an operation is *initiated* until its
/// last reply lands, not from its first progress report.
#[derive(Debug, Clone, Copy, PartialEq, Eq, Structural)]
pub struct Busy {
    /// What the worker last said it was doing. `None` before the first
    /// `Msg::Progress`, and for the whole of an operation that reports none.
    pub status: Option<Status>,
    pub value: Option<Fraction>,
}

/// An error to show.
#[derive(Debug, PartialEq, Eq)]
pub struct Alert {
    pub title: String,
    pub message: String,
    /// `true` when `message` names a localization key rather than holding text to
    /// display verbatim.
    pub message_is_key: bool,
    /// The generation this error belongs to, so that abandoning the generation clears
    /// it along with everything else that generation's work produced. `None` for
    /// errors raised by work with no generation: a launch.
    pub generation: Option<u64>,
    /// The argument for `title`'s `{0}`, as data rather than formatted text.
    pub title_arg: Option<String>,
}

/// What an error says.
pub struct AlertView {
    pub title: Seq<char>,
    pub message: Seq<char>,
    pub message_is_key: bool,
    pub generation: Option<u64>,
    pub title_arg: Option<Seq<char>>,
}

impl View for Alert {
    type V = AlertView;

    open spec fn view(&self) -> AlertView {
        AlertView {
            title: self.title@,
            message: self.message@,
            message_is_key: self.message_is_key,
            generation: self.generation,
            title_arg: text::opt_view(self.title_arg),
        }
    }
}

/// A preference to save.
#[derive(Debug, PartialEq, Eq)]
pub enum Pref {
    CheckForUpdates(bool),
    /// Where the original games' data is unpacked. `None` is the default root, which
    /// has to survive a restart as an answer distinct from a path that happens to
    /// equal today's default.
    InstallRoot(Option<String>),
    ShowDevelop(bool),
    AutoUpdate(bool),
    MultiVersion(bool),
    SelectedGame(GameId),
}

/// What a preference says.
pub enum PrefView {
    CheckForUpdates(bool),
    InstallRoot(Option<Seq<char>>),
    ShowDevelop(bool),
    AutoUpdate(bool),
    MultiVersion(bool),
    SelectedGame(GameId),
}

impl View for Pref {
    type V = PrefView;

    open spec fn view(&self) -> PrefView {
        match *self {
            Pref::CheckForUpdates(on) => PrefView::CheckForUpdates(on),
            Pref::InstallRoot(root) => PrefView::InstallRoot(text::opt_view(root)),
            Pref::ShowDevelop(on) => PrefView::ShowDevelop(on),
            Pref::AutoUpdate(on) => PrefView::AutoUpdate(on),
            Pref::MultiVersion(on) => PrefView::MultiVersion(on),
            Pref::SelectedGame(game) => PrefView::SelectedGame(game),
        }
    }
}

/// What `ClickRemove` decided, held until the question is answered. Both names are
/// captured at click time: an `InstalledLoaded` already in flight can reshuffle the
/// list while the question is open.
#[derive(Debug, PartialEq, Eq)]
pub struct PendingRemoval {
    pub activate: String,
    pub remove: String,
}

/// A removal that waits for an answer.
pub struct RemovalView {
    pub activate: Seq<char>,
    pub remove: Seq<char>,
}

impl View for PendingRemoval {
    type V = RemovalView;

    open spec fn view(&self) -> RemovalView {
        RemovalView { activate: self.activate@, remove: self.remove@ }
    }
}

/// Everything the interface knows.
#[derive(Debug)]
pub struct UiState {
    pub selected_game: GameId,
    pub installed: Vec<Installed>,
    pub selected_installed: usize,
    /// Whatever the version store reported as active: an `Installed::name` where
    /// versions are kept side by side, an `Installed::tag` otherwise. Nothing outside
    /// `active_entry` may compare it against either field directly.
    pub active: Option<String>,
    pub releases: Vec<ReleaseRow>,
    /// Releases already fetched, one slot for each pair of a game and whether
    /// development builds were asked for, since that changes which repositories are
    /// queried rather than merely filtering the result. Never invalidated.
    pub release_cache: [Option<Vec<ReleaseRow>>; 4],
    pub selected_release: usize,
    pub show_develop: bool,
    pub check_for_updates: bool,
    /// Where each original game's data was found, one slot per `OriginalGame`.
    pub game_data: [Option<String>; 3],
    /// The chosen root for unpacking game data, or `None` for the default.
    pub install_root: Option<String>,
    /// The newer release, once one has been found and not yet dismissed.
    pub update: Option<Update>,
    /// Per game. Read only through `auto_update()`, which resolves it against
    /// `selected_game`, so no call site can pick the wrong game's slot.
    pub auto_update: [bool; 2],
    pub multi_version: bool,
    pub busy: Option<Busy>,
    /// Initiated operations not yet reported back, from which `busy` is derived. A
    /// count rather than a flag because `Msg::ToggleMultiVersion` issues one `SetMode`
    /// per game. Abandoning a generation zeroes it, so a lost reply cannot strand the
    /// interface busy.
    pub outstanding: u32,
    pub error: Option<Alert>,
    pub generation: u64,
    pub pending_removal: Option<PendingRemoval>,
}

/// Everything the interface knows, as it is.
#[verifier::ext_equal]
pub struct StateView {
    pub selected_game: GameId,
    pub installed: Seq<InstalledView>,
    pub selected_installed: usize,
    pub active: Option<Seq<char>>,
    pub releases: Seq<RowView>,
    pub release_cache: Seq<Option<Seq<RowView>>>,
    pub selected_release: usize,
    pub show_develop: bool,
    pub check_for_updates: bool,
    pub game_data: Seq<Option<Seq<char>>>,
    pub install_root: Option<Seq<char>>,
    pub update: Option<UpdateView>,
    pub auto_update: Seq<bool>,
    pub multi_version: bool,
    pub busy: Option<Busy>,
    pub outstanding: u32,
    pub error: Option<AlertView>,
    pub generation: u64,
    pub pending_removal: Option<RemovalView>,
}

/// The releases each slot of the cache holds.
pub open spec fn cache_view(
    cache: Seq<Option<Vec<ReleaseRow>>>,
) -> Seq<Option<Seq<RowView>>> {
    Seq::new(
        cache.len(),
        |i: int|
            match cache[i] {
                Some(v) => Some(rows(v@)),
                None => None,
            },
    )
}

/// The path each slot holds.
pub open spec fn data_view(data: Seq<Option<String>>) -> Seq<Option<Seq<char>>> {
    Seq::new(data.len(), |i: int| text::opt_view(data[i]))
}

/// The view of something that may be missing.
pub open spec fn maybe<T: View>(x: Option<T>) -> Option<T::V> {
    match x {
        Some(x) => Some(x@),
        None => None,
    }
}

impl View for UiState {
    type V = StateView;

    open spec fn view(&self) -> StateView {
        StateView {
            selected_game: self.selected_game,
            installed: store::builds(self.installed@),
            selected_installed: self.selected_installed,
            active: text::opt_view(self.active),
            releases: rows(self.releases@),
            release_cache: cache_view(self.release_cache@),
            selected_release: self.selected_release,
            show_develop: self.show_develop,
            check_for_updates: self.check_for_updates,
            game_data: data_view(self.game_data@),
            install_root: text::opt_view(self.install_root),
            update: maybe(self.update),
            auto_update: self.auto_update@,
            multi_version: self.multi_version,
            busy: self.busy,
            outstanding: self.outstanding,
            error: maybe(self.error),
            generation: self.generation,
            pending_removal: maybe(self.pending_removal),
        }
    }
}

// ---------------------------------------------------------------------------
// What happens, and what is to be done about it
// ---------------------------------------------------------------------------

/// Something that happened: a choice somebody made, or a reply to an effect.
#[allow(inconsistent_fields)]
#[derive(Debug)]
pub enum Msg {
    SelectGame(GameId),
    /// The answer to `Effect::CheckForUpdate`. `None` means up to date. There is no
    /// error case: an update notice that can raise an error is worse than one that
    /// occasionally fails to notice.
    UpdateChecked(Option<Update>),
    DismissUpdate,
    OpenUpdatePage,
    ToggleCheckForUpdates(bool),
    ShowSettings,
    SelectInstalled(usize),
    SelectRelease(usize),
    ToggleDevelop(bool),
    ToggleAutoUpdate(bool),
    ToggleMultiVersion(bool),
    ClickPlay,
    ClickDownload,
    ClickRemove,
    ConfirmRemove,
    InstalledLoaded { generation: u64, result: Result<(Vec<Installed>, Option<String>), String> },
    ReleasesLoaded { generation: u64, result: Result<Vec<ReleaseRow>, String> },
    Progress { generation: u64, status: Status, value: Option<Fraction> },
    InstallFinished { generation: u64, result: Result<(), String> },
    Activated { generation: u64, result: Result<(), String> },
    Removed { generation: u64, result: Result<(), String> },
    ModeChanged { generation: u64, result: Result<Option<DisableReport>, String> },
    LaunchFinished { result: Result<(), String> },
    /// Where each original game's data is, as found on disk.
    GameDataScanned(Vec<(OriginalGame, Option<String>)>),
    ChooseInstaller(OriginalGame),
    /// `None` is a cancelled picker, which is not a failure.
    InstallerChosen { game: OriginalGame, installer: Option<String> },
    GameDataInstalled { generation: u64, game: OriginalGame, result: Result<String, String> },
    ChooseInstallRoot,
    InstallRootChosen(Option<String>),
    /// Repairing the installation failed for at least one game at launch. It comes
    /// after the first `SelectGame`, since the repair runs before any generation
    /// exists.
    StartupRepairFailed { message: String },
}

/// Something that happened, as it is.
#[allow(inconsistent_fields)]
pub enum MsgView {
    SelectGame(GameId),
    UpdateChecked(Option<UpdateView>),
    DismissUpdate,
    OpenUpdatePage,
    ToggleCheckForUpdates(bool),
    ShowSettings,
    SelectInstalled(usize),
    SelectRelease(usize),
    ToggleDevelop(bool),
    ToggleAutoUpdate(bool),
    ToggleMultiVersion(bool),
    ClickPlay,
    ClickDownload,
    ClickRemove,
    ConfirmRemove,
    InstalledLoaded {
        generation: u64,
        result: Result<(Seq<InstalledView>, Option<Seq<char>>), Seq<char>>,
    },
    ReleasesLoaded { generation: u64, result: Result<Seq<RowView>, Seq<char>> },
    Progress { generation: u64, status: Status, value: Option<Fraction> },
    InstallFinished { generation: u64, result: Result<(), Seq<char>> },
    Activated { generation: u64, result: Result<(), Seq<char>> },
    Removed { generation: u64, result: Result<(), Seq<char>> },
    ModeChanged { generation: u64, result: Result<Option<ReportView>, Seq<char>> },
    LaunchFinished { result: Result<(), Seq<char>> },
    GameDataScanned(Seq<(OriginalGame, Option<Seq<char>>)>),
    ChooseInstaller(OriginalGame),
    InstallerChosen { game: OriginalGame, installer: Option<Seq<char>> },
    GameDataInstalled {
        generation: u64,
        game: OriginalGame,
        result: Result<Seq<char>, Seq<char>>,
    },
    ChooseInstallRoot,
    InstallRootChosen(Option<Seq<char>>),
    StartupRepairFailed { message: Seq<char> },
}

/// An outcome with nothing but a message for a failure.
pub open spec fn outcome(r: Result<(), String>) -> Result<(), Seq<char>> {
    match r {
        Ok(()) => Ok(()),
        Err(m) => Err(m@),
    }
}

/// What was found of each original game's data.
pub open spec fn finds(
    v: Seq<(OriginalGame, Option<String>)>,
) -> Seq<(OriginalGame, Option<Seq<char>>)> {
    Seq::new(v.len(), |i: int| (v[i].0, text::opt_view(v[i].1)))
}

impl View for Msg {
    type V = MsgView;

    open spec fn view(&self) -> MsgView {
        match *self {
            Msg::SelectGame(game) => MsgView::SelectGame(game),
            Msg::UpdateChecked(found) => MsgView::UpdateChecked(maybe(found)),
            Msg::DismissUpdate => MsgView::DismissUpdate,
            Msg::OpenUpdatePage => MsgView::OpenUpdatePage,
            Msg::ToggleCheckForUpdates(on) => MsgView::ToggleCheckForUpdates(on),
            Msg::ShowSettings => MsgView::ShowSettings,
            Msg::SelectInstalled(index) => MsgView::SelectInstalled(index),
            Msg::SelectRelease(index) => MsgView::SelectRelease(index),
            Msg::ToggleDevelop(on) => MsgView::ToggleDevelop(on),
            Msg::ToggleAutoUpdate(on) => MsgView::ToggleAutoUpdate(on),
            Msg::ToggleMultiVersion(on) => MsgView::ToggleMultiVersion(on),
            Msg::ClickPlay => MsgView::ClickPlay,
            Msg::ClickDownload => MsgView::ClickDownload,
            Msg::ClickRemove => MsgView::ClickRemove,
            Msg::ConfirmRemove => MsgView::ConfirmRemove,
            Msg::InstalledLoaded { generation, result } => MsgView::InstalledLoaded {
                generation,
                result: match result {
                    Ok((installed, active)) => Ok(
                        (store::builds(installed@), text::opt_view(active)),
                    ),
                    Err(m) => Err(m@),
                },
            },
            Msg::ReleasesLoaded { generation, result } => MsgView::ReleasesLoaded {
                generation,
                result: match result {
                    Ok(found) => Ok(rows(found@)),
                    Err(m) => Err(m@),
                },
            },
            Msg::Progress { generation, status, value } => MsgView::Progress {
                generation,
                status,
                value,
            },
            Msg::InstallFinished { generation, result } => MsgView::InstallFinished {
                generation,
                result: outcome(result),
            },
            Msg::Activated { generation, result } => MsgView::Activated {
                generation,
                result: outcome(result),
            },
            Msg::Removed { generation, result } => MsgView::Removed {
                generation,
                result: outcome(result),
            },
            Msg::ModeChanged { generation, result } => MsgView::ModeChanged {
                generation,
                result: match result {
                    Ok(report) => Ok(maybe(report)),
                    Err(m) => Err(m@),
                },
            },
            Msg::LaunchFinished { result } => MsgView::LaunchFinished { result: outcome(result) },
            Msg::GameDataScanned(found) => MsgView::GameDataScanned(finds(found@)),
            Msg::ChooseInstaller(game) => MsgView::ChooseInstaller(game),
            Msg::InstallerChosen { game, installer } => MsgView::InstallerChosen {
                game,
                installer: text::opt_view(installer),
            },
            Msg::GameDataInstalled { generation, game, result } => MsgView::GameDataInstalled {
                generation,
                game,
                result: match result {
                    Ok(path) => Ok(path@),
                    Err(m) => Err(m@),
                },
            },
            Msg::ChooseInstallRoot => MsgView::ChooseInstallRoot,
            Msg::InstallRootChosen(root) => MsgView::InstallRootChosen(text::opt_view(root)),
            Msg::StartupRepairFailed { message } => MsgView::StartupRepairFailed {
                message: message@,
            },
        }
    }
}

/// Something to carry out.
#[allow(inconsistent_fields)]
#[derive(Debug)]
pub enum Effect {
    /// Ask whether a newer Turnstile has been published. No generation, unlike every
    /// other network effect: this one is about the application, and nothing the user
    /// does while it is in flight can make the answer wrong.
    CheckForUpdate,
    ShowSettings,
    /// Open a URL in the browser.
    OpenUrl(String),
    LoadInstalled { generation: u64, game: GameId },
    /// Look on disk for each original game's data.
    ScanGameData,
    /// The reply is `Msg::InstallerChosen`, including when cancelled.
    PickInstaller(OriginalGame),
    PickInstallRoot,
    /// Unpack `installer` and point the game at the result. The destination is resolved
    /// where the effect is performed.
    InstallGameData { generation: u64, game: OriginalGame, installer: String },
    FetchReleases { generation: u64, game: GameId, include_develop: bool },
    Install { generation: u64, game: GameId, tag: String },
    /// `name` is `Installed::name`, the on-disk identity, never the display tag.
    Activate { generation: u64, game: GameId, name: String },
    /// Switch to `activate`, then -- only if that switched for real -- delete `remove`.
    /// One effect rather than two because the ordering is the whole point: the active
    /// version cannot be deleted, and splitting this would let another message pair
    /// the wrong two together. Both names are on-disk identities.
    SwitchThenRemove { generation: u64, game: GameId, activate: String, remove: String },
    SetMode { generation: u64, game: GameId, multi_version: bool },
    Launch { game: GameId, dir: String },
    /// `name` is an on-disk identity.
    ConfirmRemove { name: String },
    ShowDisableReport(DisableReport),
    SavePref(Pref),
    /// `generation` is the one being abandoned, not the new one.
    CancelInFlight { generation: u64 },
}

/// Something to carry out, as it is.
#[allow(inconsistent_fields)]
pub enum EffectView {
    CheckForUpdate,
    ShowSettings,
    OpenUrl(Seq<char>),
    LoadInstalled { generation: u64, game: GameId },
    ScanGameData,
    PickInstaller(OriginalGame),
    PickInstallRoot,
    InstallGameData { generation: u64, game: OriginalGame, installer: Seq<char> },
    FetchReleases { generation: u64, game: GameId, include_develop: bool },
    Install { generation: u64, game: GameId, tag: Seq<char> },
    Activate { generation: u64, game: GameId, name: Seq<char> },
    SwitchThenRemove { generation: u64, game: GameId, activate: Seq<char>, remove: Seq<char> },
    SetMode { generation: u64, game: GameId, multi_version: bool },
    Launch { game: GameId, dir: Seq<char> },
    ConfirmRemove { name: Seq<char> },
    ShowDisableReport(ReportView),
    SavePref(PrefView),
    CancelInFlight { generation: u64 },
}

impl View for Effect {
    type V = EffectView;

    open spec fn view(&self) -> EffectView {
        match *self {
            Effect::CheckForUpdate => EffectView::CheckForUpdate,
            Effect::ShowSettings => EffectView::ShowSettings,
            Effect::OpenUrl(url) => EffectView::OpenUrl(url@),
            Effect::LoadInstalled { generation, game } => EffectView::LoadInstalled {
                generation,
                game,
            },
            Effect::ScanGameData => EffectView::ScanGameData,
            Effect::PickInstaller(game) => EffectView::PickInstaller(game),
            Effect::PickInstallRoot => EffectView::PickInstallRoot,
            Effect::InstallGameData { generation, game, installer } =>
                EffectView::InstallGameData { generation, game, installer: installer@ },
            Effect::FetchReleases { generation, game, include_develop } =>
                EffectView::FetchReleases { generation, game, include_develop },
            Effect::Install { generation, game, tag } => EffectView::Install {
                generation,
                game,
                tag: tag@,
            },
            Effect::Activate { generation, game, name } => EffectView::Activate {
                generation,
                game,
                name: name@,
            },
            Effect::SwitchThenRemove { generation, game, activate, remove } =>
                EffectView::SwitchThenRemove {
                generation,
                game,
                activate: activate@,
                remove: remove@,
            },
            Effect::SetMode { generation, game, multi_version } => EffectView::SetMode {
                generation,
                game,
                multi_version,
            },
            Effect::Launch { game, dir } => EffectView::Launch { game, dir: dir@ },
            Effect::ConfirmRemove { name } => EffectView::ConfirmRemove { name: name@ },
            Effect::ShowDisableReport(report) => EffectView::ShowDisableReport(report@),
            Effect::SavePref(pref) => EffectView::SavePref(pref@),
            Effect::CancelInFlight { generation } => EffectView::CancelInFlight { generation },
        }
    }
}

/// What each effect is.
pub open spec fn effects_of(v: Seq<Effect>) -> Seq<EffectView> {
    Seq::new(v.len(), |i: int| v[i]@)
}

// ---------------------------------------------------------------------------
// How one leads to the other
// ---------------------------------------------------------------------------

/// Is `entry` the one `active` refers to? This cannot be a plain comparison, because
/// what is active is a name where versions are kept side by side, and a tag otherwise.
pub open spec fn is_current(entry: InstalledView, active: Seq<char>, multi_version: bool) -> bool {
    if multi_version {
        entry.name == active
    } else {
        entry.tag == active
    }
}

/// The first of `installed` that `active` refers to, or their number.
pub open spec fn current_index(
    installed: Seq<InstalledView>,
    active: Seq<char>,
    multi_version: bool,
) -> int {
    search::first_that(
        |i: int| is_current(installed[i], active, multi_version),
        0,
        installed.len() as int,
    )
}

/// The first of `installed` with another name, or their number.
pub open spec fn other_index(installed: Seq<InstalledView>, name: Seq<char>) -> int {
    search::first_that(|i: int| installed[i].name != name, 0, installed.len() as int)
}

/// The cache slot for a game, with or without development builds.
pub open spec fn cache_slot(game: GameId, develop: bool) -> int {
    game.place() * 2 + if develop {
        1int
    } else {
        0
    }
}

/// The alert for a failure of a generation's work.
pub open spec fn failure(title: Seq<char>, message: Seq<char>, generation: u64) -> AlertView {
    AlertView {
        title,
        message,
        message_is_key: false,
        generation: Some(generation),
        title_arg: None,
    }
}

/// The slots after everything found has been put in its own.
pub open spec fn with_finds(
    data: Seq<Option<Seq<char>>>,
    found: Seq<(OriginalGame, Option<Seq<char>>)>,
) -> Seq<Option<Seq<char>>>
    decreases found.len(),
{
    if found.len() == 0 {
        data
    } else {
        with_finds(data, found.drop_last()).update(found.last().0.place(), found.last().1)
    }
}

/// A state and the effects that go with it.
pub type Step = (StateView, Seq<EffectView>);

impl StateView {
    pub open spec fn is_busy(self) -> bool {
        self.busy is Some
    }

    pub open spec fn auto_updates(self) -> bool {
        self.auto_update[self.selected_game.place()]
    }

    /// The installed build the selection stands on.
    pub open spec fn selected_build(self) -> Option<InstalledView> {
        if self.selected_installed < self.installed.len() {
            Some(self.installed[self.selected_installed as int])
        } else {
            None
        }
    }

    /// The tag of the release the selection stands on.
    pub open spec fn selected_tag(self) -> Option<Seq<char>> {
        if self.selected_release < self.releases.len() {
            Some(self.releases[self.selected_release as int].tag)
        } else {
            None
        }
    }

    /// The installed build that is active.
    pub open spec fn active_build(self) -> Option<InstalledView> {
        match self.active {
            Some(active) => {
                let i = current_index(self.installed, active, self.multi_version);
                if i < self.installed.len() {
                    Some(self.installed[i])
                } else {
                    None
                }
            },
            None => None,
        }
    }

    pub open spec fn can_play(self) -> bool {
        !self.is_busy() && match self.selected_build() {
            Some(build) => build.can_launch,
            None => false,
        }
    }

    pub open spec fn can_download(self) -> bool {
        !self.is_busy() && self.releases.len() > 0 && !self.auto_updates()
    }

    pub open spec fn can_remove(self) -> bool {
        !self.is_busy() && self.multi_version && self.installed.len() > 1
    }

    pub open spec fn can_choose(self) -> bool {
        !self.is_busy() && !self.auto_updates()
    }

    /// The newest listed release's tag, unless it is already the one active.
    pub open spec fn due(self) -> Option<Seq<char>> {
        if self.releases.len() == 0 {
            None
        } else {
            let newest = self.releases[0].tag;
            match self.active_build() {
                Some(build) => if build.tag == newest {
                    None
                } else {
                    Some(newest)
                },
                None => Some(newest),
            }
        }
    }

    /// Which build to switch to before `name` can be deleted: the newest other one.
    pub open spec fn other_than(self, name: Seq<char>) -> Option<Seq<char>> {
        let i = other_index(self.installed, name);
        if i < self.installed.len() {
            Some(self.installed[i].name)
        } else {
            None
        }
    }

    /// `count` operations have just been initiated.
    pub open spec fn begun(self, count: u32) -> StateView {
        StateView {
            outstanding: (self.outstanding + count) as u32,
            busy: if self.busy is None {
                Some(Busy { status: None, value: None })
            } else {
                self.busy
            },
            ..self
        }
    }

    /// One initiated operation has reported back.
    pub open spec fn finished(self) -> StateView {
        let left = if self.outstanding == 0 {
            0u32
        } else {
            (self.outstanding - 1) as u32
        };
        StateView {
            outstanding: left,
            busy: if left == 0 {
                None
            } else {
                self.busy
            },
            ..self
        }
    }

    /// A new generation: nothing is outstanding in it, and no error of an earlier
    /// generation is left.
    pub open spec fn renewed(self) -> StateView {
        StateView {
            generation: (self.generation + 1) as u64,
            outstanding: 0,
            busy: None,
            error: match self.error {
                Some(alert) => if alert.generation is Some {
                    None
                } else {
                    self.error
                },
                None => None,
            },
            ..self
        }
    }

    pub open spec fn failing(self, alert: AlertView) -> StateView {
        StateView { error: Some(alert), ..self }
    }

    pub open spec fn cleared(self) -> StateView {
        StateView { error: None, ..self }
    }

    /// Loads the installed builds again.
    pub open spec fn reload(self) -> EffectView {
        EffectView::LoadInstalled { generation: self.generation, game: self.selected_game }
    }

    /// A set of releases taken as the current ones, and the update that is due with
    /// them.
    pub open spec fn adopting(self, found: Seq<RowView>) -> Step {
        let s = StateView { releases: found, selected_release: 0, ..self };
        if s.auto_updates() && s.due() is Some {
            (
                s.begun(1),
                seq![
                    EffectView::Install {
                        generation: s.generation,
                        game: s.selected_game,
                        tag: s.due()->0,
                    },
                ],
            )
        } else {
            (s, seq![])
        }
    }

    /// The releases of the selected game: those of the cache at once, or a request for
    /// them.
    pub open spec fn wanting_releases(self) -> Step {
        match self.release_cache[cache_slot(self.selected_game, self.show_develop)] {
            Some(found) => self.adopting(found),
            None => (
                self,
                seq![
                    EffectView::FetchReleases {
                        generation: self.generation,
                        game: self.selected_game,
                        include_develop: self.show_develop,
                    },
                ],
            ),
        }
    }

    pub open spec fn selecting_game(self, game: GameId) -> Step {
        let s = StateView {
            selected_game: game,
            installed: seq![],
            releases: seq![],
            active: None,
            selected_installed: 0,
            selected_release: 0,
            ..self.renewed()
        };
        let first = seq![
            EffectView::CancelInFlight { generation: self.generation },
            EffectView::SavePref(PrefView::SelectedGame(game)),
            s.reload(),
        ];
        (s.wanting_releases().0, first + s.wanting_releases().1)
    }

    pub open spec fn toggling_develop(self, on: bool) -> Step {
        let s = StateView { show_develop: on, ..self.renewed() };
        let first = seq![
            EffectView::CancelInFlight { generation: self.generation },
            EffectView::SavePref(PrefView::ShowDevelop(on)),
        ];
        (s.wanting_releases().0, first + s.wanting_releases().1)
    }

    pub open spec fn selecting_installed(self, index: usize) -> Step {
        let s = StateView { selected_installed: index, ..self };
        if self.is_busy() {
            (self, seq![])
        } else if s.selected_build() is Some && s.multi_version && (s.active_build() is None
            || s.active_build()->0.name != s.selected_build()->0.name) {
            (
                s.begun(1),
                seq![
                    EffectView::Activate {
                        generation: s.generation,
                        game: s.selected_game,
                        name: s.selected_build()->0.name,
                    },
                ],
            )
        } else {
            (s, seq![])
        }
    }

    pub open spec fn toggling_auto_update(self, on: bool) -> Step {
        let s = StateView {
            auto_update: self.auto_update.update(self.selected_game.place(), on),
            ..self
        };
        let first = seq![EffectView::SavePref(PrefView::AutoUpdate(on))];
        if on && !s.is_busy() && s.due() is Some {
            (
                s.begun(1),
                first.push(
                    EffectView::Install {
                        generation: s.generation,
                        game: s.selected_game,
                        tag: s.due()->0,
                    },
                ),
            )
        } else {
            (s, first)
        }
    }

    pub open spec fn toggling_multi_version(self, on: bool) -> Step {
        if self.is_busy() {
            (self, seq![])
        } else {
            let s = StateView { multi_version: on, ..self.renewed() };
            (
                s.begun(2),
                seq![
                    EffectView::CancelInFlight { generation: self.generation },
                    EffectView::SavePref(PrefView::MultiVersion(on)),
                    EffectView::SetMode {
                        generation: s.generation,
                        game: GameId::OpenRCT2,
                        multi_version: on,
                    },
                    EffectView::SetMode {
                        generation: s.generation,
                        game: GameId::OpenLoco,
                        multi_version: on,
                    },
                ],
            )
        }
    }

    pub open spec fn clicking_download(self) -> Step {
        if self.selected_tag() is Some && self.can_download() {
            (
                self.begun(1),
                seq![
                    EffectView::Install {
                        generation: self.generation,
                        game: self.selected_game,
                        tag: self.selected_tag()->0,
                    },
                ],
            )
        } else {
            (self, seq![])
        }
    }

    pub open spec fn clicking_remove(self) -> Step {
        let s = StateView { pending_removal: None, ..self };
        if s.can_remove() && s.selected_build() is Some && s.other_than(
            s.selected_build()->0.name,
        ) is Some {
            let remove = s.selected_build()->0.name;
            let activate = s.other_than(remove)->0;
            (
                StateView { pending_removal: Some(RemovalView { activate, remove }), ..s },
                seq![EffectView::ConfirmRemove { name: remove }],
            )
        } else {
            (s, seq![])
        }
    }

    pub open spec fn confirming_remove(self) -> Step {
        let s = StateView { pending_removal: None, ..self };
        match self.pending_removal {
            Some(pending) => if !self.is_busy() {
                (
                    s.begun(1),
                    seq![
                        EffectView::SwitchThenRemove {
                            generation: s.generation,
                            game: s.selected_game,
                            activate: pending.activate,
                            remove: pending.remove,
                        },
                    ],
                )
            } else {
                (
                    s.failing(
                        AlertView {
                            title: "FailedToRemoveVersion"@,
                            message: "RemoveBusyMessage"@,
                            message_is_key: true,
                            generation: Some(s.generation),
                            title_arg: None,
                        },
                    ),
                    seq![],
                )
            },
            None => (s, seq![]),
        }
    }

    pub open spec fn loading_installed(
        self,
        generation: u64,
        result: Result<(Seq<InstalledView>, Option<Seq<char>>), Seq<char>>,
    ) -> Step {
        if generation != self.generation {
            (self, seq![])
        } else {
            match result {
                Ok((installed, active)) => {
                    let i = match active {
                        Some(active) => current_index(installed, active, self.multi_version),
                        None => installed.len() as int,
                    };
                    let s = StateView {
                        selected_installed: if i < installed.len() {
                            i as usize
                        } else {
                            0
                        },
                        installed,
                        active,
                        ..self
                    };
                    (s, seq![])
                },
                Err(message) => (
                    self.failing(failure("FailedToReadInstalledVersions"@, message, generation)),
                    seq![],
                ),
            }
        }
    }

    pub open spec fn loading_releases(
        self,
        generation: u64,
        result: Result<Seq<RowView>, Seq<char>>,
    ) -> Step {
        if generation != self.generation {
            (self, seq![])
        } else {
            match result {
                Ok(found) => {
                    let slot = cache_slot(self.selected_game, self.show_develop);
                    let s = StateView {
                        release_cache: self.release_cache.update(slot, Some(found)),
                        ..self
                    };
                    s.adopting(found)
                },
                Err(message) => (
                    self.failing(failure("FailedToObtainBuilds"@, message, generation)),
                    seq![],
                ),
            }
        }
    }

    /// An operation of the current generation has ended, and the list of builds is
    /// worth reading again where it went well.
    pub open spec fn ending(
        self,
        generation: u64,
        result: Result<(), Seq<char>>,
        title: Seq<char>,
    ) -> Step {
        if generation != self.generation {
            (self, seq![])
        } else {
            let s = self.finished();
            match result {
                Ok(()) => (s.cleared(), seq![s.reload()]),
                Err(message) => (s.failing(failure(title, message, generation)), seq![]),
            }
        }
    }

    /// A removal has ended. The list is read again even where it failed: the switch
    /// away from the removed version came first, and may have happened.
    pub open spec fn ending_removal(self, generation: u64, result: Result<(), Seq<char>>) -> Step {
        if generation != self.generation {
            (self, seq![])
        } else {
            let s = self.finished();
            match result {
                Ok(()) => (s.cleared(), seq![s.reload()]),
                Err(message) => (
                    s.failing(failure("FailedToRemoveVersion"@, message, generation)),
                    seq![s.reload()],
                ),
            }
        }
    }

    pub open spec fn ending_mode_change(
        self,
        generation: u64,
        result: Result<Option<ReportView>, Seq<char>>,
    ) -> Step {
        if generation != self.generation {
            (self, seq![])
        } else {
            let s = self.finished();
            match result {
                Ok(report) => (
                    s.cleared(),
                    if report is Some && report->0.retained.len() > 0 {
                        seq![s.reload(), EffectView::ShowDisableReport(report->0)]
                    } else {
                        seq![s.reload()]
                    },
                ),
                Err(message) => (
                    s.failing(failure("FailedToChangeVersionMode"@, message, generation)),
                    seq![],
                ),
            }
        }
    }

    pub open spec fn ending_game_data(
        self,
        generation: u64,
        game: OriginalGame,
        result: Result<Seq<char>, Seq<char>>,
    ) -> Step {
        if generation != self.generation {
            (self, seq![])
        } else {
            let s = self.finished();
            match result {
                Ok(path) => (
                    StateView { game_data: s.game_data.update(game.place(), Some(path)), ..s },
                    seq![],
                ),
                Err(message) => (
                    s.failing(failure("FailedToInstallGameData"@, message, s.generation)),
                    seq![],
                ),
            }
        }
    }

    pub open spec fn ending_launch(self, result: Result<(), Seq<char>>) -> Step {
        match result {
            Ok(()) => (
                if self.error is Some && self.error->0.generation is None {
                    self.cleared()
                } else {
                    self
                },
                seq![],
            ),
            Err(message) => (
                self.failing(
                    AlertView {
                        title: "FailedToLaunchGame"@,
                        message,
                        message_is_key: false,
                        generation: None,
                        title_arg: Some(self.selected_game.title()),
                    },
                ),
                seq![],
            ),
        }
    }

    /// What becomes of the state when `msg` happens, and what is to be done about it.
    pub open spec fn next(self, msg: MsgView) -> Step {
        match msg {
            MsgView::SelectGame(game) => self.selecting_game(game),
            MsgView::SelectInstalled(index) => self.selecting_installed(index),
            MsgView::SelectRelease(index) => (
                StateView { selected_release: index, ..self },
                seq![],
            ),
            MsgView::UpdateChecked(found) => (
                if self.check_for_updates {
                    StateView { update: found, ..self }
                } else {
                    self
                },
                seq![],
            ),
            MsgView::DismissUpdate => (StateView { update: None, ..self }, seq![]),
            MsgView::OpenUpdatePage => (
                StateView { update: None, ..self },
                match self.update {
                    Some(update) => seq![EffectView::OpenUrl(update.url)],
                    None => seq![],
                },
            ),
            MsgView::ShowSettings => (self, seq![EffectView::ShowSettings]),
            MsgView::ToggleCheckForUpdates(on) => (
                StateView {
                    check_for_updates: on,
                    update: if on {
                        self.update
                    } else {
                        None
                    },
                    ..self
                },
                seq![EffectView::SavePref(PrefView::CheckForUpdates(on))],
            ),
            MsgView::ToggleDevelop(on) => self.toggling_develop(on),
            MsgView::ToggleAutoUpdate(on) => self.toggling_auto_update(on),
            MsgView::ToggleMultiVersion(on) => self.toggling_multi_version(on),
            MsgView::ClickPlay => (
                self,
                if self.can_play() {
                    seq![
                        EffectView::Launch {
                            game: self.selected_game,
                            dir: self.selected_build()->0.dir,
                        },
                    ]
                } else {
                    seq![]
                },
            ),
            MsgView::ClickDownload => self.clicking_download(),
            MsgView::ClickRemove => self.clicking_remove(),
            MsgView::ConfirmRemove => self.confirming_remove(),
            MsgView::InstalledLoaded { generation, result } => self.loading_installed(
                generation,
                result,
            ),
            MsgView::ReleasesLoaded { generation, result } => self.loading_releases(
                generation,
                result,
            ),
            MsgView::Progress { generation, status, value } => (
                if generation == self.generation && self.outstanding > 0 {
                    StateView { busy: Some(Busy { status: Some(status), value }), ..self }
                } else {
                    self
                },
                seq![],
            ),
            MsgView::InstallFinished { generation, result } => self.ending(
                generation,
                result,
                "DownloadBuildFailedTitle"@,
            ),
            MsgView::Activated { generation, result } => self.ending(
                generation,
                result,
                "FailedToSwitchVersion"@,
            ),
            MsgView::Removed { generation, result } => self.ending_removal(generation, result),
            MsgView::ModeChanged { generation, result } => self.ending_mode_change(
                generation,
                result,
            ),
            MsgView::GameDataScanned(found) => (
                StateView { game_data: with_finds(self.game_data, found), ..self },
                seq![],
            ),
            MsgView::ChooseInstaller(game) => (self, seq![EffectView::PickInstaller(game)]),
            MsgView::InstallerChosen { game, installer } => match installer {
                Some(installer) => (
                    self.begun(1),
                    seq![
                        EffectView::InstallGameData {
                            generation: self.generation,
                            game,
                            installer,
                        },
                    ],
                ),
                None => (self, seq![]),
            },
            MsgView::GameDataInstalled { generation, game, result } => self.ending_game_data(
                generation,
                game,
                result,
            ),
            MsgView::ChooseInstallRoot => (self, seq![EffectView::PickInstallRoot]),
            MsgView::InstallRootChosen(root) => (
                StateView { install_root: root, ..self },
                seq![
                    EffectView::SavePref(PrefView::InstallRoot(root)),
                    EffectView::ScanGameData,
                ],
            ),
            MsgView::StartupRepairFailed { message } => (
                self.failing(failure("FailedToRepairInstallation"@, message, self.generation)),
                seq![],
            ),
            MsgView::LaunchFinished { result } => self.ending_launch(result),
        }
    }

    /// Whether the two counters can still be raised: another generation can begin, and
    /// another operation can be outstanding.
    pub open spec fn has_room(self) -> bool {
        self.generation < u64::MAX && self.outstanding < u32::MAX
    }
}

// ---------------------------------------------------------------------------
// Doing it
// ---------------------------------------------------------------------------

impl UiState {
    /// The interface as it starts, with nothing known yet.
    pub fn new(game: GameId) -> (s: UiState)
        ensures
            s@ == (StateView {
                selected_game: game,
                installed: seq![],
                selected_installed: 0,
                active: None,
                releases: seq![],
                release_cache: seq![None, None, None, None],
                selected_release: 0,
                show_develop: false,
                check_for_updates: true,
                game_data: seq![None, None, None],
                install_root: None,
                update: None,
                auto_update: seq![false, false],
                multi_version: false,
                busy: None,
                outstanding: 0,
                error: None,
                generation: 0,
                pending_removal: None,
            }),
    {
        UiState {
            selected_game: game,
            installed: Vec::new(),
            selected_installed: 0,
            active: None,
            releases: Vec::new(),
            release_cache: [None, None, None, None],
            selected_release: 0,
            show_develop: false,
            check_for_updates: true,
            update: None,
            auto_update: [false, false],
            multi_version: false,
            busy: None,
            outstanding: 0,
            error: None,
            generation: 0,
            pending_removal: None,
            game_data: [None, None, None],
            install_root: None,
        }
    }

    /// Where this game's data is, if it is installed at all.
    pub fn game_data(&self, game: OriginalGame) -> (r: Option<&String>)
        ensures
            r is Some <==> self@.game_data[game.place()] is Some,
            r matches Some(path) ==> self@.game_data[game.place()] == Some(path@),
    {
        self.game_data[Self::data_slot(game)].as_ref()
    }

    /// The slot an original game's data is held in.
    fn data_slot(game: OriginalGame) -> (i: usize)
        ensures
            i == game.place(),
            i < 3,
    {
        match game {
            OriginalGame::RollerCoasterTycoon1 => 0,
            OriginalGame::RollerCoasterTycoon2 => 1,
            OriginalGame::Locomotion => 2,
        }
    }

    /// Whether an operation is under way.
    pub fn is_busy(&self) -> (r: bool)
        ensures
            r == self@.is_busy(),
    {
        self.busy.is_some()
    }

    /// Whether the selected game installs new releases by itself.
    pub fn auto_update(&self) -> (r: bool)
        ensures
            r == self@.auto_updates(),
    {
        self.auto_update[self.selected_game.index()]
    }

    /// Sets whether `game` installs new releases by itself.
    pub fn set_auto_update(&mut self, game: GameId, on: bool)
        ensures
            final(self)@ == (StateView {
                auto_update: old(self)@.auto_update.update(game.place(), on),
                ..old(self)@
            }),
    {
        let i: usize = game.index();
        self.auto_update[i] = on;
    }

    /// The on-disk identity of the current selection, never the display tag.
    fn selected_installed_name(&self) -> (r: Option<String>)
        ensures
            r is Some <==> self@.selected_build() is Some,
            r matches Some(name) ==> name@ == self@.selected_build()->0.name,
    {
        if self.selected_installed < self.installed.len() {
            Some(self.installed[self.selected_installed].name.clone())
        } else {
            None
        }
    }

    /// Where in the list the active entry is, or its length.
    fn active_index(&self) -> (i: usize)
        ensures
            self@.active_build() is Some <==> i < self.installed@.len(),
            i < self.installed@.len() ==> self@.active_build() == Some(
                self.installed@[i as int]@,
            ),
            i <= self.installed@.len(),
    {
        match &self.active {
            Some(active) => position_of(&self.installed, active.as_str(), self.multi_version),
            None => self.installed.len(),
        }
    }

    /// The installed entry that is active, found the right way for whichever layout is
    /// current.
    pub fn active_entry(&self) -> (r: Option<&Installed>)
        ensures
            r is Some <==> self@.active_build() is Some,
            r matches Some(entry) ==> self@.active_build() == Some(entry@),
    {
        let i: usize = self.active_index();
        if i < self.installed.len() {
            Some(&self.installed[i])
        } else {
            None
        }
    }

    /// The tag of the release the selection stands on.
    pub fn selected_release_version(&self) -> (r: Option<&str>)
        ensures
            r is Some <==> self@.selected_tag() is Some,
            r matches Some(tag) ==> self@.selected_tag() == Some(tag@),
    {
        if self.selected_release < self.releases.len() {
            Some(self.releases[self.selected_release].tag.as_str())
        } else {
            None
        }
    }

    pub fn play_enabled(&self) -> (r: bool)
        ensures
            r == self@.can_play(),
    {
        !self.is_busy() && self.selected_installed < self.installed.len()
            && self.installed[self.selected_installed].can_launch
    }

    pub fn download_enabled(&self) -> (r: bool)
        ensures
            r == self@.can_download(),
    {
        !self.is_busy() && self.releases.len() > 0 && !self.auto_update()
    }

    /// Remove deletes whatever the popup is showing, which is always the active
    /// version. It is made removable by switching away from it first, which is why two
    /// installed versions are the requirement: with one there is nothing to switch to.
    pub fn remove_enabled(&self) -> (r: bool)
        ensures
            r == self@.can_remove(),
    {
        !self.is_busy() && self.multi_version && self.installed.len() > 1
    }

    pub fn popup_enabled(&self) -> (r: bool)
        ensures
            r == self@.can_choose(),
    {
        !self.is_busy() && !self.auto_update()
    }

    /// Whether both counters can still be raised.
    pub fn has_room(&self) -> (r: bool)
        ensures
            r == self@.has_room(),
    {
        self.generation < u64::MAX && self.outstanding < u32::MAX
    }
}

/// Is `entry` the one `active` refers to?
fn is_active(entry: &Installed, active: &str, multi_version: bool) -> (r: bool)
    ensures
        r == is_current(entry@, active@, multi_version),
{
    if multi_version {
        same(entry.name.as_str(), active)
    } else {
        same(entry.tag.as_str(), active)
    }
}

/// Where in `installed` the entry that `active` refers to is, or their number.
fn position_of(installed: &Vec<Installed>, active: &str, multi_version: bool) -> (i: usize)
    ensures
        i == current_index(store::builds(installed@), active@, multi_version),
        i <= installed@.len(),
{
    let ghost all = store::builds(installed@);
    let ghost p = |i: int| is_current(all[i], active@, multi_version);
    let mut i: usize = 0;
    while i < installed.len() && !is_active(&installed[i], active, multi_version)
        invariant
            i <= installed.len(),
            all == store::builds(installed@),
            p == (|i: int| is_current(all[i], active@, multi_version)),
            forall|j: int| 0 <= j < i ==> !#[trigger] p(j),
        decreases installed.len() - i,
    {
        i += 1;
    }
    proof {
        search::first_that_is(p, 0, all.len() as int, i as int);
    }
    i
}

/// Which build to switch to before `name` can be deleted: the newest other installed
/// version, or `None` when there is no other one. Compares names, never tags: two
/// installed entries can share a display tag.
fn switch_target(state: &UiState, name: &str) -> (r: Option<String>)
    ensures
        text::opt_view(r) == state@.other_than(name@),
{
    let ghost all = store::builds(state.installed@);
    let ghost p = |i: int| all[i].name != name@;
    let mut i: usize = 0;
    while i < state.installed.len() && same(state.installed[i].name.as_str(), name)
        invariant
            i <= state.installed.len(),
            all == store::builds(state.installed@),
            p == (|i: int| all[i].name != name@),
            forall|j: int| 0 <= j < i ==> !#[trigger] p(j),
        decreases state.installed.len() - i,
    {
        i += 1;
    }
    proof {
        search::first_that_is(p, 0, all.len() as int, i as int);
    }
    if i < state.installed.len() {
        Some(state.installed[i].name.clone())
    } else {
        None
    }
}

/// The newest listed release's tag, unless it is already the one active. Tag to tag:
/// a directory renamed to resolve a collision keeps its original tag.
fn newest_installable(state: &UiState) -> (r: Option<String>)
    ensures
        text::opt_view(r) == state@.due(),
{
    if state.releases.len() == 0 {
        return None;
    }
    let newest: &str = state.releases[0].tag.as_str();
    match state.active_entry() {
        Some(entry) => {
            if same(entry.tag.as_str(), newest) {
                return None;
            }
        },
        None => {},
    }
    Some(newest.to_owned())
}

/// A copy of a list of releases.
fn copy_rows(found: &Vec<ReleaseRow>) -> (out: Vec<ReleaseRow>)
    ensures
        rows(out@) == rows(found@),
{
    let mut out: Vec<ReleaseRow> = Vec::new();
    let mut i: usize = 0;
    while i < found.len()
        invariant
            i <= found.len(),
            out@.len() == i,
            forall|j: int| 0 <= j < i ==> (#[trigger] out@[j])@ == found@[j]@,
        decreases found.len() - i,
    {
        out.push(found[i].clone());
        i += 1;
    }
    assert(rows(out@) =~= rows(found@));
    out
}

/// Where the cache holds the releases of a game, with or without development builds.
fn slot_of(game: GameId, develop: bool) -> (i: usize)
    ensures
        i == cache_slot(game, develop),
        i < 4,
{
    game.index() * 2 + if develop {
        1
    } else {
        0
    }
}

/// The releases already fetched for a game.
fn cached(state: &UiState, game: GameId, include_develop: bool) -> (r: Option<Vec<ReleaseRow>>)
    ensures
        r is Some <==> state@.release_cache[cache_slot(game, include_develop)] is Some,
        r matches Some(v) ==> state@.release_cache[cache_slot(game, include_develop)] == Some(
            rows(v@),
        ),
{
    match &state.release_cache[slot_of(game, include_develop)] {
        Some(found) => Some(copy_rows(found)),
        None => None,
    }
}

/// Records that `count` operations have just been initiated, so every guard closes
/// *now* rather than whenever the first progress report happens to arrive.
///
/// Deliberately not called for `Effect::Launch`, whose reply carries no generation of
/// its own and so cannot be reconciled with a count that a new generation zeroes.
fn begin(state: &mut UiState, count: u32)
    requires
        old(state)@.outstanding + count <= u32::MAX,
    ensures
        final(state)@ == old(state)@.begun(count),
{
    state.outstanding = state.outstanding + count;
    if state.busy.is_none() {
        state.busy = Some(Busy { status: None, value: None });
    }
}

/// One initiated operation has reported back, successfully or not. `busy` clears only
/// when the last outstanding one does.
fn end(state: &mut UiState)
    ensures
        final(state)@ == old(state)@.finished(),
{
    state.outstanding = if state.outstanding == 0 {
        0
    } else {
        state.outstanding - 1
    };
    if state.outstanding == 0 {
        state.busy = None;
    }
}

/// Advances to a new generation, returning the one being abandoned so the caller can
/// have cancelled whatever was running under it.
///
/// Clears `busy` and the outstanding count unconditionally: every reply that would
/// otherwise clear them is itself gated on a generation match, so an operation whose
/// reply is discarded as stale would leave every control disabled forever.
///
/// `error` is cleared only when it belongs to a generation; a launch error has nothing
/// to do with switching games.
fn bump_generation(state: &mut UiState) -> (previous: u64)
    requires
        old(state)@.generation < u64::MAX,
    ensures
        final(state)@ == old(state)@.renewed(),
        previous == old(state)@.generation,
{
    let previous: u64 = state.generation;
    state.generation = previous + 1;
    state.outstanding = 0;
    state.busy = None;
    let scoped: bool = match &state.error {
        Some(alert) => alert.generation.is_some(),
        None => false,
    };
    if scoped {
        state.error = None;
    }
    previous
}

/// Shows that a generation's work failed.
fn fail(state: &mut UiState, title: &str, message: String, generation: u64)
    ensures
        final(state)@ == old(state)@.failing(failure(title@, message@, generation)),
{
    state.error = Some(
        Alert {
            title: title.to_owned(),
            message,
            message_is_key: false,
            generation: Some(generation),
            title_arg: None,
        },
    );
}

/// The effect that installs `tag` of the selected game.
fn install_effect(state: &UiState, tag: String) -> (e: Effect)
    ensures
        e@ == (EffectView::Install {
            generation: state@.generation,
            game: state@.selected_game,
            tag: tag@,
        }),
{
    Effect::Install { generation: state.generation, game: state.selected_game, tag }
}

/// The effect that reads the selected game's installed builds.
fn reload_effect(state: &UiState) -> (e: Effect)
    ensures
        e@ == state@.reload(),
{
    Effect::LoadInstalled { generation: state.generation, game: state.selected_game }
}

/// Takes a set of releases as the current ones, from a fetch or from the cache, and
/// adds whatever that implies to `effects`. Both go through here on purpose: a cache
/// hit that merely took the list would silently stop auto-update from ever firing on a
/// game switch.
fn adopt_releases(state: &mut UiState, found: Vec<ReleaseRow>, effects: &mut Vec<Effect>)
    requires
        old(state)@.outstanding < u32::MAX,
    ensures
        final(state)@ == old(state)@.adopting(rows(found@)).0,
        effects_of(final(effects)@) == effects_of(old(effects)@) + old(state)@.adopting(
            rows(found@),
        ).1,
{
    let ghost before = state@;
    let ghost first = effects@;
    state.releases = found;
    state.selected_release = 0;
    assert(state@ == (StateView { releases: rows(found@), selected_release: 0, ..before }));
    if state.auto_update() {
        match newest_installable(state) {
            Some(tag) => {
                let effect: Effect = install_effect(state, tag);
                begin(state, 1);
                effects.push(effect);
                assert(effects_of(effects@) =~= effects_of(first).push(effect@));
                assert(effects_of(first).push(effect@) =~= effects_of(first) + seq![effect@]);
                return ;
            },
            None => {},
        }
    }
    assert(effects_of(first) + Seq::<EffectView>::empty() =~= effects_of(first));
}

/// Takes the selected game's releases from the cache, or asks for them.
fn want_releases(state: &mut UiState, effects: &mut Vec<Effect>)
    requires
        old(state)@.outstanding < u32::MAX,
    ensures
        final(state)@ == old(state)@.wanting_releases().0,
        effects_of(final(effects)@) == effects_of(old(effects)@) + old(
            state,
        )@.wanting_releases().1,
{
    let ghost first = effects@;
    match cached(state, state.selected_game, state.show_develop) {
        Some(found) => adopt_releases(state, found, effects),
        None => {
            let effect: Effect = Effect::FetchReleases {
                generation: state.generation,
                game: state.selected_game,
                include_develop: state.show_develop,
            };
            effects.push(effect);
            assert(effects_of(effects@) =~= effects_of(first).push(effect@));
            assert(effects_of(first).push(effect@) =~= effects_of(first) + seq![effect@]);
        },
    }
}

fn select_game(state: &mut UiState, game: GameId) -> (effects: Vec<Effect>)
    requires
        old(state)@.has_room(),
    ensures
        (final(state)@, effects_of(effects@)) == old(state)@.selecting_game(game),
{
    let ghost before = state@;
    let cancelled: u64 = bump_generation(state);
    state.selected_game = game;
    state.installed = Vec::new();
    state.releases = Vec::new();
    state.active = None;
    state.selected_installed = 0;
    state.selected_release = 0;
    assert(state@ =~= (StateView {
        selected_game: game,
        installed: seq![],
        releases: seq![],
        active: None,
        selected_installed: 0,
        selected_release: 0,
        ..before.renewed()
    }));
    let mut effects: Vec<Effect> = Vec::new();
    effects.push(Effect::CancelInFlight { generation: cancelled });
    effects.push(Effect::SavePref(Pref::SelectedGame(game)));
    effects.push(reload_effect(state));
    assert(effects_of(effects@) =~= seq![
        EffectView::CancelInFlight { generation: before.generation },
        EffectView::SavePref(PrefView::SelectedGame(game)),
        state@.reload(),
    ]);
    want_releases(state, &mut effects);
    effects
}

fn toggle_develop(state: &mut UiState, on: bool) -> (effects: Vec<Effect>)
    requires
        old(state)@.has_room(),
    ensures
        (final(state)@, effects_of(effects@)) == old(state)@.toggling_develop(on),
{
    let ghost before = state@;
    let cancelled: u64 = bump_generation(state);
    state.show_develop = on;
    assert(state@ =~= (StateView { show_develop: on, ..before.renewed() }));
    let mut effects: Vec<Effect> = Vec::new();
    effects.push(Effect::CancelInFlight { generation: cancelled });
    effects.push(Effect::SavePref(Pref::ShowDevelop(on)));
    assert(effects_of(effects@) =~= seq![
        EffectView::CancelInFlight { generation: before.generation },
        EffectView::SavePref(PrefView::ShowDevelop(on)),
    ]);
    want_releases(state, &mut effects);
    effects
}

/// No effects at all.
fn nothing() -> (effects: Vec<Effect>)
    ensures
        effects_of(effects@) == Seq::<EffectView>::empty(),
{
    let effects: Vec<Effect> = Vec::new();
    assert(effects_of(effects@) =~= Seq::<EffectView>::empty());
    effects
}

/// One effect.
fn only(effect: Effect) -> (effects: Vec<Effect>)
    ensures
        effects_of(effects@) == seq![effect@],
{
    let mut effects: Vec<Effect> = Vec::new();
    effects.push(effect);
    assert(effects_of(effects@) =~= seq![effect@]);
    effects
}

fn select_installed(state: &mut UiState, index: usize) -> (effects: Vec<Effect>)
    requires
        old(state)@.has_room(),
    ensures
        (final(state)@, effects_of(effects@)) == old(state)@.selecting_installed(index),
{
    if state.is_busy() {
        return nothing();
    }
    state.selected_installed = index;
    let name: String = match state.selected_installed_name() {
        Some(name) => name,
        None => {
            return nothing();
        },
    };
    let current: bool = match state.active_entry() {
        Some(entry) => same(entry.name.as_str(), name.as_str()),
        None => false,
    };
    if state.multi_version && !current {
        let effect: Effect = Effect::Activate {
            generation: state.generation,
            game: state.selected_game,
            name,
        };
        begin(state, 1);
        only(effect)
    } else {
        nothing()
    }
}

fn toggle_auto_update(state: &mut UiState, on: bool) -> (effects: Vec<Effect>)
    requires
        old(state)@.has_room(),
    ensures
        (final(state)@, effects_of(effects@)) == old(state)@.toggling_auto_update(on),
{
    let game: GameId = state.selected_game;
    state.set_auto_update(game, on);
    let mut effects: Vec<Effect> = only(Effect::SavePref(Pref::AutoUpdate(on)));
    let ghost first = effects@;
    if on && !state.is_busy() {
        match newest_installable(state) {
            Some(tag) => {
                let effect: Effect = install_effect(state, tag);
                begin(state, 1);
                effects.push(effect);
                assert(effects_of(effects@) =~= effects_of(first).push(effect@));
            },
            None => {},
        }
    }
    effects
}

fn toggle_multi_version(state: &mut UiState, on: bool) -> (effects: Vec<Effect>)
    requires
        old(state)@.has_room(),
    ensures
        (final(state)@, effects_of(effects@)) == old(state)@.toggling_multi_version(on),
{
    // Refused here rather than relying on the checkbox being disabled. This is the one
    // toggle that issues store operations, and cancelling cannot stop one.
    if state.is_busy() {
        return nothing();
    }
    let ghost before = state@;
    let cancelled: u64 = bump_generation(state);
    state.multi_version = on;
    assert(state@ =~= (StateView { multi_version: on, ..before.renewed() }));
    let mut effects: Vec<Effect> = Vec::new();
    effects.push(Effect::CancelInFlight { generation: cancelled });
    effects.push(Effect::SavePref(Pref::MultiVersion(on)));
    // Global preference, so every game's layout changes.
    effects.push(
        Effect::SetMode {
            generation: state.generation,
            game: GameId::OpenRCT2,
            multi_version: on,
        },
    );
    effects.push(
        Effect::SetMode {
            generation: state.generation,
            game: GameId::OpenLoco,
            multi_version: on,
        },
    );
    // After the count was zeroed: one operation per game, so `busy` holds until the
    // last `ModeChanged` lands.
    begin(state, 2);
    assert(effects_of(effects@) =~= before.toggling_multi_version(on).1);
    effects
}

fn click_download(state: &mut UiState) -> (effects: Vec<Effect>)
    requires
        old(state)@.has_room(),
    ensures
        (final(state)@, effects_of(effects@)) == old(state)@.clicking_download(),
{
    let tag: String = match state.selected_release_version() {
        Some(tag) => tag.to_owned(),
        None => {
            return nothing();
        },
    };
    if !state.download_enabled() {
        return nothing();
    }
    let effect: Effect = install_effect(state, tag);
    begin(state, 1);
    only(effect)
}

fn click_remove(state: &mut UiState) -> (effects: Vec<Effect>)
    ensures
        (final(state)@, effects_of(effects@)) == old(state)@.clicking_remove(),
{
    // Cleared on every path out. Cancelling the question is simply the absence of a
    // `ConfirmRemove`, so a cancelled removal would otherwise leave its pair here.
    state.pending_removal = None;
    if !state.remove_enabled() {
        return nothing();
    }
    let remove: String = match state.selected_installed_name() {
        Some(name) => name,
        None => {
            return nothing();
        },
    };
    let activate: String = match switch_target(state, remove.as_str()) {
        Some(name) => name,
        None => {
            return nothing();
        },
    };
    state.pending_removal = Some(PendingRemoval { activate, remove: remove.clone() });
    only(Effect::ConfirmRemove { name: remove })
}

fn confirm_remove(state: &mut UiState) -> (effects: Vec<Effect>)
    requires
        old(state)@.has_room(),
    ensures
        (final(state)@, effects_of(effects@)) == old(state)@.confirming_remove(),
{
    // The pair is taken on every path, including the refusal: a confirmation that is
    // not acted on must not stay armed for a later one.
    let pending: Option<PendingRemoval> = state.pending_removal.take();
    match pending {
        Some(pending) => {
            if !state.is_busy() {
                begin(state, 1);
                only(
                    Effect::SwitchThenRemove {
                        generation: state.generation,
                        game: state.selected_game,
                        activate: pending.activate,
                        remove: pending.remove,
                    },
                )
            } else {
                // Refused, and *said* so: the user answered a destructive question and
                // is entitled to know that nothing happened.
                state.error = Some(
                    Alert {
                        title: "FailedToRemoveVersion".to_owned(),
                        message: "RemoveBusyMessage".to_owned(),
                        message_is_key: true,
                        generation: Some(state.generation),
                        title_arg: None,
                    },
                );
                nothing()
            }
        },
        None => nothing(),
    }
}

fn installed_loaded(
    state: &mut UiState,
    generation: u64,
    result: Result<(Vec<Installed>, Option<String>), String>,
) -> (effects: Vec<Effect>)
    ensures
        (final(state)@, effects_of(effects@)) == old(state)@.next(
            (Msg::InstalledLoaded { generation, result })@,
        ),
{
    if generation != state.generation {
        return nothing();
    }
    match result {
        Ok((installed, active)) => {
            let i: usize = match &active {
                Some(active) => position_of(&installed, active.as_str(), state.multi_version),
                None => installed.len(),
            };
            state.selected_installed = if i < installed.len() {
                i
            } else {
                0
            };
            state.installed = installed;
            state.active = active;
        },
        Err(message) => fail(state, "FailedToReadInstalledVersions", message, generation),
    }
    nothing()
}

fn releases_loaded(
    state: &mut UiState,
    generation: u64,
    result: Result<Vec<ReleaseRow>, String>,
) -> (effects: Vec<Effect>)
    requires
        old(state)@.has_room(),
    ensures
        (final(state)@, effects_of(effects@)) == old(state)@.next(
            (Msg::ReleasesLoaded { generation, result })@,
        ),
{
    let mut effects: Vec<Effect> = nothing();
    if generation != state.generation {
        return effects;
    }
    match result {
        Ok(found) => {
            let ghost before = state@;
            let slot: usize = slot_of(state.selected_game, state.show_develop);
            state.release_cache[slot] = Some(copy_rows(&found));
            assert(state@.release_cache =~= before.release_cache.update(
                slot as int,
                Some(rows(found@)),
            ));
            let ghost middle = state@;
            adopt_releases(state, found, &mut effects);
            assert(Seq::<EffectView>::empty() + middle.adopting(rows(found@)).1
                =~= middle.adopting(rows(found@)).1);
        },
        Err(message) => fail(state, "FailedToObtainBuilds", message, generation),
    }
    effects
}

/// Ends an operation of the current generation.
fn finish(
    state: &mut UiState,
    generation: u64,
    result: Result<(), String>,
    error_title: &str,
) -> (effects: Vec<Effect>)
    ensures
        (final(state)@, effects_of(effects@)) == old(state)@.ending(
            generation,
            outcome(result),
            error_title@,
        ),
{
    if generation != state.generation {
        return nothing();
    }
    end(state);
    match result {
        Ok(()) => {
            state.error = None;
            only(reload_effect(state))
        },
        Err(message) => {
            fail(state, error_title, message, generation);
            nothing()
        },
    }
}

fn removed(state: &mut UiState, generation: u64, result: Result<(), String>) -> (effects: Vec<
    Effect,
>)
    ensures
        (final(state)@, effects_of(effects@)) == old(state)@.ending_removal(
            generation,
            outcome(result),
        ),
{
    if generation != state.generation {
        return nothing();
    }
    end(state);
    match result {
        Ok(()) => {
            state.error = None;
        },
        Err(message) => fail(state, "FailedToRemoveVersion", message, generation),
    }
    only(reload_effect(state))
}

fn mode_changed(
    state: &mut UiState,
    generation: u64,
    result: Result<Option<DisableReport>, String>,
) -> (effects: Vec<Effect>)
    ensures
        (final(state)@, effects_of(effects@)) == old(state)@.next(
            (Msg::ModeChanged { generation, result })@,
        ),
{
    if generation != state.generation {
        return nothing();
    }
    end(state);
    match result {
        Ok(report) => {
            state.error = None;
            let mut effects: Vec<Effect> = only(reload_effect(state));
            match report {
                Some(report) => {
                    if report.retained.len() > 0 {
                        let ghost first = effects@;
                        effects.push(Effect::ShowDisableReport(report));
                        assert(effects_of(effects@) =~= effects_of(first).push(
                            EffectView::ShowDisableReport(report@),
                        ));
                    }
                },
                None => {},
            }
            effects
        },
        Err(message) => {
            fail(state, "FailedToChangeVersionMode", message, generation);
            nothing()
        },
    }
}

fn game_data_scanned(state: &mut UiState, found: Vec<(OriginalGame, Option<String>)>)
    ensures
        final(state)@ == (StateView {
            game_data: with_finds(old(state)@.game_data, finds(found@)),
            ..old(state)@
        }),
{
    let ghost before = state@;
    let mut i: usize = 0;
    assert(finds(found@).take(0) =~= seq![]);
    while i < found.len()
        invariant
            i <= found.len(),
            state@ == (StateView {
                game_data: with_finds(before.game_data, finds(found@).take(i as int)),
                ..before
            }),
        decreases found.len() - i,
    {
        let slot: usize = UiState::data_slot(found[i].0);
        let path: Option<String> = match &found[i].1 {
            Some(path) => Some(path.clone()),
            None => None,
        };
        let ghost middle = state@;
        state.game_data[slot] = path;
        proof {
            let done = finds(found@).take(i + 1);
            assert(done.drop_last() =~= finds(found@).take(i as int));
            assert(state@.game_data =~= middle.game_data.update(slot as int, text::opt_view(path)));
        }
        i += 1;
    }
    assert(finds(found@).take(i as int) =~= finds(found@));
}

fn installer_chosen(state: &mut UiState, game: OriginalGame, installer: Option<String>) -> (effects:
    Vec<Effect>)
    requires
        old(state)@.has_room(),
    ensures
        (final(state)@, effects_of(effects@)) == old(state)@.next(
            (Msg::InstallerChosen { game, installer })@,
        ),
{
    match installer {
        Some(installer) => {
            begin(state, 1);
            only(Effect::InstallGameData { generation: state.generation, game, installer })
        },
        None => nothing(),
    }
}

fn game_data_installed(
    state: &mut UiState,
    generation: u64,
    game: OriginalGame,
    result: Result<String, String>,
) -> (effects: Vec<Effect>)
    ensures
        (final(state)@, effects_of(effects@)) == old(state)@.next(
            (Msg::GameDataInstalled { generation, game, result })@,
        ),
{
    if generation != state.generation {
        return nothing();
    }
    end(state);
    let ghost middle = state@;
    match result {
        Ok(path) => {
            let slot: usize = UiState::data_slot(game);
            state.game_data[slot] = Some(path);
            assert(state@.game_data =~= middle.game_data.update(slot as int, Some(path@)));
        },
        Err(message) => {
            let current: u64 = state.generation;
            fail(state, "FailedToInstallGameData", message, current);
        },
    }
    nothing()
}

fn install_root_chosen(state: &mut UiState, root: Option<String>) -> (effects: Vec<Effect>)
    ensures
        (final(state)@, effects_of(effects@)) == old(state)@.next(Msg::InstallRootChosen(root)@),
{
    let saved: Option<String> = match &root {
        Some(path) => Some(path.clone()),
        None => None,
    };
    state.install_root = root;
    let mut effects: Vec<Effect> = only(Effect::SavePref(Pref::InstallRoot(saved)));
    let ghost first = effects@;
    // Where the data is depends on where it is unpacked.
    effects.push(Effect::ScanGameData);
    assert(effects_of(effects@) =~= effects_of(first).push(EffectView::ScanGameData));
    effects
}

fn launch_finished(state: &mut UiState, result: Result<(), String>)
    ensures
        (final(state)@, Seq::<EffectView>::empty()) == old(state)@.ending_launch(outcome(result)),
{
    match result {
        Ok(()) => {
            // Each event clears exactly the error class it owns. A launch carries no
            // generation of its own, so nothing else ever clears a launch error, but
            // this must not dismiss an unrelated one the user has not read.
            let own: bool = match &state.error {
                Some(alert) => alert.generation.is_none(),
                None => false,
            };
            if own {
                state.error = None;
            }
        },
        Err(message) => {
            state.error = Some(
                Alert {
                    title: "FailedToLaunchGame".to_owned(),
                    message,
                    message_is_key: false,
                    generation: None,
                    title_arg: Some(state.selected_game.display_name().to_owned()),
                },
            );
        },
    }
}

/// Takes in one thing that happened: changes the state, and says what is to be done.
pub fn reduce(state: &mut UiState, msg: Msg) -> (effects: Vec<Effect>)
    requires
        old(state)@.has_room(),
    ensures
        (final(state)@, effects_of(effects@)) == old(state)@.next(msg@),
{
    match msg {
        Msg::SelectGame(game) => select_game(state, game),
        Msg::SelectInstalled(index) => select_installed(state, index),
        Msg::SelectRelease(index) => {
            state.selected_release = index;
            nothing()
        },
        Msg::UpdateChecked(found) => {
            // Only when the check is still wanted: the setting can be turned off while
            // the request is in flight.
            if state.check_for_updates {
                state.update = found;
            }
            nothing()
        },
        Msg::DismissUpdate => {
            state.update = None;
            nothing()
        },
        Msg::OpenUpdatePage => {
            // The banner goes either way: somebody who has opened the page has been
            // told.
            let update: Option<Update> = state.update.take();
            match update {
                Some(update) => only(Effect::OpenUrl(update.url)),
                None => nothing(),
            }
        },
        Msg::ShowSettings => only(Effect::ShowSettings),
        Msg::ToggleCheckForUpdates(on) => {
            state.check_for_updates = on;
            // Turning it off takes down a banner already showing.
            if !on {
                state.update = None;
            }
            only(Effect::SavePref(Pref::CheckForUpdates(on)))
        },
        Msg::ToggleDevelop(on) => toggle_develop(state, on),
        Msg::ToggleAutoUpdate(on) => toggle_auto_update(state, on),
        Msg::ToggleMultiVersion(on) => toggle_multi_version(state, on),
        Msg::ClickPlay => {
            if state.play_enabled() {
                only(
                    Effect::Launch {
                        game: state.selected_game,
                        dir: state.installed[state.selected_installed].dir.clone(),
                    },
                )
            } else {
                nothing()
            }
        },
        Msg::ClickDownload => click_download(state),
        Msg::ClickRemove => click_remove(state),
        Msg::ConfirmRemove => confirm_remove(state),
        Msg::InstalledLoaded { generation, result } => installed_loaded(state, generation, result),
        Msg::ReleasesLoaded { generation, result } => releases_loaded(state, generation, result),
        Msg::Progress { generation, status, value } => {
            // Only ever updates a busy state an initiated operation established; it
            // never creates one.
            if generation == state.generation && state.outstanding > 0 {
                state.busy = Some(Busy { status: Some(status), value });
            }
            nothing()
        },
        Msg::InstallFinished { generation, result } => finish(
            state,
            generation,
            result,
            "DownloadBuildFailedTitle",
        ),
        Msg::Activated { generation, result } => finish(
            state,
            generation,
            result,
            "FailedToSwitchVersion",
        ),
        Msg::Removed { generation, result } => removed(state, generation, result),
        Msg::ModeChanged { generation, result } => mode_changed(state, generation, result),
        Msg::GameDataScanned(found) => {
            game_data_scanned(state, found);
            nothing()
        },
        Msg::ChooseInstaller(game) => only(Effect::PickInstaller(game)),
        Msg::InstallerChosen { game, installer } => installer_chosen(state, game, installer),
        Msg::GameDataInstalled { generation, game, result } => game_data_installed(
            state,
            generation,
            game,
            result,
        ),
        Msg::ChooseInstallRoot => only(Effect::PickInstallRoot),
        Msg::InstallRootChosen(root) => install_root_chosen(state, root),
        Msg::StartupRepairFailed { message } => {
            let current: u64 = state.generation;
            fail(state, "FailedToRepairInstallation", message, current);
            nothing()
        },
        Msg::LaunchFinished { result } => {
            launch_finished(state, result);
            nothing()
        },
    }
}

} // verus!
