//! What each control shows, and whether it can be used.
//!
//! There is one place where a control's appearance is decided, and it decides all of
//! them anew for every state.

use vstd::prelude::*;

use crate::download::Fraction;
use crate::game::GameId;
use crate::gamedata::OriginalGame;
use crate::state::{Alert, AlertView, Busy, ReleaseRow, RowView, StateView, UiState};
use crate::store;
use crate::store::{DisableReport, Installed, InstalledView, ReportView};
use crate::strings;
use crate::strings::{format1, format2, get, Bundle};
use crate::text;
use crate::text::{joined, same, text_of, to_decimal};

verus! {

broadcast use vstd::string::group_string_axioms;

/// The translations, as they are looked up.
pub type Words = Seq<(Seq<char>, Seq<char>)>;

// ---------------------------------------------------------------------------
// The sidebar
// ---------------------------------------------------------------------------

/// A fixed order, independent of `GameId::ALL`'s: a reordering there must not silently
/// reorder the sidebar out from under a saved selection.
pub const ROWS: [GameId; 2] = [GameId::OpenRCT2, GameId::OpenLoco];

/// How many rows the sidebar has.
pub fn row_count() -> (n: isize)
    ensures
        n == ROWS@.len(),
{
    2
}

/// The game a row stands for.
pub fn game_for_row(row: isize) -> (r: Option<GameId>)
    ensures
        r == if 0 <= row < ROWS@.len() {
            Some(ROWS@[row as int])
        } else {
            None
        },
{
    if row < 0 {
        return None;
    }
    let i: usize = row as usize;
    if i < ROWS.len() {
        Some(ROWS[i])
    } else {
        None
    }
}

/// The row a game is shown in.
pub open spec fn row_of(game: GameId) -> usize {
    match game {
        GameId::OpenRCT2 => 0,
        GameId::OpenLoco => 1,
    }
}

/// The inverse of `game_for_row`. A click already leaves the selection where the user
/// put it, but restoring the last selected game at startup does not go through a click.
pub fn row_for_game(game: GameId) -> (r: Option<usize>)
    ensures
        r == Some(row_of(game)),
        ROWS@[row_of(game) as int] == game,
{
    match game {
        GameId::OpenRCT2 => Some(0),
        GameId::OpenLoco => Some(1),
    }
}

/// The name of a game's icon, without its extension.
pub fn icon_name(game: GameId) -> (r: &'static str)
    ensures
        r@ == match game {
            GameId::OpenRCT2 => "icon-openrct2"@,
            GameId::OpenLoco => "icon-openloco"@,
        },
{
    match game {
        GameId::OpenRCT2 => "icon-openrct2",
        GameId::OpenLoco => "icon-openloco",
    }
}

// ---------------------------------------------------------------------------
// What a control answers
// ---------------------------------------------------------------------------

/// The entry of a popup that is selected. A popup says `-1` where none is, which is
/// treated the same as no popup at all.
pub fn selected_index(index: Option<isize>) -> (r: Option<usize>)
    ensures
        r is Some <==> index is Some && index->0 >= 0,
        r matches Some(i) ==> i == index->0,
{
    match index {
        Some(i) => if i >= 0 {
            Some(i as usize)
        } else {
            None
        },
        None => None,
    }
}

/// The game a tagged button stands for. Out of range means a button somebody tagged by
/// hand, and doing nothing beats acting on whichever game comes first.
pub fn game_for_tag(tag: isize) -> (r: Option<OriginalGame>)
    ensures
        r is Some <==> 0 <= tag < 3,
        r matches Some(game) ==> game.place() == tag,
{
    if tag == 0 {
        Some(OriginalGame::RollerCoasterTycoon1)
    } else if tag == 1 {
        Some(OriginalGame::RollerCoasterTycoon2)
    } else if tag == 2 {
        Some(OriginalGame::Locomotion)
    } else {
        None
    }
}

// ---------------------------------------------------------------------------
// Sizes
// ---------------------------------------------------------------------------

/// A quotient, rounded to the nearest whole number, and to the even one of two that are
/// as near.
pub open spec fn nearest(n: nat, d: nat) -> nat {
    let q = n / d;
    let r = n % d;
    if 2 * r > d || (2 * r == d && q % 2 == 1) {
        q + 1
    } else {
        q
    }
}

/// How far apart the numbers are, about `n`, that can be told from each other with 53
/// binary digits.
pub open spec fn spacing(n: nat) -> nat
    decreases n,
{
    if n < 0x20_0000_0000_0000 {
        1
    } else {
        2 * spacing(n / 2)
    }
}

/// A number of bytes as precisely as 53 binary digits allow.
pub open spec fn measured(bytes: u64) -> nat {
    nearest(bytes as nat, spacing(bytes as nat)) * spacing(bytes as nat)
}

/// The unit a size is given in: how many bytes it is, and how it is called.
pub open spec fn unit_for(bytes: nat) -> (nat, Seq<char>) {
    if bytes < 1024 {
        (1, "bytes"@)
    } else if bytes < 1_048_576 {
        (1024, "KB"@)
    } else if bytes < 1_073_741_824 {
        (1_048_576, "MB"@)
    } else {
        (1_073_741_824, "GB"@)
    }
}

/// A size to read: a plain count up to a kilobyte, and beyond that the largest unit that
/// there is at least one of, with one decimal.
pub open spec fn size_text(bytes: u64) -> Seq<char> {
    let (unit, name) = unit_for(measured(bytes));
    if unit == 1 {
        text::decimal(bytes as nat) + " "@ + name
    } else {
        let tenths = nearest(10 * measured(bytes), unit);
        text::decimal(tenths / 10) + "."@ + text::decimal(tenths % 10) + " "@ + name
    }
}

fn to_nearest(n: u128, d: u128) -> (r: u128)
    requires
        0 < d,
        n < 0x1_0000_0000_0000_0000_0000,
        d < 0x1_0000_0000_0000_0000_0000,
    ensures
        r == nearest(n as nat, d as nat),
{
    let q: u128 = n / d;
    let r: u128 = n % d;
    proof {
        vstd::arithmetic::div_mod::lemma_div_is_ordered_by_denominator(n as int, 1, d as int);
    }
    if 2 * r > d || (2 * r == d && q % 2 == 1) {
        q + 1
    } else {
        q
    }
}

proof fn spacing_is_small(n: nat)
    ensures
        spacing(n) >= 1,
        spacing(n) == 1 || spacing(n) * 0x10_0000_0000_0000 <= n,
    decreases n,
{
    if n >= 0x20_0000_0000_0000 {
        spacing_is_small(n / 2);
    }
}

fn to_spacing(n: u64) -> (r: u64)
    ensures
        r == spacing(n as nat),
        1 <= r <= 4096,
    decreases n,
{
    proof {
        spacing_is_small(n as nat);
    }
    if n < 0x20_0000_0000_0000 {
        1
    } else {
        2 * to_spacing(n / 2)
    }
}

/// A number of bytes as precisely as 53 binary digits allow.
fn measure(bytes: u64) -> (r: u128)
    ensures
        r == measured(bytes),
        r <= bytes + 4096,
{
    let s: u64 = to_spacing(bytes);
    let q: u128 = to_nearest(bytes as u128, s as u128);
    proof {
        let n = bytes as int;
        let d = s as int;
        vstd::arithmetic::div_mod::lemma_fundamental_div_mod(n, d);
        assert((n / d + 1) * d == d * (n / d) + d) by (nonlinear_arith);
        assert(q * d <= (n / d + 1) * d) by (nonlinear_arith)
            requires
                q <= n / d + 1,
                d >= 1,
        ;
        assert(n % d >= 0);
    }
    q * (s as u128)
}

/// A size to read.
pub fn human_bytes(bytes: u64) -> (out: String)
    ensures
        out@ == size_text(bytes),
{
    let value: u128 = measure(bytes);
    let (unit, name): (u128, &str) = if value < 1024 {
        (1, "bytes")
    } else if value < 1_048_576 {
        (1024, "KB")
    } else if value < 1_073_741_824 {
        (1_048_576, "MB")
    } else {
        (1_073_741_824, "GB")
    };
    if unit == 1 {
        return joined(joined(text_of(&to_decimal(bytes as u128)).as_str(), " ").as_str(), name);
    }
    let tenths: u128 = to_nearest(10 * value, unit);
    let whole: String = joined(text_of(&to_decimal(tenths / 10)).as_str(), ".");
    let number: String = joined(whole.as_str(), text_of(&to_decimal(tenths % 10)).as_str());
    joined(joined(number.as_str(), " ").as_str(), name)
}

/// Up to eight petabytes, sizes are exact to the decimal they are given with.
pub proof fn small_sizes_are_exact(bytes: u64)
    requires
        bytes < 0x20_0000_0000_0000,
    ensures
        measured(bytes) == bytes,
{
    let n = bytes as nat;
    assert(spacing(n) == 1);
    assert(n / 1 == n && n % 1 == 0);
    assert(nearest(n, 1) == n);
    assert(nearest(n, 1) * 1 == n);
}

// ---------------------------------------------------------------------------
// Dialogs
// ---------------------------------------------------------------------------

/// A question to answer before a build is removed.
#[derive(Debug, PartialEq, Eq)]
pub struct Question {
    pub title: String,
    pub message: String,
    pub remove: String,
    pub cancel: String,
}

/// What to ask before a build is removed. Removal is not reversible, which is the whole
/// reason to ask.
pub fn confirm_remove(bundle: &Bundle, tag: &str) -> (q: Question)
    ensures
        q.title@ == strings::formatted(
            strings::localized(bundle@, "RemoveConfirmTitle"@),
            seq![tag@],
        ),
        q.message@ == strings::localized(bundle@, "RemoveConfirmMessage"@),
        q.remove@ == strings::localized(bundle@, "Remove"@),
        q.cancel@ == strings::localized(bundle@, "Cancel"@),
{
    Question {
        title: format1(bundle, "RemoveConfirmTitle", tag),
        message: get(bundle, "RemoveConfirmMessage"),
        remove: get(bundle, "Remove"),
        cancel: get(bundle, "Cancel"),
    }
}

/// Something to tell, with nothing to decide.
#[derive(Debug, PartialEq, Eq)]
pub struct Notice {
    pub title: String,
    pub message: String,
}

/// What is told.
pub struct NoticeView {
    pub title: Seq<char>,
    pub message: Seq<char>,
}

impl View for Notice {
    type V = NoticeView;

    open spec fn view(&self) -> NoticeView {
        NoticeView { title: self.title@, message: self.message@ }
    }
}

/// What is told once versions are no longer kept side by side: that the others are still
/// there, if there are any. There is a wording of its own for one, and one for where
/// there was nothing to go on using.
pub open spec fn report_text(words: Words, report: ReportView) -> Option<NoticeView> {
    if report.retained.len() == 0 {
        None
    } else {
        let size = size_text(report.retained_bytes);
        Some(
            NoticeView {
                title: match report.kept {
                    Some(kept) => strings::formatted(
                        strings::localized(words, "MultiVersionDisabledTitle"@),
                        seq![kept],
                    ),
                    None => strings::localized(words, "MultiVersionDisabledNoneTitle"@),
                },
                message: if report.retained.len() == 1 {
                    strings::formatted(
                        strings::localized(words, "MultiVersionDisabledMessageOne"@),
                        seq![size],
                    )
                } else {
                    strings::formatted(
                        strings::localized(words, "MultiVersionDisabledMessage"@),
                        seq![text::decimal(report.retained.len()), size],
                    )
                },
            },
        )
    }
}

/// What to tell once versions are no longer kept side by side. Nothing was destroyed:
/// this is so that somebody who turns the setting off knows that the other builds are
/// still on disk.
pub fn show_disable_report(bundle: &Bundle, report: &DisableReport) -> (r: Option<Notice>)
    ensures
        crate::state::maybe(r) == report_text(bundle@, report@),
{
    if report.retained.len() == 0 {
        return None;
    }
    let title: String = match &report.kept {
        Some(kept) => format1(bundle, "MultiVersionDisabledTitle", kept.as_str()),
        None => get(bundle, "MultiVersionDisabledNoneTitle"),
    };
    let bytes: String = human_bytes(report.retained_bytes);
    let message: String = if report.retained.len() == 1 {
        format1(bundle, "MultiVersionDisabledMessageOne", bytes.as_str())
    } else {
        let count: String = text_of(&to_decimal(report.retained.len() as u128));
        format2(bundle, "MultiVersionDisabledMessage", count.as_str(), bytes.as_str())
    };
    Some(Notice { title, message })
}

// ---------------------------------------------------------------------------
// The window
// ---------------------------------------------------------------------------

/// The name of an original game. Not in the string table: a translation of
/// "RollerCoaster Tycoon 2" would be a mistranslation.
pub fn title_of(game: OriginalGame) -> (r: &'static str)
    ensures
        r@ == match game {
            OriginalGame::RollerCoasterTycoon1 => "RollerCoaster Tycoon"@,
            OriginalGame::RollerCoasterTycoon2 => "RollerCoaster Tycoon 2"@,
            OriginalGame::Locomotion => "Chris Sawyer's Locomotion"@,
        },
{
    match game {
        OriginalGame::RollerCoasterTycoon1 => "RollerCoaster Tycoon",
        OriginalGame::RollerCoasterTycoon2 => "RollerCoaster Tycoon 2",
        OriginalGame::Locomotion => "Chris Sawyer's Locomotion",
    }
}

/// Whether a game's data is extra content rather than something the reimplementation
/// cannot start without. Only RollerCoaster Tycoon 1 is: OpenRCT2 runs without it and
/// gains its scenarios and objects when it is there.
pub fn optional(game: OriginalGame) -> (r: bool)
    ensures
        r == (game == OriginalGame::RollerCoasterTycoon1),
{
    match game {
        OriginalGame::RollerCoasterTycoon1 => true,
        _ => false,
    }
}

/// A checkbox.
#[derive(Debug, Clone, Copy, PartialEq, Eq, Structural)]
pub struct Check {
    pub on: bool,
    pub enabled: bool,
}

/// The progress bar.
#[derive(Debug, Clone, Copy, PartialEq, Eq, Structural)]
pub enum Bar {
    Hidden,
    Indeterminate,
    At(Fraction),
}

/// A popup: its entries, the one selected, and whether it can be used.
#[derive(Debug, PartialEq, Eq)]
pub struct Popup {
    pub entries: Vec<String>,
    /// The entry to select, where there are any.
    pub selected: Option<usize>,
    pub enabled: bool,
}

/// What a popup shows.
#[verifier::ext_equal]
pub struct PopupView {
    pub entries: Seq<Seq<char>>,
    pub selected: Option<usize>,
    pub enabled: bool,
}

impl View for Popup {
    type V = PopupView;

    open spec fn view(&self) -> PopupView {
        PopupView {
            entries: text::views(self.entries@),
            selected: self.selected,
            enabled: self.enabled,
        }
    }
}

/// What is shown of one original game's data.
#[derive(Debug, PartialEq, Eq)]
pub struct DataRow {
    pub path: String,
    pub button: String,
    pub enabled: bool,
}

/// What is shown of one original game's data.
pub struct DataRowView {
    pub path: Seq<char>,
    pub button: Seq<char>,
    pub enabled: bool,
}

impl View for DataRow {
    type V = DataRowView;

    open spec fn view(&self) -> DataRowView {
        DataRowView { path: self.path@, button: self.button@, enabled: self.enabled }
    }
}

/// Everything that is shown.
#[derive(Debug, PartialEq, Eq)]
pub struct Screen {
    pub title: String,
    /// The row of the sidebar that is selected.
    pub row: usize,
    pub installed: Popup,
    pub play_enabled: bool,
    /// Hidden rather than disabled where it can never become usable.
    pub remove_hidden: bool,
    pub remove_enabled: bool,
    pub releases: Popup,
    pub download_enabled: bool,
    pub download_title: String,
    pub progress: Bar,
    pub develop: Check,
    pub auto_update: Check,
    pub multi_version: Check,
    pub check_for_updates: Check,
    /// One row per original game, in the order of `OriginalGame::ALL`; `None` is hidden.
    pub game_data: [Option<DataRow>; 3],
    pub install_root: String,
    /// What the banner about a newer launcher says; `None` is hidden.
    pub update: Option<String>,
    /// What the banner about an error says; `None` is hidden.
    pub alert: Option<Notice>,
}

/// How an installed build is listed.
pub open spec fn build_label(
    words: Words,
    active: Option<InstalledView>,
    build: InstalledView,
) -> Seq<char> {
    match active {
        Some(current) => if current.name == build.name {
            strings::formatted(strings::localized(words, "ActiveVersion"@), seq![build.tag])
        } else {
            build.tag
        },
        None => build.tag,
    }
}

/// How installed builds are listed.
pub open spec fn build_labels(
    words: Words,
    active: Option<InstalledView>,
    builds: Seq<InstalledView>,
) -> Seq<Seq<char>> {
    Seq::new(builds.len(), |i: int| build_label(words, active, builds[i]))
}

/// How a release is listed.
pub open spec fn row_label(words: Words, row: RowView) -> Seq<char> {
    match row.age {
        Some(age) => strings::formatted(
            strings::localized(words, "BuildListing"@),
            seq![row.tag, strings::age_text(words, age)],
        ),
        None => row.tag,
    }
}

/// How releases are listed.
pub open spec fn row_labels(words: Words, rows: Seq<RowView>) -> Seq<Seq<char>> {
    Seq::new(rows.len(), |i: int| row_label(words, rows[i]))
}

/// A popup with these entries.
pub open spec fn popup(entries: Seq<Seq<char>>, selected: usize, usable: bool) -> PopupView {
    PopupView {
        entries,
        selected: if entries.len() > 0 {
            Some(selected)
        } else {
            None
        },
        enabled: usable && entries.len() > 0,
    }
}

/// The progress bar for what is going on.
pub open spec fn bar(busy: Option<Busy>) -> Bar {
    match busy {
        Some(busy) => match busy.value {
            Some(fraction) => Bar::At(fraction),
            None => Bar::Indeterminate,
        },
        None => Bar::Hidden,
    }
}

/// What the download button says. It says what is happening only while something is
/// actually reporting a phase, rather than claiming a download that is not running.
pub open spec fn button_text(words: Words, busy: Option<Busy>) -> Seq<char> {
    match busy {
        Some(busy) => match busy.status {
            Some(status) => strings::status_text(words, status),
            None => strings::localized(words, "Download"@),
        },
        None => strings::localized(words, "Download"@),
    }
}

/// What is said where a game's data is not installed. Optional data says so: "not
/// installed" next to a game that will not start without it means something different.
pub open spec fn missing_text(words: Words, game: OriginalGame) -> Seq<char> {
    let plain = strings::localized(words, "GameDataNotInstalled"@);
    if game == OriginalGame::RollerCoasterTycoon1 {
        plain + " ("@ + strings::localized(words, "GameDataOptional"@) + ")"@
    } else {
        plain
    }
}

/// What is shown of a game's data, where the selected game is the one that reads it.
/// Showing any other row would offer an install that the game in front of somebody
/// cannot use.
pub open spec fn data_row(words: Words, state: StateView, game: OriginalGame) -> Option<
    DataRowView,
> {
    if game.reader() == state.selected_game {
        Some(
            match state.game_data[game.place()] {
                Some(path) => DataRowView {
                    path,
                    button: strings::localized(words, "ReinstallGameData"@),
                    enabled: !state.is_busy(),
                },
                None => DataRowView {
                    path: missing_text(words, game),
                    button: strings::localized(words, "InstallGameData"@),
                    enabled: !state.is_busy(),
                },
            },
        )
    } else {
        None
    }
}

/// What an error says. A title may take an argument, and a message may name a key where
/// it is not a worker's own words.
pub open spec fn alert_text(words: Words, alert: AlertView) -> NoticeView {
    NoticeView {
        title: match alert.title_arg {
            Some(arg) => strings::formatted(strings::localized(words, alert.title), seq![arg]),
            None => strings::localized(words, alert.title),
        },
        message: if alert.message_is_key {
            strings::localized(words, alert.message)
        } else {
            alert.message
        },
    }
}

fn build_entries(bundle: &Bundle, state: &UiState) -> (out: Vec<String>)
    ensures
        text::views(out@) == build_labels(
            bundle@,
            state@.active_build(),
            state@.installed,
        ),
{
    let ghost all = state@.installed;
    let ghost current = state@.active_build();
    let active: Option<&Installed> = state.active_entry();
    let mut out: Vec<String> = Vec::new();
    let mut i: usize = 0;
    assert(text::views(out@) =~= build_labels(bundle@, current, all.take(0)));
    while i < state.installed.len()
        invariant
            i <= state.installed@.len(),
            all == store::builds(state.installed@),
            active is Some <==> current is Some,
            active matches Some(entry) ==> current == Some(entry@),
            text::views(out@) == build_labels(bundle@, current, all.take(i as int)),
        decreases state.installed@.len() - i,
    {
        let entry: &Installed = &state.installed[i];
        let is_active: bool = match active {
            Some(current) => same(current.name.as_str(), entry.name.as_str()),
            None => false,
        };
        let label: String = if is_active {
            format1(bundle, "ActiveVersion", entry.tag.as_str())
        } else {
            entry.tag.clone()
        };
        let ghost before = text::views(out@);
        out.push(label);
        assert(text::views(out@) =~= before.push(label@));
        assert(build_labels(bundle@, current, all.take(i as int + 1)) =~= build_labels(
            bundle@,
            current,
            all.take(i as int),
        ).push(build_label(bundle@, current, all[i as int])));
        i += 1;
    }
    assert(all.take(i as int) =~= all);
    out
}

fn row_entries(bundle: &Bundle, rows: &Vec<ReleaseRow>) -> (out: Vec<String>)
    ensures
        text::views(out@) == row_labels(bundle@, crate::state::rows(rows@)),
{
    let ghost all = crate::state::rows(rows@);
    let mut out: Vec<String> = Vec::new();
    let mut i: usize = 0;
    assert(text::views(out@) =~= row_labels(bundle@, all.take(0)));
    while i < rows.len()
        invariant
            i <= rows@.len(),
            all == crate::state::rows(rows@),
            text::views(out@) == row_labels(bundle@, all.take(i as int)),
        decreases rows@.len() - i,
    {
        let row: &ReleaseRow = &rows[i];
        let label: String = match row.age {
            Some(age) => format2(
                bundle,
                "BuildListing",
                row.tag.as_str(),
                strings::age(bundle, age).as_str(),
            ),
            None => row.tag.clone(),
        };
        let ghost before = text::views(out@);
        out.push(label);
        assert(text::views(out@) =~= before.push(label@));
        assert(row_labels(bundle@, all.take(i as int + 1)) =~= row_labels(
            bundle@,
            all.take(i as int),
        ).push(row_label(bundle@, all[i as int])));
        i += 1;
    }
    assert(all.take(i as int) =~= all);
    out
}

fn make_popup(entries: Vec<String>, selected: usize, usable: bool) -> (p: Popup)
    ensures
        p@ == popup(text::views(entries@), selected, usable),
{
    let any: bool = entries.len() > 0;
    Popup {
        entries,
        selected: if any {
            Some(selected)
        } else {
            None
        },
        enabled: usable && any,
    }
}

fn make_data_row(bundle: &Bundle, state: &UiState, game: OriginalGame) -> (r: Option<DataRow>)
    ensures
        crate::state::maybe(r) == data_row(bundle@, state@, game),
{
    if game.configured_in() != state.selected_game {
        return None;
    }
    let enabled: bool = !state.is_busy();
    match state.game_data(game) {
        Some(path) => Some(
            DataRow { path: path.clone(), button: get(bundle, "ReinstallGameData"), enabled },
        ),
        None => {
            let plain: String = get(bundle, "GameDataNotInstalled");
            let path: String = if optional(game) {
                let open: String = joined(plain.as_str(), " (");
                let word: String = joined(open.as_str(), get(bundle, "GameDataOptional").as_str());
                joined(word.as_str(), ")")
            } else {
                plain
            };
            Some(DataRow { path, button: get(bundle, "InstallGameData"), enabled })
        },
    }
}

fn make_alert(bundle: &Bundle, alert: &Alert) -> (n: Notice)
    ensures
        n@ == alert_text(bundle@, alert@),
{
    let title: String = match &alert.title_arg {
        Some(arg) => format1(bundle, alert.title.as_str(), arg.as_str()),
        None => get(bundle, alert.title.as_str()),
    };
    let message: String = if alert.message_is_key {
        get(bundle, alert.message.as_str())
    } else {
        alert.message.clone()
    };
    Notice { title, message }
}

/// What every control shows for a state.
pub fn apply(state: &UiState, bundle: &Bundle) -> (s: Screen)
    ensures
        s.title@ == state@.selected_game.title(),
        s.row == row_of(state@.selected_game),
        s.installed@ == popup(
            build_labels(bundle@, state@.active_build(), state@.installed),
            state@.selected_installed,
            !state@.is_busy(),
        ),
        s.play_enabled == state@.can_play(),
        s.remove_hidden == !state@.multi_version,
        s.remove_enabled == state@.can_remove(),
        s.releases@ == popup(
            row_labels(bundle@, state@.releases),
            state@.selected_release,
            state@.can_choose(),
        ),
        s.download_enabled == state@.can_download(),
        s.download_title@ == button_text(bundle@, state@.busy),
        s.progress == bar(state@.busy),
        s.develop == (Check { on: state@.show_develop, enabled: !state@.is_busy() }),
        s.auto_update == (Check { on: state@.auto_updates(), enabled: !state@.is_busy() }),
        s.multi_version == (Check { on: state@.multi_version, enabled: !state@.is_busy() }),
        s.check_for_updates == (Check { on: state@.check_for_updates, enabled: true }),
        forall|game: OriginalGame|
            crate::state::maybe(s.game_data@[#[trigger] game.place()]) == data_row(
                bundle@,
                state@,
                game,
            ),
        s.install_root@ == match state@.install_root {
            Some(root) => root,
            None => strings::localized(bundle@, "DefaultDirectory"@),
        },
        text::opt_view(s.update) == match state@.update {
            Some(update) => Some(
                strings::formatted(
                    strings::localized(bundle@, "UpdateAvailable"@),
                    seq![update.version],
                ),
            ),
            None => None,
        },
        crate::state::maybe(s.alert) == match state@.error {
            Some(alert) => Some(alert_text(bundle@, alert)),
            None => None,
        },
{
    let idle: bool = !state.is_busy();
    let row: usize = match row_for_game(state.selected_game) {
        Some(row) => row,
        None => 0,
    };
    let progress: Bar = match state.busy {
        Some(busy) => match busy.value {
            Some(fraction) => Bar::At(fraction),
            None => Bar::Indeterminate,
        },
        None => Bar::Hidden,
    };
    let download_title: String = match state.busy {
        Some(busy) => match busy.status {
            Some(status) => strings::status(bundle, status),
            None => get(bundle, "Download"),
        },
        None => get(bundle, "Download"),
    };
    let install_root: String = match &state.install_root {
        Some(root) => root.clone(),
        None => get(bundle, "DefaultDirectory"),
    };
    let update: Option<String> = match &state.update {
        Some(update) => Some(format1(bundle, "UpdateAvailable", update.version.as_str())),
        None => None,
    };
    let alert: Option<Notice> = match &state.error {
        Some(alert) => Some(make_alert(bundle, alert)),
        None => None,
    };
    Screen {
        title: state.selected_game.display_name().to_owned(),
        row,
        installed: make_popup(build_entries(bundle, state), state.selected_installed, idle),
        play_enabled: state.play_enabled(),
        remove_hidden: !state.multi_version,
        remove_enabled: state.remove_enabled(),
        releases: make_popup(
            row_entries(bundle, &state.releases),
            state.selected_release,
            state.popup_enabled(),
        ),
        download_enabled: state.download_enabled(),
        download_title,
        progress,
        develop: Check { on: state.show_develop, enabled: idle },
        auto_update: Check { on: state.auto_update(), enabled: idle },
        multi_version: Check { on: state.multi_version, enabled: idle },
        check_for_updates: Check { on: state.check_for_updates, enabled: true },
        game_data: [
            make_data_row(bundle, state, OriginalGame::RollerCoasterTycoon1),
            make_data_row(bundle, state, OriginalGame::RollerCoasterTycoon2),
            make_data_row(bundle, state, OriginalGame::Locomotion),
        ],
        install_root,
        update,
        alert,
    }
}

/// While something is running, nothing can be played, downloaded, removed or chosen.
pub proof fn nothing_can_be_used_while_busy(words: Words, state: StateView, game: OriginalGame)
    requires
        state.is_busy(),
    ensures
        !state.can_play(),
        !state.can_download(),
        !state.can_remove(),
        !popup(
            build_labels(words, state.active_build(), state.installed),
            state.selected_installed,
            !state.is_busy(),
        ).enabled,
        !popup(
            row_labels(words, state.releases),
            state.selected_release,
            state.can_choose(),
        ).enabled,
        bar(state.busy) != Bar::Hidden,
        data_row(words, state, game) matches Some(row) ==> !row.enabled,
{
}

/// Every row of the sidebar leads to its game and back.
pub proof fn rows_and_games_agree(game: GameId)
    ensures
        row_of(game) < ROWS@.len(),
        ROWS@[row_of(game) as int] == game,
        forall|row: usize| row < ROWS@.len() ==> row_of(#[trigger] ROWS@[row as int]) == row,
{
    assert(ROWS@[0] == GameId::OpenRCT2);
    assert(ROWS@[1] == GameId::OpenLoco);
}

/// A number is rounded to the nearest whole one, and halfway between two to the even one.
pub proof fn rounding_goes_to_the_nearest(n: nat, d: nat)
    requires
        d > 0,
    ensures
        2 * n <= 2 * (nearest(n, d) * d) + d,
        2 * (nearest(n, d) * d) <= 2 * n + d,
        2 * n == 2 * (nearest(n, d) * d) + d || 2 * (nearest(n, d) * d) == 2 * n + d ==> nearest(
            n,
            d,
        ) % 2 == 0,
{
    let q = n / d;
    let r = n % d;
    vstd::arithmetic::div_mod::lemma_fundamental_div_mod(n as int, d as int);
    assert(n == d * q + r);
    assert(q * d == d * q) by (nonlinear_arith);
    assert((q + 1) * d == d * q + d) by (nonlinear_arith);
    vstd::arithmetic::div_mod::lemma_mod_bound(n as int, d as int);
}

/// A size is said in bytes below a kilobyte, and else in the largest unit of which there is
/// at least one, to the nearest tenth.
pub proof fn sizes_are_said_in_tenths(bytes: u64)
    requires
        bytes < 0x20_0000_0000_0000,
    ensures
        bytes < 1024 ==> size_text(bytes) == text::decimal(bytes as nat) + " "@ + "bytes"@,
        1024 <= bytes < 1_048_576 ==> is_tenths_of(size_text(bytes), bytes as nat, 1024, "KB"@),
        1_048_576 <= bytes < 1_073_741_824 ==> is_tenths_of(
            size_text(bytes),
            bytes as nat,
            1_048_576,
            "MB"@,
        ),
        1_073_741_824 <= bytes ==> is_tenths_of(
            size_text(bytes),
            bytes as nat,
            1_073_741_824,
            "GB"@,
        ),
{
    small_sizes_are_exact(bytes);
    if bytes >= 1024 {
        let (unit, name) = unit_for(bytes as nat);
        let tenths = nearest(10 * bytes as nat, unit);
        rounding_goes_to_the_nearest(10 * bytes as nat, unit);
        assert(tenths * unit == unit * tenths) by (nonlinear_arith);
        assert(in_tenths(tenths, name) == size_text(bytes));
    }
}

/// A number of tenths, and a unit.
pub open spec fn in_tenths(tenths: nat, unit: Seq<char>) -> Seq<char> {
    text::decimal(tenths / 10) + "."@ + text::decimal(tenths % 10) + " "@ + unit
}

/// Whether a text says the number of tenths of `size` that is nearest to `bytes`.
pub open spec fn is_tenths_of(said: Seq<char>, bytes: nat, size: nat, unit: Seq<char>) -> bool {
    exists|tenths: nat|
        said == #[trigger] in_tenths(tenths, unit) && 2 * (10 * bytes) <= 2 * (tenths * size) + size
            && 2 * (tenths * size) <= 2 * (10 * bytes) + size
}

/// Sizes beyond what a double can hold exactly are those a double would give: twice the
/// size is held twice as coarsely.
pub proof fn large_sizes_are_held_more_coarsely(n: nat)
    ensures
        n < 0x20_0000_0000_0000 ==> spacing(n) == 1,
        n >= 0x10_0000_0000_0000 ==> spacing(2 * n) == 2 * spacing(n) && spacing(2 * n + 1) == 2
            * spacing(n),
{
    assert((2 * n) / 2 == n);
    assert((2 * n + 1) / 2 == n);
}

} // verus!
