//! Localized strings for the interface.
//!
//! Ages and statuses are enums elsewhere precisely so this module owns all grammar and
//! wording. `{0}`-style placeholders stand for arguments.

use vstd::prelude::*;

use crate::age::Age;
use crate::download::Status;
use crate::search;
use crate::text;
use crate::text::{chars_of, extend, replace, same, text_of, to_decimal};

verus! {

broadcast use vstd::string::group_string_axioms;

/// English fallbacks compiled into the program, for where there is no bundle with
/// translations around it. They are also the last line of defence where there is one: a
/// lookup that misses gives the *key itself*, which would put a raw identifier like
/// "StatusDownloading" in the interface.
pub const BUILTIN_EN: [(&'static str, &'static str); 62] = [
    ("InstalledLabel", "Installed:"),
    ("AvailableLabel", "Available:"),
    ("Unknown", "(Unknown)"),
    ("Play", "Play"),
    ("Download", "Download"),
    ("Remove", "Remove"),
    ("Cancel", "Cancel"),
    ("Update", "Update"),
    ("Dismiss", "Dismiss"),
    ("Settings", "Settings"),
    ("CheckForUpdates", "Check for updates on launch"),
    (
        "CheckForUpdatesDetail",
        "Asks GitHub whether a newer Turnstile has been released. Nothing is downloaded or installed.",
    ),
    ("UpdateAvailable", "Turnstile {0} is available."),
    ("GameData", "Game data"),
    ("GameDataNotInstalled", "Not installed"),
    ("GameDataOptional", "optional"),
    ("InstallGameData", "Install\u{2026}"),
    ("ChangeGameData", "Change\u{2026}"),
    ("ReinstallGameData", "Reinstall\u{2026}"),
    ("ChooseInstaller", "Choose the installer you downloaded from GOG."),
    ("ChooseInstallDirectory", "Choose where Turnstile unpacks game data."),
    ("Install", "Install"),
    ("Choose", "Choose"),
    ("FailedToInstallGameData", "Failed to install the game data"),
    (
        "UnrecognisedInstaller",
        "That installer does not hold RollerCoaster Tycoon 1 or 2, or Locomotion.",
    ),
    ("InstallDirectory", "Game data folder"),
    (
        "InstallDirectoryDetail",
        "Where the original games' data is unpacked. The games are pointed at it automatically.",
    ),
    ("UseDefault", "Use Default"),
    ("DefaultDirectory", "Default"),
    ("ShowDevelopmentVersions", "Show development versions"),
    ("AutoUpdateGame", "Automatically install updates"),
    ("KeepMultipleVersions", "Keep multiple versions installed"),
    (
        "KeepMultipleVersionsDetail",
        "Install several builds side by side and switch between them instantly. Changes how builds are stored on disk.",
    ),
    ("RemoveConfirmTitle", "Remove {0}?"),
    (
        "RemoveConfirmMessage",
        "This deletes the installed build from disk. Saved games, scenarios, and settings are not affected.",
    ),
    (
        "RemoveBusyMessage",
        "Other work was in progress, so nothing was removed. Try again once it has finished.",
    ),
    ("ActiveVersion", "{0} (active)"),
    ("MultiVersionDisabledTitle", "Now using {0}"),
    (
        "MultiVersionDisabledMessage",
        "{0} other versions are still on disk ({1}). Nothing was deleted. Turn this setting back on to use them again.",
    ),
    (
        "MultiVersionDisabledMessageOne",
        "1 other version is still on disk ({0}). Nothing was deleted. Turn this setting back on to use it again.",
    ),
    ("MultiVersionDisabledNoneTitle", "No version is in use"),
    ("BuildListing", "{0} (released {1})"),
    ("StatusDownloading", "Downloading\u{2026}"),
    ("StatusExtracting", "Extracting\u{2026}"),
    ("FailedToLaunchGame", "Failed to launch {0}"),
    ("FailedToSwitchVersion", "Failed to switch version"),
    ("FailedToRemoveVersion", "Failed to remove version"),
    ("FailedToReadInstalledVersions", "Failed to read installed versions"),
    ("FailedToRepairInstallation", "Failed to repair the installation"),
    ("FailedToObtainBuilds", "Failed to obtain builds"),
    ("FailedToChangeVersionMode", "Failed to change how versions are stored"),
    ("DownloadBuildFailedTitle", "Failed to download build"),
    ("Minute", "a minute ago"),
    ("Minutes", "{0} minutes ago"),
    ("Hour", "an hour ago"),
    ("Hours", "{0} hours ago"),
    ("Day", "a day ago"),
    ("Days", "{0} days ago"),
    ("Month", "a month ago"),
    ("Months", "{0} months ago"),
    ("Year", "a year ago"),
    ("Years", "{0} years ago"),
];

/// The keys the interface asks for.
pub const REQUIRED_KEYS: [&'static str; 62] = [
    "Update",
    "Dismiss",
    "Settings",
    "CheckForUpdates",
    "CheckForUpdatesDetail",
    "UpdateAvailable",
    "GameData",
    "GameDataNotInstalled",
    "GameDataOptional",
    "InstallGameData",
    "ChangeGameData",
    "ReinstallGameData",
    "ChooseInstaller",
    "ChooseInstallDirectory",
    "Install",
    "Choose",
    "FailedToInstallGameData",
    "UnrecognisedInstaller",
    "InstallDirectory",
    "InstallDirectoryDetail",
    "UseDefault",
    "DefaultDirectory",
    "InstalledLabel",
    "AvailableLabel",
    "Play",
    "Download",
    "Remove",
    "Cancel",
    "ShowDevelopmentVersions",
    "AutoUpdateGame",
    "KeepMultipleVersions",
    "KeepMultipleVersionsDetail",
    "RemoveConfirmTitle",
    "RemoveConfirmMessage",
    "RemoveBusyMessage",
    "ActiveVersion",
    "MultiVersionDisabledTitle",
    "MultiVersionDisabledMessage",
    "MultiVersionDisabledMessageOne",
    "MultiVersionDisabledNoneTitle",
    "BuildListing",
    "StatusDownloading",
    "StatusExtracting",
    "FailedToLaunchGame",
    "FailedToSwitchVersion",
    "FailedToRemoveVersion",
    "FailedToReadInstalledVersions",
    "FailedToRepairInstallation",
    "FailedToObtainBuilds",
    "FailedToChangeVersionMode",
    "DownloadBuildFailedTitle",
    "Unknown",
    "Minute",
    "Minutes",
    "Hour",
    "Hours",
    "Day",
    "Days",
    "Month",
    "Months",
    "Year",
    "Years",
];

/// Every key the interface asks for has an English fallback.
pub proof fn every_required_key_has_a_fallback(j: int)
    requires
        0 <= j < REQUIRED_KEYS@.len(),
    ensures
        builtin(REQUIRED_KEYS@[j]@) is Some,
{
    assert(BUILTIN_EN@[7].0@ == REQUIRED_KEYS@[0]@);
    assert(BUILTIN_EN@[8].0@ == REQUIRED_KEYS@[1]@);
    assert(BUILTIN_EN@[9].0@ == REQUIRED_KEYS@[2]@);
    assert(BUILTIN_EN@[10].0@ == REQUIRED_KEYS@[3]@);
    assert(BUILTIN_EN@[11].0@ == REQUIRED_KEYS@[4]@);
    assert(BUILTIN_EN@[12].0@ == REQUIRED_KEYS@[5]@);
    assert(BUILTIN_EN@[13].0@ == REQUIRED_KEYS@[6]@);
    assert(BUILTIN_EN@[14].0@ == REQUIRED_KEYS@[7]@);
    assert(BUILTIN_EN@[15].0@ == REQUIRED_KEYS@[8]@);
    assert(BUILTIN_EN@[16].0@ == REQUIRED_KEYS@[9]@);
    assert(BUILTIN_EN@[17].0@ == REQUIRED_KEYS@[10]@);
    assert(BUILTIN_EN@[18].0@ == REQUIRED_KEYS@[11]@);
    assert(BUILTIN_EN@[19].0@ == REQUIRED_KEYS@[12]@);
    assert(BUILTIN_EN@[20].0@ == REQUIRED_KEYS@[13]@);
    assert(BUILTIN_EN@[21].0@ == REQUIRED_KEYS@[14]@);
    assert(BUILTIN_EN@[22].0@ == REQUIRED_KEYS@[15]@);
    assert(BUILTIN_EN@[23].0@ == REQUIRED_KEYS@[16]@);
    assert(BUILTIN_EN@[24].0@ == REQUIRED_KEYS@[17]@);
    assert(BUILTIN_EN@[25].0@ == REQUIRED_KEYS@[18]@);
    assert(BUILTIN_EN@[26].0@ == REQUIRED_KEYS@[19]@);
    assert(BUILTIN_EN@[27].0@ == REQUIRED_KEYS@[20]@);
    assert(BUILTIN_EN@[28].0@ == REQUIRED_KEYS@[21]@);
    assert(BUILTIN_EN@[0].0@ == REQUIRED_KEYS@[22]@);
    assert(BUILTIN_EN@[1].0@ == REQUIRED_KEYS@[23]@);
    assert(BUILTIN_EN@[3].0@ == REQUIRED_KEYS@[24]@);
    assert(BUILTIN_EN@[4].0@ == REQUIRED_KEYS@[25]@);
    assert(BUILTIN_EN@[5].0@ == REQUIRED_KEYS@[26]@);
    assert(BUILTIN_EN@[6].0@ == REQUIRED_KEYS@[27]@);
    assert(BUILTIN_EN@[29].0@ == REQUIRED_KEYS@[28]@);
    assert(BUILTIN_EN@[30].0@ == REQUIRED_KEYS@[29]@);
    assert(BUILTIN_EN@[31].0@ == REQUIRED_KEYS@[30]@);
    assert(BUILTIN_EN@[32].0@ == REQUIRED_KEYS@[31]@);
    assert(BUILTIN_EN@[33].0@ == REQUIRED_KEYS@[32]@);
    assert(BUILTIN_EN@[34].0@ == REQUIRED_KEYS@[33]@);
    assert(BUILTIN_EN@[35].0@ == REQUIRED_KEYS@[34]@);
    assert(BUILTIN_EN@[36].0@ == REQUIRED_KEYS@[35]@);
    assert(BUILTIN_EN@[37].0@ == REQUIRED_KEYS@[36]@);
    assert(BUILTIN_EN@[38].0@ == REQUIRED_KEYS@[37]@);
    assert(BUILTIN_EN@[39].0@ == REQUIRED_KEYS@[38]@);
    assert(BUILTIN_EN@[40].0@ == REQUIRED_KEYS@[39]@);
    assert(BUILTIN_EN@[41].0@ == REQUIRED_KEYS@[40]@);
    assert(BUILTIN_EN@[42].0@ == REQUIRED_KEYS@[41]@);
    assert(BUILTIN_EN@[43].0@ == REQUIRED_KEYS@[42]@);
    assert(BUILTIN_EN@[44].0@ == REQUIRED_KEYS@[43]@);
    assert(BUILTIN_EN@[45].0@ == REQUIRED_KEYS@[44]@);
    assert(BUILTIN_EN@[46].0@ == REQUIRED_KEYS@[45]@);
    assert(BUILTIN_EN@[47].0@ == REQUIRED_KEYS@[46]@);
    assert(BUILTIN_EN@[48].0@ == REQUIRED_KEYS@[47]@);
    assert(BUILTIN_EN@[49].0@ == REQUIRED_KEYS@[48]@);
    assert(BUILTIN_EN@[50].0@ == REQUIRED_KEYS@[49]@);
    assert(BUILTIN_EN@[51].0@ == REQUIRED_KEYS@[50]@);
    assert(BUILTIN_EN@[2].0@ == REQUIRED_KEYS@[51]@);
    assert(BUILTIN_EN@[52].0@ == REQUIRED_KEYS@[52]@);
    assert(BUILTIN_EN@[53].0@ == REQUIRED_KEYS@[53]@);
    assert(BUILTIN_EN@[54].0@ == REQUIRED_KEYS@[54]@);
    assert(BUILTIN_EN@[55].0@ == REQUIRED_KEYS@[55]@);
    assert(BUILTIN_EN@[56].0@ == REQUIRED_KEYS@[56]@);
    assert(BUILTIN_EN@[57].0@ == REQUIRED_KEYS@[57]@);
    assert(BUILTIN_EN@[58].0@ == REQUIRED_KEYS@[58]@);
    assert(BUILTIN_EN@[59].0@ == REQUIRED_KEYS@[59]@);
    assert(BUILTIN_EN@[60].0@ == REQUIRED_KEYS@[60]@);
    assert(BUILTIN_EN@[61].0@ == REQUIRED_KEYS@[61]@);
    let key = REQUIRED_KEYS@[j]@;
    let i = choose|i: int| 0 <= i < BUILTIN_EN@.len() && #[trigger] BUILTIN_EN@[i].0@ == key;
    listed_keys_are_found(key, i);
}

/// Which places of the table are for a key.
pub open spec fn is_for(key: Seq<char>) -> spec_fn(int) -> bool {
    |i: int| BUILTIN_EN@[i].0@ == key
}

/// Where the fallback for a key is in the table, or how long the table is.
pub open spec fn builtin_index(key: Seq<char>) -> int {
    search::first_that(is_for(key), 0, BUILTIN_EN@.len() as int)
}

/// A key that is in the table is found there.
proof fn listed_keys_are_found(key: Seq<char>, at: int)
    requires
        0 <= at < BUILTIN_EN@.len(),
        BUILTIN_EN@[at].0@ == key,
    ensures
        builtin_index(key) < BUILTIN_EN@.len(),
{
    search::first_that_is_first(is_for(key), 0, BUILTIN_EN@.len() as int);
    assert(is_for(key)(at));
}

/// The English fallback for a key.
pub open spec fn builtin(key: Seq<char>) -> Option<Seq<char>> {
    let i = builtin_index(key);
    if i < BUILTIN_EN@.len() {
        Some(BUILTIN_EN@[i].1@)
    } else {
        None
    }
}

/// The translations that were found, each key with its text.
#[derive(Debug, PartialEq, Eq)]
pub struct Bundle {
    pub entries: Vec<(String, String)>,
}

impl View for Bundle {
    type V = Seq<(Seq<char>, Seq<char>)>;

    open spec fn view(&self) -> Seq<(Seq<char>, Seq<char>)> {
        Seq::new(self.entries@.len(), |i: int| (self.entries@[i].0@, self.entries@[i].1@))
    }
}

/// Which of the translations are for a text.
pub open spec fn translates(bundle: Seq<(Seq<char>, Seq<char>)>, key: Seq<char>) -> spec_fn(
    int,
) -> bool {
    |i: int| bundle[i].0 == key
}

/// What a bundle answers for a key: the key itself, where it has no text for it.
pub open spec fn answer(bundle: Seq<(Seq<char>, Seq<char>)>, key: Seq<char>) -> Seq<char> {
    let i = search::first_that(translates(bundle, key), 0, bundle.len() as int);
    if i < bundle.len() {
        bundle[i].1
    } else {
        key
    }
}

/// The text for a key: the bundle's, or else the English fallback, or else the key.
pub open spec fn localized(bundle: Seq<(Seq<char>, Seq<char>)>, key: Seq<char>) -> Seq<char> {
    if answer(bundle, key) != key {
        answer(bundle, key)
    } else {
        match builtin(key) {
            Some(s) => s,
            None => key,
        }
    }
}

/// The placeholder for the `i`th argument.
pub open spec fn placeholder(i: nat) -> Seq<char> {
    seq!['{'] + text::decimal(i) + seq!['}']
}

/// A template with its first `n` placeholders filled in, one after the other.
pub open spec fn substituted(template: Seq<char>, args: Seq<Seq<char>>, n: nat) -> Seq<char>
    decreases n,
{
    if n == 0 {
        template
    } else {
        text::replaced(
            substituted(template, args, (n - 1) as nat),
            placeholder((n - 1) as nat),
            args[n - 1],
        )
    }
}

/// A template with all of its placeholders filled in. One with no argument for it is
/// left in the text.
pub open spec fn formatted(template: Seq<char>, args: Seq<Seq<char>>) -> Seq<char> {
    substituted(template, args, args.len())
}

/// How an age is said.
pub open spec fn age_text(bundle: Seq<(Seq<char>, Seq<char>)>, age: Age) -> Seq<char> {
    match age {
        Age::Minute => localized(bundle, "Minute"@),
        Age::Minutes(n) => formatted(localized(bundle, "Minutes"@), seq![text::decimal(n as nat)]),
        Age::Hour => localized(bundle, "Hour"@),
        Age::Hours(n) => formatted(localized(bundle, "Hours"@), seq![text::decimal(n as nat)]),
        Age::Day => localized(bundle, "Day"@),
        Age::Days(n) => formatted(localized(bundle, "Days"@), seq![text::decimal(n as nat)]),
        Age::Month => localized(bundle, "Month"@),
        Age::Months(n) => formatted(localized(bundle, "Months"@), seq![text::decimal(n as nat)]),
        Age::Year => localized(bundle, "Year"@),
        Age::Years(n) => formatted(localized(bundle, "Years"@), seq![text::decimal(n as nat)]),
    }
}

/// How a status is said.
pub open spec fn status_text(bundle: Seq<(Seq<char>, Seq<char>)>, status: Status) -> Seq<char> {
    match status {
        Status::Downloading => localized(bundle, "StatusDownloading"@),
        Status::Extracting => localized(bundle, "StatusExtracting"@),
    }
}

impl Bundle {
    /// A bundle with no translations.
    pub fn empty() -> (b: Bundle)
        ensures
            b@ == Seq::<(Seq<char>, Seq<char>)>::empty(),
    {
        let b = Bundle { entries: Vec::new() };
        assert(b@ =~= Seq::empty());
        b
    }

    /// What the bundle answers for a key.
    fn answer(&self, key: &str) -> (out: String)
        ensures
            out@ == answer(self@, key@),
    {
        let ghost all = self@;
        let ghost p = |i: int| all[i].0 == key@;
        let mut i: usize = 0;
        while i < self.entries.len() && !same(self.entries[i].0.as_str(), key)
            invariant
                i <= self.entries.len(),
                all == self@,
                p == (|i: int| all[i].0 == key@),
                forall|j: int| 0 <= j < i ==> !#[trigger] p(j),
            decreases self.entries.len() - i,
        {
            i += 1;
        }
        proof {
            search::first_that_is(p, 0, all.len() as int, i as int);
        }
        if i < self.entries.len() {
            self.entries[i].1.clone()
        } else {
            key.to_owned()
        }
    }
}

/// The English fallback for a key.
pub fn fallback(key: &str) -> (r: Option<&'static str>)
    ensures
        r is Some <==> builtin(key@) is Some,
        r matches Some(s) ==> builtin(key@) == Some(s@),
{
    let ghost p = is_for(key@);
    let mut i: usize = 0;
    while i < BUILTIN_EN.len() && !same(BUILTIN_EN[i].0, key)
        invariant
            i <= BUILTIN_EN@.len(),
            p == is_for(key@),
            forall|j: int| 0 <= j < i ==> !#[trigger] p(j),
        decreases BUILTIN_EN@.len() - i,
    {
        assert(!p(i as int));
        i += 1;
    }
    proof {
        search::first_that_is(p, 0, BUILTIN_EN@.len() as int, i as int);
    }
    if i < BUILTIN_EN.len() {
        Some(BUILTIN_EN[i].1)
    } else {
        None
    }
}

/// Looks a key up in the bundle, falling back to the compiled-in English.
pub fn get(bundle: &Bundle, key: &str) -> (out: String)
    ensures
        out@ == localized(bundle@, key@),
{
    // A bundle answers with the key itself when nothing matches, which is how a miss is
    // detected.
    let found: String = bundle.answer(key);
    if !same(found.as_str(), key) {
        return found;
    }
    match fallback(key) {
        Some(s) => s.to_owned(),
        None => key.to_owned(),
    }
}

/// The views of some arguments.
pub open spec fn args_of(args: Seq<&str>) -> Seq<Seq<char>> {
    Seq::new(args.len(), |i: int| args[i]@)
}

/// Fills in `{0}`-style placeholders. An index with no corresponding argument is left in
/// the output rather than substituted with garbage.
pub fn substitute(template: &str, args: &[&str]) -> (out: String)
    ensures
        out@ == formatted(template@, args_of(args@)),
{
    let ghost all = args_of(args@);
    let mut out: Vec<char> = chars_of(template);
    let mut i: usize = 0;
    while i < args.len()
        invariant
            i <= args.len(),
            all == args_of(args@),
            out@ == substituted(template@, all, i as nat),
        decreases args.len() - i,
    {
        let mut needle: Vec<char> = Vec::new();
        needle.push('{');
        extend(&mut needle, &to_decimal(i as u128));
        needle.push('}');
        assert(needle@ =~= placeholder(i as nat));
        out = replace(&out, &needle, &chars_of(args[i]));
        i += 1;
    }
    text_of(&out)
}

/// The text for a key with one argument.
pub fn format1(bundle: &Bundle, key: &str, a: &str) -> (out: String)
    ensures
        out@ == formatted(localized(bundle@, key@), seq![a@]),
{
    let args: [&str; 1] = [a];
    assert(args_of(args@) =~= seq![a@]);
    substitute(get(bundle, key).as_str(), &args)
}

/// The text for a key with two arguments.
pub fn format2(bundle: &Bundle, key: &str, a: &str, b: &str) -> (out: String)
    ensures
        out@ == formatted(localized(bundle@, key@), seq![a@, b@]),
{
    let args: [&str; 2] = [a, b];
    assert(args_of(args@) =~= seq![a@, b@]);
    substitute(get(bundle, key).as_str(), &args)
}

fn counted(bundle: &Bundle, key: &str, n: u32) -> (out: String)
    ensures
        out@ == formatted(localized(bundle@, key@), seq![text::decimal(n as nat)]),
{
    format1(bundle, key, text_of(&to_decimal(n as u128)).as_str())
}

/// How an age is said.
pub fn age(bundle: &Bundle, value: Age) -> (out: String)
    ensures
        out@ == age_text(bundle@, value),
{
    match value {
        Age::Minute => get(bundle, "Minute"),
        Age::Minutes(n) => counted(bundle, "Minutes", n),
        Age::Hour => get(bundle, "Hour"),
        Age::Hours(n) => counted(bundle, "Hours", n),
        Age::Day => get(bundle, "Day"),
        Age::Days(n) => counted(bundle, "Days", n),
        Age::Month => get(bundle, "Month"),
        Age::Months(n) => counted(bundle, "Months", n),
        Age::Year => get(bundle, "Year"),
        Age::Years(n) => counted(bundle, "Years", n),
    }
}

/// How a status is said.
pub fn status(bundle: &Bundle, value: Status) -> (out: String)
    ensures
        out@ == status_text(bundle@, value),
{
    match value {
        Status::Downloading => get(bundle, "StatusDownloading"),
        Status::Extracting => get(bundle, "StatusExtracting"),
    }
}

/// A text in which something does not occur stays as it is when that is replaced.
proof fn nothing_to_replace(s: Seq<char>, needle: Seq<char>, with: Seq<char>)
    requires
        needle.len() > 0,
        !text::has(s, needle),
    ensures
        text::replaced(s, needle, with) == s,
    decreases s.len(),
{
    if s.len() > 0 {
        let rest = s.drop_first();
        if text::begins(s, needle) {
            assert(s.subrange(0, needle.len() as int) =~= s.take(needle.len() as int));
            assert(text::occurs_at(s, needle, 0));
        }
        if text::has(rest, needle) {
            let i = choose|i: int| text::occurs_at(rest, needle, i);
            assert(s.subrange(i + 1, i + 1 + needle.len()) =~= rest.subrange(
                i,
                i + needle.len(),
            ));
            assert(text::occurs_at(s, needle, i + 1));
        }
        nothing_to_replace(rest, needle, with);
        assert(seq![s[0]] + rest =~= s);
    }
}

/// A template without placeholders is not changed by arguments, and neither is one whose
/// placeholders are all beyond them.
pub proof fn templates_without_placeholders_stay(
    template: Seq<char>,
    args: Seq<Seq<char>>,
    n: nat,
)
    requires
        n <= args.len(),
        forall|i: nat| i < n ==> !text::has(template, #[trigger] placeholder(i)),
    ensures
        substituted(template, args, n) == template,
    decreases n,
{
    if n > 0 {
        templates_without_placeholders_stay(template, args, (n - 1) as nat);
        assert(!text::has(template, placeholder((n - 1) as nat)));
        nothing_to_replace(template, placeholder((n - 1) as nat), args[n - 1]);
    }
}

/// A key of the interface is never shown as it is, unless that is what it says: there is
/// a translation for it, or the English text.
pub proof fn required_keys_are_worded(bundle: Seq<(Seq<char>, Seq<char>)>, j: int)
    requires
        0 <= j < REQUIRED_KEYS@.len(),
    ensures
        localized(bundle, REQUIRED_KEYS@[j]@) == answer(bundle, REQUIRED_KEYS@[j]@) || Some(
            localized(bundle, REQUIRED_KEYS@[j]@),
        ) == builtin(REQUIRED_KEYS@[j]@),
{
    every_required_key_has_a_fallback(j);
}

/// A word goes where `{0}` stands, and a second one where `{1}` stands once the first is
/// in its place.
pub proof fn words_are_filled_in(template: Seq<char>, a: Seq<char>, b: Seq<char>)
    ensures
        formatted(template, seq![a]) == text::replaced(template, "{0}"@, a),
        formatted(template, seq![a, b]) == text::replaced(
            text::replaced(template, "{0}"@, a),
            "{1}"@,
            b,
        ),
{
    reveal_strlit("{0}");
    reveal_strlit("{1}");
    reveal_with_fuel(substituted, 3);
    reveal_with_fuel(text::decimal, 2);
    assert(placeholder(0) =~= "{0}"@);
    assert(placeholder(1) =~= "{1}"@);
    assert(seq![a][0] == a);
    assert(seq![a, b][0] == a && seq![a, b][1] == b);
    assert(substituted(template, seq![a], 1) == text::replaced(template, placeholder(0), a));
    assert(substituted(template, seq![a, b], 1) == text::replaced(template, placeholder(0), a));
}

/// A text is the first the translations have for it. Where they have none, or only its
/// name, it is the English one, and where there is none of that either it is its name.
pub proof fn texts_are_looked_up(bundle: Seq<(Seq<char>, Seq<char>)>, key: Seq<char>, at: int)
    ensures
        0 <= at < bundle.len() && bundle[at].0 == key && bundle[at].1 != key && (forall|j: int|
            0 <= j < at ==> (#[trigger] bundle[j]).0 != key) ==> localized(bundle, key)
            == bundle[at].1,
        (forall|j: int| 0 <= j < bundle.len() ==> (#[trigger] bundle[j]).0 != key) ==> localized(
            bundle,
            key,
        ) == match builtin(key) {
            Some(text) => text,
            None => key,
        },
        0 <= at < bundle.len() && bundle[at] == (key, key) && (forall|j: int|
            0 <= j < at ==> (#[trigger] bundle[j]).0 != key) ==> localized(bundle, key)
            == match builtin(key) {
            Some(text) => text,
            None => key,
        },
{
    let p = translates(bundle, key);
    search::first_that_is_first(p, 0, bundle.len() as int);
    let first = search::first_that(p, 0, bundle.len() as int);
    if first < bundle.len() {
        assert(p(first));
    }
    if 0 <= at < bundle.len() && bundle[at].0 == key {
        assert(p(at));
        if forall|j: int| 0 <= j < at ==> (#[trigger] bundle[j]).0 != key {
            search::first_that_is(p, 0, bundle.len() as int, at);
        }
    }
    assert(answer(bundle, key) == if first < bundle.len() {
        bundle[first].1
    } else {
        key
    });
}

/// The English texts are those of the table, each under its own name, and there are no
/// others.
pub proof fn english_texts_are_the_table(key: Seq<char>)
    ensures
        builtin(key) matches Some(text) ==> exists|i: int|
            0 <= i < BUILTIN_EN@.len() && #[trigger] BUILTIN_EN@[i].0@ == key && BUILTIN_EN@[i].1@
                == text,
        builtin(key) is None ==> forall|i: int|
            0 <= i < BUILTIN_EN@.len() ==> #[trigger] BUILTIN_EN@[i].0@ != key,
{
    search::first_that_is_first(is_for(key), 0, BUILTIN_EN@.len() as int);
    let at = builtin_index(key);
    if at < BUILTIN_EN@.len() {
        assert(is_for(key)(at));
    } else {
        assert forall|i: int| 0 <= i < BUILTIN_EN@.len() implies #[trigger] BUILTIN_EN@[i].0@
            != key by {
            assert(!is_for(key)(i));
        }
    }
}

/// One of a unit has a text of its own, and more of it are said by their number.
pub proof fn ages_are_worded(bundle: Seq<(Seq<char>, Seq<char>)>, n: u32)
    ensures
        age_text(bundle, Age::Minute) == localized(bundle, "Minute"@),
        age_text(bundle, Age::Hour) == localized(bundle, "Hour"@),
        age_text(bundle, Age::Day) == localized(bundle, "Day"@),
        age_text(bundle, Age::Month) == localized(bundle, "Month"@),
        age_text(bundle, Age::Year) == localized(bundle, "Year"@),
        age_text(bundle, Age::Minutes(n)) == text::replaced(
            localized(bundle, "Minutes"@),
            "{0}"@,
            text::decimal(n as nat),
        ),
        age_text(bundle, Age::Hours(n)) == text::replaced(
            localized(bundle, "Hours"@),
            "{0}"@,
            text::decimal(n as nat),
        ),
        age_text(bundle, Age::Days(n)) == text::replaced(
            localized(bundle, "Days"@),
            "{0}"@,
            text::decimal(n as nat),
        ),
        age_text(bundle, Age::Months(n)) == text::replaced(
            localized(bundle, "Months"@),
            "{0}"@,
            text::decimal(n as nat),
        ),
        age_text(bundle, Age::Years(n)) == text::replaced(
            localized(bundle, "Years"@),
            "{0}"@,
            text::decimal(n as nat),
        ),
        status_text(bundle, Status::Downloading) == localized(bundle, "StatusDownloading"@),
        status_text(bundle, Status::Extracting) == localized(bundle, "StatusExtracting"@),
{
    let d = text::decimal(n as nat);
    words_are_filled_in(localized(bundle, "Minutes"@), d, d);
    words_are_filled_in(localized(bundle, "Hours"@), d, d);
    words_are_filled_in(localized(bundle, "Days"@), d, d);
    words_are_filled_in(localized(bundle, "Months"@), d, d);
    words_are_filled_in(localized(bundle, "Years"@), d, d);
}

} // verus!
