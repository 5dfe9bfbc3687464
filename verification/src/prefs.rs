//! Settings that outlive the program, each under a key.

use vstd::prelude::*;

use crate::game::GameId;
use crate::state::{Pref, PrefView};
use crate::store::Mode;
use crate::text;
use crate::text::{chars_of, joined, parse_number, part, same, text_of, to_decimal, trim};
use crate::text_lemmas;

verus! {

broadcast use vstd::string::group_string_axioms;

pub const KEY_SHOW_DEVELOP: &'static str = "showDevelopmentVersions";

pub const KEY_CHECK_FOR_UPDATES: &'static str = "checkForUpdates";

pub const KEY_MULTI_VERSION: &'static str = "keepMultipleVersions";

pub const KEY_SELECTED_GAME: &'static str = "selectedGame";

pub const KEY_INSTALL_ROOT: &'static str = "gameDataDirectory";

/// The key under which it is kept whether a game updates itself.
pub open spec fn auto_update_name(game_key: Seq<char>) -> Seq<char> {
    "autoInstallUpdates."@ + game_key
}

/// `game_key` is always `GameId::key()`, never a display string.
pub fn auto_update_key(game_key: &str) -> (out: String)
    ensures
        out@ == auto_update_name(game_key@),
{
    joined("autoInstallUpdates.", game_key)
}

/// How versions are kept for a setting.
pub open spec fn mode_of(multi_version: bool) -> Mode {
    if multi_version {
        Mode::MultiVersion
    } else {
        Mode::Compatible
    }
}

/// How versions are kept for a setting.
pub fn mode_for(multi_version: bool) -> (m: Mode)
    ensures
        m == mode_of(multi_version),
{
    if multi_version {
        Mode::MultiVersion
    } else {
        Mode::Compatible
    }
}

/// One stored setting.
#[derive(Debug, PartialEq, Eq)]
pub enum Value {
    Flag(bool),
    Number(i64),
    Text(String),
}

/// What a stored setting is.
pub enum ValueView {
    Flag(bool),
    Number(int),
    Text(Seq<char>),
}

impl View for Value {
    type V = ValueView;

    open spec fn view(&self) -> ValueView {
        match *self {
            Value::Flag(b) => ValueView::Flag(b),
            Value::Number(n) => ValueView::Number(n as int),
            Value::Text(s) => ValueView::Text(s@),
        }
    }
}

impl Clone for Value {
    fn clone(&self) -> (r: Value)
        ensures
            r@ == self@,
    {
        match self {
            Value::Flag(b) => Value::Flag(*b),
            Value::Number(n) => Value::Number(*n),
            Value::Text(s) => Value::Text(s.clone()),
        }
    }
}

/// A key and what is to be stored under it. `None` is to remove what is there.
#[derive(Debug, PartialEq, Eq)]
pub struct Change {
    pub key: String,
    pub value: Option<Value>,
}

/// What is stored under each key, where a later entry replaces an earlier one.
pub open spec fn table(entries: Seq<(String, Value)>) -> Map<Seq<char>, ValueView>
    decreases entries.len(),
{
    if entries.len() == 0 {
        Map::empty()
    } else {
        table(entries.drop_last()).insert(entries.last().0@, entries.last().1@)
    }
}

/// The settings, as last read or written, and the name they are kept under.
#[derive(Debug, PartialEq, Eq)]
pub struct Prefs {
    entries: Vec<(String, Value)>,
    suite: String,
}

impl View for Prefs {
    type V = Map<Seq<char>, ValueView>;

    closed spec fn view(&self) -> Map<Seq<char>, ValueView> {
        table(self.entries@)
    }
}

/// What a flag reads as. A number is on unless it is zero, and a text is on where it is
/// `YES` or `1`. One that was never stored is off.
pub open spec fn flag(prefs: Map<Seq<char>, ValueView>, key: Seq<char>) -> bool {
    if prefs.dom().contains(key) {
        match prefs[key] {
            ValueView::Flag(b) => b,
            ValueView::Number(n) => n != 0,
            ValueView::Text(s) => s == "YES"@ || s == "1"@,
        }
    } else {
        false
    }
}

/// A text that is a whole number and nothing else, as far as sixty-four bits hold it.
pub open spec fn whole(s: Seq<char>) -> Option<int> {
    let negative = s.len() > 0 && s[0] == '-';
    let digits = if negative {
        s.drop_first()
    } else {
        s
    };
    let n = text::digits_value(digits);
    if digits.len() == 0 || !text::all_digits(digits) {
        None
    } else if negative {
        if n <= -(i64::MIN as int) {
            Some(-(n as int))
        } else {
            None
        }
    } else if n <= i64::MAX {
        Some(n as int)
    } else {
        None
    }
}

/// What a number reads as. A flag is one or zero, and a text is the number it writes out.
/// One that was never stored is zero. Nothing is said of a text that is no whole number.
pub open spec fn count(prefs: Map<Seq<char>, ValueView>, key: Seq<char>) -> Option<int> {
    if prefs.dom().contains(key) {
        match prefs[key] {
            ValueView::Flag(b) => if b {
                Some(1)
            } else {
                Some(0)
            },
            ValueView::Number(n) => Some(n),
            ValueView::Text(s) => whole(s),
        }
    } else {
        Some(0)
    }
}

/// A number as it is written out.
pub open spec fn written(n: int) -> Seq<char> {
    if n < 0 {
        "-"@ + text::decimal((-n) as nat)
    } else {
        text::decimal(n as nat)
    }
}

/// What a text reads as, where anything was stored. A number is written out, and a flag
/// is the number it stands for.
pub open spec fn words(prefs: Map<Seq<char>, ValueView>, key: Seq<char>) -> Option<Seq<char>> {
    if prefs.dom().contains(key) {
        match prefs[key] {
            ValueView::Flag(b) => Some(
                if b {
                    "1"@
                } else {
                    "0"@
                },
            ),
            ValueView::Number(n) => Some(written(n)),
            ValueView::Text(s) => Some(s),
        }
    } else {
        None
    }
}

/// Reads a whole number, if `s` is one.
fn read_whole(s: &str) -> (r: Option<i64>)
    ensures
        r is Some <==> whole(s@) is Some,
        r matches Some(n) ==> whole(s@) == Some(n as int),
{
    let all: Vec<char> = chars_of(s);
    let negative: bool = all.len() > 0 && all[0] == '-';
    let from: usize = if negative {
        1
    } else {
        0
    };
    let digits: Vec<char> = part(&all, from, all.len());
    assert(digits@ =~= if negative {
        s@.drop_first()
    } else {
        s@
    });
    // A plus sign is no part of what is read here.
    if digits.len() == 0 || digits[0] == '+' {
        assert(digits@.len() > 0 ==> !text::is_digit(digits@[0]));
        return None;
    }
    match parse_number(&digits) {
        None => None,
        Some(n) => if negative {
            if n <= 9_223_372_036_854_775_808 {
                Some((-(n as i128)) as i64)
            } else {
                None
            }
        } else if n <= i64::MAX as u64 {
            Some(n as i64)
        } else {
            None
        },
    }
}

/// Writes a number out.
fn write_out(n: i64) -> (out: String)
    ensures
        out@ == written(n as int),
{
    if n < 0 {
        let size: u128 = (-(n as i128)) as u128;
        joined("-", text_of(&to_decimal(size)).as_str())
    } else {
        text_of(&to_decimal(n as u128))
    }
}

/// Whether to look for a newer launcher: yes, unless it was said otherwise.
pub open spec fn checks_for_updates(prefs: Map<Seq<char>, ValueView>) -> bool {
    prefs.dom().contains(KEY_CHECK_FOR_UPDATES@) ==> flag(prefs, KEY_CHECK_FOR_UPDATES@)
}

/// Whether a game updates itself.
pub open spec fn updates_itself(prefs: Map<Seq<char>, ValueView>, game: GameId) -> bool {
    flag(prefs, auto_update_name(game.title()))
}

/// The game a stored key names, or the first one.
pub open spec fn chosen_game(prefs: Map<Seq<char>, ValueView>) -> GameId {
    match words(prefs, KEY_SELECTED_GAME@) {
        Some(key) => if key == GameId::OpenLoco.title() {
            GameId::OpenLoco
        } else {
            GameId::OpenRCT2
        },
        None => GameId::OpenRCT2,
    }
}

/// The directory game data is unpacked into, unless it is the default one.
pub open spec fn chosen_root(prefs: Map<Seq<char>, ValueView>) -> Option<Seq<char>> {
    match words(prefs, KEY_INSTALL_ROOT@) {
        Some(root) => if text::trimmed(root).len() > 0 {
            Some(root)
        } else {
            None
        },
        None => None,
    }
}

/// The key a preference is kept under.
pub open spec fn key_of(pref: PrefView, game: GameId) -> Seq<char> {
    match pref {
        PrefView::CheckForUpdates(_) => KEY_CHECK_FOR_UPDATES@,
        PrefView::ShowDevelop(_) => KEY_SHOW_DEVELOP@,
        PrefView::MultiVersion(_) => KEY_MULTI_VERSION@,
        PrefView::SelectedGame(_) => KEY_SELECTED_GAME@,
        PrefView::AutoUpdate(_) => auto_update_name(game.title()),
        PrefView::InstallRoot(_) => KEY_INSTALL_ROOT@,
    }
}

/// What is kept for a preference. The default directory is kept as the absence of an
/// answer, not as a second spelling of one.
pub open spec fn value_of(pref: PrefView) -> Option<ValueView> {
    match pref {
        PrefView::CheckForUpdates(v) => Some(ValueView::Flag(v)),
        PrefView::ShowDevelop(v) => Some(ValueView::Flag(v)),
        PrefView::MultiVersion(v) => Some(ValueView::Flag(v)),
        PrefView::SelectedGame(v) => Some(ValueView::Text(v.title())),
        PrefView::AutoUpdate(v) => Some(ValueView::Flag(v)),
        PrefView::InstallRoot(Some(root)) => Some(ValueView::Text(root)),
        PrefView::InstallRoot(None) => None,
    }
}

/// The settings after a value was stored, or removed.
pub open spec fn with(
    prefs: Map<Seq<char>, ValueView>,
    key: Seq<char>,
    value: Option<ValueView>,
) -> Map<Seq<char>, ValueView> {
    match value {
        Some(v) => prefs.insert(key, v),
        None => prefs.remove(key),
    }
}

/// The settings after a preference was saved.
pub open spec fn saved(
    prefs: Map<Seq<char>, ValueView>,
    pref: PrefView,
    game: GameId,
) -> Map<Seq<char>, ValueView> {
    with(prefs, key_of(pref, game), value_of(pref))
}

/// What saving a preference changes.
pub fn change_for(pref: Pref, game: GameId) -> (c: Change)
    ensures
        c.key@ == key_of(pref@, game),
        c.value is Some <==> value_of(pref@) is Some,
        c.value matches Some(v) ==> value_of(pref@) == Some(v@),
{
    match pref {
        Pref::CheckForUpdates(v) => Change {
            key: KEY_CHECK_FOR_UPDATES.to_owned(),
            value: Some(Value::Flag(v)),
        },
        Pref::ShowDevelop(v) => Change {
            key: KEY_SHOW_DEVELOP.to_owned(),
            value: Some(Value::Flag(v)),
        },
        Pref::MultiVersion(v) => Change {
            key: KEY_MULTI_VERSION.to_owned(),
            value: Some(Value::Flag(v)),
        },
        Pref::SelectedGame(v) => Change {
            key: KEY_SELECTED_GAME.to_owned(),
            value: Some(Value::Text(v.key().to_owned())),
        },
        Pref::AutoUpdate(v) => Change {
            key: auto_update_key(game.key()),
            value: Some(Value::Flag(v)),
        },
        Pref::InstallRoot(Some(path)) => Change {
            key: KEY_INSTALL_ROOT.to_owned(),
            value: Some(Value::Text(path)),
        },
        Pref::InstallRoot(None) => Change { key: KEY_INSTALL_ROOT.to_owned(), value: None },
    }
}

impl Default for Prefs {
    fn default() -> (p: Prefs)
        ensures
            p@ == Map::<Seq<char>, ValueView>::empty(),
            p.name() == "Turnstile"@,
    {
        Prefs::new()
    }
}

impl Prefs {
    /// The name the settings are kept under.
    pub closed spec fn name(&self) -> Seq<char> {
        self.suite@
    }

    /// The launcher's own settings, with nothing stored yet.
    pub fn new() -> (p: Prefs)
        ensures
            p@ == Map::<Seq<char>, ValueView>::empty(),
            p.name() == "Turnstile"@,
    {
        Prefs::with_suite("Turnstile")
    }

    /// Settings kept under `suite`, with nothing stored yet.
    pub fn with_suite(suite: &str) -> (p: Prefs)
        ensures
            p@ == Map::<Seq<char>, ValueView>::empty(),
            p.name() == suite@,
    {
        Prefs { entries: Vec::new(), suite: suite.to_owned() }
    }

    /// The name the settings are kept under.
    pub fn suite(&self) -> (s: &str)
        ensures
            s@ == self.name(),
    {
        self.suite.as_str()
    }

    fn stored(&self, key: &str) -> (r: Option<&Value>)
        ensures
            r is Some <==> self@.dom().contains(key@),
            r matches Some(v) ==> v@ == self@[key@],
    {
        let ghost all = self.entries@;
        let mut i: usize = self.entries.len();
        assert(all.take(i as int) =~= all);
        while i > 0
            invariant
                i <= self.entries.len(),
                all == self.entries@,
                table(all.take(i as int)).dom().contains(key@) == table(all).dom().contains(key@),
                table(all.take(i as int))[key@] == table(all)[key@],
            decreases i,
        {
            let ghost front = all.take(i as int);
            i -= 1;
            assert(front.drop_last() =~= all.take(i as int));
            if same(self.entries[i].0.as_str(), key) {
                return Some(&self.entries[i].1);
            }
        }
        None
    }

    /// Removes what is stored under a key.
    pub fn remove(&mut self, key: &str)
        ensures
            final(self)@ == old(self)@.remove(key@),
            final(self).name() == old(self).name(),
    {
        let ghost all = self.entries@;
        let mut kept: Vec<(String, Value)> = Vec::new();
        let mut i: usize = 0;
        assert(table(kept@) =~= table(all.take(0)).remove(key@));
        while i < self.entries.len()
            invariant
                i <= self.entries.len(),
                all == self.entries@,
                table(kept@) == table(all.take(i as int)).remove(key@),
            decreases self.entries.len() - i,
        {
            let ghost before = kept@;
            let ghost front = all.take(i as int + 1);
            assert(front.drop_last() =~= all.take(i as int));
            if !same(self.entries[i].0.as_str(), key) {
                kept.push((self.entries[i].0.clone(), self.entries[i].1.clone()));
                assert(kept@.drop_last() =~= before);
            }
            i += 1;
            assert(table(kept@) =~= table(front).remove(key@));
        }
        assert(all.take(i as int) =~= all);
        self.entries = kept;
    }

    /// Stores a value under a key.
    pub fn put(&mut self, key: &str, value: Value)
        ensures
            final(self)@ == old(self)@.insert(key@, value@),
            final(self).name() == old(self).name(),
    {
        let ghost all = self@;
        self.remove(key);
        let ghost before = self.entries@;
        self.entries.push((key.to_owned(), value));
        assert(self.entries@.drop_last() =~= before);
        assert(all.remove(key@).insert(key@, value@) =~= all.insert(key@, value@));
    }

    /// Removes everything that is stored.
    pub fn remove_all(&mut self)
        ensures
            final(self)@ == Map::<Seq<char>, ValueView>::empty(),
            final(self).name() == old(self).name(),
    {
        self.entries = Vec::new();
    }

    /// Whether a key is on.
    pub fn get_bool(&self, key: &str) -> (r: bool)
        ensures
            r == flag(self@, key@),
    {
        match self.stored(key) {
            Some(Value::Flag(b)) => *b,
            Some(Value::Number(n)) => *n != 0,
            Some(Value::Text(s)) => same(s.as_str(), "YES") || same(s.as_str(), "1"),
            None => false,
        }
    }

    /// Turns a key on or off.
    pub fn set_bool(&mut self, key: &str, value: bool)
        ensures
            final(self)@ == old(self)@.insert(key@, ValueView::Flag(value)),
            final(self).name() == old(self).name(),
    {
        self.put(key, Value::Flag(value))
    }

    /// The number under a key. What a text that is no whole number reads as is not said.
    pub fn get_int(&self, key: &str) -> (r: i64)
        ensures
            count(self@, key@) matches Some(n) ==> r == n,
    {
        match self.stored(key) {
            Some(Value::Flag(b)) => if *b {
                1
            } else {
                0
            },
            Some(Value::Number(n)) => *n,
            Some(Value::Text(s)) => match read_whole(s.as_str()) {
                Some(n) => n,
                None => 0,
            },
            None => 0,
        }
    }

    /// Stores a number under a key.
    pub fn set_int(&mut self, key: &str, value: i64)
        ensures
            final(self)@ == old(self)@.insert(key@, ValueView::Number(value as int)),
            final(self).name() == old(self).name(),
    {
        self.put(key, Value::Number(value))
    }

    /// The text under a key, where anything was stored.
    pub fn get_string(&self, key: &str) -> (r: Option<String>)
        ensures
            text::opt_view(r) == words(self@, key@),
    {
        match self.stored(key) {
            Some(Value::Flag(b)) => if *b {
                Some("1".to_owned())
            } else {
                Some("0".to_owned())
            },
            Some(Value::Number(n)) => Some(write_out(*n)),
            Some(Value::Text(s)) => Some(s.clone()),
            None => None,
        }
    }

    /// Stores a text under a key.
    pub fn set_string(&mut self, key: &str, value: &str)
        ensures
            final(self)@ == old(self)@.insert(key@, ValueView::Text(value@)),
            final(self).name() == old(self).name(),
    {
        self.put(key, Value::Text(value.to_owned()))
    }

    /// Defaults to true, which is why this cannot use `get_bool`: an absent key reads
    /// as false there, leaving the check off for everyone who has never opened
    /// Settings.
    pub fn check_for_updates(&self) -> (r: bool)
        ensures
            r == checks_for_updates(self@),
    {
        match self.stored(KEY_CHECK_FOR_UPDATES) {
            Some(_) => self.get_bool(KEY_CHECK_FOR_UPDATES),
            None => true,
        }
    }

    pub fn show_develop(&self) -> (r: bool)
        ensures
            r == flag(self@, KEY_SHOW_DEVELOP@),
    {
        self.get_bool(KEY_SHOW_DEVELOP)
    }

    pub fn multi_version(&self) -> (r: bool)
        ensures
            r == flag(self@, KEY_MULTI_VERSION@),
    {
        self.get_bool(KEY_MULTI_VERSION)
    }

    pub fn auto_update(&self, game: GameId) -> (r: bool)
        ensures
            r == updates_itself(self@, game),
    {
        self.get_bool(auto_update_key(game.key()).as_str())
    }

    /// Falls back to the first game when the stored key is absent or names a game this
    /// launcher does not have. Storing `GameId::key()` rather than an index is what
    /// makes that safe: an index would silently point at a different game the moment
    /// the list changes order.
    pub fn selected_game(&self) -> (game: GameId)
        ensures
            game == chosen_game(self@),
    {
        let found: Option<GameId> = match self.get_string(KEY_SELECTED_GAME) {
            Some(key) => GameId::from_key(key.as_str()),
            None => None,
        };
        match found {
            Some(game) => game,
            None => GameId::ALL[0],
        }
    }

    /// Where game data is unpacked, or `None` for the default. Absent and blank both
    /// mean the default: an empty string is what a hand-edited preference tends to end
    /// up as, and it is not a usable path.
    pub fn install_root(&self) -> (r: Option<String>)
        ensures
            text::opt_view(r) == chosen_root(self@),
    {
        match self.get_string(KEY_INSTALL_ROOT) {
            Some(root) => if trim(&chars_of(root.as_str())).len() > 0 {
                Some(root)
            } else {
                None
            },
            None => None,
        }
    }

    /// Stores or removes what a change says.
    pub fn apply(&mut self, change: Change)
        ensures
            change.value matches Some(v) ==> final(self)@ == old(self)@.insert(change.key@, v@),
            change.value is None ==> final(self)@ == old(self)@.remove(change.key@),
            final(self).name() == old(self).name(),
    {
        match change.value {
            Some(value) => self.put(change.key.as_str(), value),
            None => self.remove(change.key.as_str()),
        }
    }

    /// Saves a preference. Whether a game updates itself is kept for `game`; every
    /// other preference is one for all games.
    pub fn save(&mut self, pref: Pref, game: GameId)
        ensures
            final(self)@ == saved(old(self)@, pref@, game),
            final(self).name() == old(self).name(),
    {
        let change: Change = change_for(pref, game);
        self.apply(change);
    }
}

/// Every setting has a key of its own.
proof fn keys_differ(a: PrefView, for_a: GameId, b: PrefView, for_b: GameId)
    ensures
        key_of(a, for_a) == key_of(b, for_b) ==> same_setting(a, for_a, b, for_b),
{
    reveal_strlit("showDevelopmentVersions");
    reveal_strlit("checkForUpdates");
    reveal_strlit("keepMultipleVersions");
    reveal_strlit("selectedGame");
    reveal_strlit("gameDataDirectory");
    reveal_strlit("autoInstallUpdates.");
    reveal_strlit("OpenRCT2");
    reveal_strlit("OpenLoco");
    let one = key_of(a, for_a);
    let two = key_of(b, for_b);
    assert(KEY_SHOW_DEVELOP@[0] == 's' && KEY_SHOW_DEVELOP@[1] == 'h');
    assert(KEY_SELECTED_GAME@[0] == 's' && KEY_SELECTED_GAME@[1] == 'e');
    assert(KEY_CHECK_FOR_UPDATES@[0] == 'c');
    assert(KEY_MULTI_VERSION@[0] == 'k');
    assert(KEY_INSTALL_ROOT@[0] == 'g');
    assert(auto_update_name(for_a.title())[0] == 'a');
    assert(auto_update_name(for_b.title())[0] == 'a');
    assert(auto_update_name(for_a.title())[23] == for_a.title()[4]);
    assert(auto_update_name(for_b.title())[23] == for_b.title()[4]);
    assert(GameId::OpenRCT2.title()[4] == 'R' && GameId::OpenLoco.title()[4] == 'L');
    if one == two {
        assert(one[0] == two[0] && one[1] == two[1]);
        match (a, b) {
            (PrefView::AutoUpdate(_), PrefView::AutoUpdate(_)) => {
                assert(one[23] == two[23]);
                assert(for_a == for_b);
            },
            _ => {},
        }
    }
}

/// Whether two preferences are about the same setting.
pub open spec fn same_setting(a: PrefView, for_a: GameId, b: PrefView, for_b: GameId) -> bool {
    match (a, b) {
        (PrefView::CheckForUpdates(_), PrefView::CheckForUpdates(_)) => true,
        (PrefView::ShowDevelop(_), PrefView::ShowDevelop(_)) => true,
        (PrefView::MultiVersion(_), PrefView::MultiVersion(_)) => true,
        (PrefView::SelectedGame(_), PrefView::SelectedGame(_)) => true,
        (PrefView::InstallRoot(_), PrefView::InstallRoot(_)) => true,
        (PrefView::AutoUpdate(_), PrefView::AutoUpdate(_)) => for_a == for_b,
        _ => false,
    }
}

/// Whether the settings say what a preference says.
pub open spec fn says(prefs: Map<Seq<char>, ValueView>, pref: PrefView, game: GameId) -> bool {
    match pref {
        PrefView::CheckForUpdates(v) => checks_for_updates(prefs) == v,
        PrefView::ShowDevelop(v) => flag(prefs, KEY_SHOW_DEVELOP@) == v,
        PrefView::MultiVersion(v) => flag(prefs, KEY_MULTI_VERSION@) == v,
        PrefView::SelectedGame(v) => chosen_game(prefs) == v,
        PrefView::AutoUpdate(v) => updates_itself(prefs, game) == v,
        PrefView::InstallRoot(v) => chosen_root(prefs) == v,
    }
}

/// What was saved is read back. A directory with a blank name is left out: it reads as
/// the default one.
pub proof fn saved_is_read_back(prefs: Map<Seq<char>, ValueView>, pref: PrefView, game: GameId)
    requires
        pref matches PrefView::InstallRoot(Some(root)) ==> text::trimmed(root).len() > 0,
    ensures
        says(saved(prefs, pref, game), pref, game),
{
    reveal_strlit("OpenRCT2");
    reveal_strlit("OpenLoco");
    assert(GameId::OpenRCT2.title()[4] == 'R' && GameId::OpenLoco.title()[4] == 'L');
}

/// Saving one setting changes no other one. In particular, whether one game updates
/// itself does not depend on what was saved for another.
pub proof fn saving_keeps_the_rest(
    prefs: Map<Seq<char>, ValueView>,
    pref: PrefView,
    game: GameId,
    other: PrefView,
    for_other: GameId,
)
    requires
        !same_setting(pref, game, other, for_other),
    ensures
        says(saved(prefs, pref, game), other, for_other) == says(prefs, other, for_other),
{
    keys_differ(pref, game, other, for_other);
}

/// Where nothing was ever stored, updates are looked for, everything else is off, and
/// the first game is the one that is shown.
pub proof fn first_run(game: GameId)
    ensures
        ({
            let none = Map::<Seq<char>, ValueView>::empty();
            &&& checks_for_updates(none)
            &&& !flag(none, KEY_SHOW_DEVELOP@)
            &&& mode_of(flag(none, KEY_MULTI_VERSION@)) == Mode::Compatible
            &&& !updates_itself(none, game)
            &&& chosen_game(none) == GameId::OpenRCT2
            &&& chosen_root(none) is None
        }),
{
}

/// What is stored is read as what it is asked for as: a switch is on where it is stored as
/// on, as a number other than zero, or as `YES` or `1`; nothing stored is off, zero and no
/// text.
pub proof fn stored_values_are_read(
    prefs: Map<Seq<char>, ValueView>,
    key: Seq<char>,
    on: bool,
    n: int,
    s: Seq<char>,
)
    ensures
        flag(prefs.insert(key, ValueView::Flag(on)), key) == on,
        flag(prefs.insert(key, ValueView::Number(n)), key) == (n != 0),
        flag(prefs.insert(key, ValueView::Text(s)), key) == (s == "YES"@ || s == "1"@),
        flag(prefs.remove(key), key) == false,
        count(prefs.insert(key, ValueView::Flag(on)), key) == Some(
            if on {
                1int
            } else {
                0
            },
        ),
        count(prefs.insert(key, ValueView::Number(n)), key) == Some(n),
        count(prefs.remove(key), key) == Some(0int),
        i64::MIN <= n <= i64::MAX ==> count(prefs.insert(key, ValueView::Text(written(n))), key)
            == Some(n),
        words(prefs.insert(key, ValueView::Text(s)), key) == Some(s),
        words(prefs.insert(key, ValueView::Number(n)), key) == Some(written(n)),
        words(prefs.insert(key, ValueView::Flag(on)), key) == Some(
            if on {
                "1"@
            } else {
                "0"@
            },
        ),
        words(prefs.remove(key), key) is None,
        0 <= n ==> written(n) == text::decimal(n as nat),
        n < 0 ==> written(n) == seq!['-'] + text::decimal((-n) as nat),
{
    reveal_strlit("-");
    assert("-"@ =~= seq!['-']);
    if i64::MIN <= n <= i64::MAX {
        if n < 0 {
            let digits = text::decimal((-n) as nat);
            text_lemmas::decimal_is_read_back((-n) as nat);
            assert(written(n).drop_first() =~= digits);
            assert(written(n)[0] == '-');
        } else {
            let digits = text::decimal(n as nat);
            text_lemmas::decimal_is_read_back(n as nat);
            assert(text::is_digit(digits[0]));
        }
    }
}

/// Each setting is stored under a name of its own, as the kind of value it is.
pub proof fn settings_are_stored_by_name(
    prefs: Map<Seq<char>, ValueView>,
    game: GameId,
    chosen: GameId,
    on: bool,
    root: Seq<char>,
)
    ensures
        saved(prefs, PrefView::ShowDevelop(on), game) == prefs.insert(
            "showDevelopmentVersions"@,
            ValueView::Flag(on),
        ),
        saved(prefs, PrefView::CheckForUpdates(on), game) == prefs.insert(
            "checkForUpdates"@,
            ValueView::Flag(on),
        ),
        saved(prefs, PrefView::MultiVersion(on), game) == prefs.insert(
            "keepMultipleVersions"@,
            ValueView::Flag(on),
        ),
        saved(prefs, PrefView::SelectedGame(chosen), game) == prefs.insert(
            "selectedGame"@,
            ValueView::Text(
                match chosen {
                    GameId::OpenRCT2 => "OpenRCT2"@,
                    GameId::OpenLoco => "OpenLoco"@,
                },
            ),
        ),
        saved(prefs, PrefView::AutoUpdate(on), game) == prefs.insert(
            match game {
                GameId::OpenRCT2 => "autoInstallUpdates.OpenRCT2"@,
                GameId::OpenLoco => "autoInstallUpdates.OpenLoco"@,
            },
            ValueView::Flag(on),
        ),
        saved(prefs, PrefView::InstallRoot(Some(root)), game) == prefs.insert(
            "gameDataDirectory"@,
            ValueView::Text(root),
        ),
        saved(prefs, PrefView::InstallRoot(None), game) == prefs.remove("gameDataDirectory"@),
{
    reveal_strlit("autoInstallUpdates.");
    reveal_strlit("OpenRCT2");
    reveal_strlit("OpenLoco");
    reveal_strlit("autoInstallUpdates.OpenRCT2");
    reveal_strlit("autoInstallUpdates.OpenLoco");
    assert("autoInstallUpdates."@ + "OpenRCT2"@ =~= "autoInstallUpdates.OpenRCT2"@);
    assert("autoInstallUpdates."@ + "OpenLoco"@ =~= "autoInstallUpdates.OpenLoco"@);
}

/// What was chosen is read from what is stored: a game by its name, with OpenRCT2 for any
/// name that is not known; a directory unless its name is blank; and whether to look for
/// updates, which is on until it is switched off.
pub proof fn choices_are_read(prefs: Map<Seq<char>, ValueView>, s: Seq<char>)
    ensures
        chosen_game(prefs.insert("selectedGame"@, ValueView::Text(s))) == if s == "OpenLoco"@ {
            GameId::OpenLoco
        } else {
            GameId::OpenRCT2
        },
        chosen_game(prefs.remove("selectedGame"@)) == GameId::OpenRCT2,
        chosen_root(prefs.insert("gameDataDirectory"@, ValueView::Text(s))) == if text::trimmed(
            s,
        ).len() > 0 {
            Some(s)
        } else {
            None
        },
        chosen_root(prefs.remove("gameDataDirectory"@)) is None,
        checks_for_updates(prefs.remove("checkForUpdates"@)),
        prefs.dom().contains("checkForUpdates"@) ==> checks_for_updates(prefs) == flag(
            prefs,
            "checkForUpdates"@,
        ),
        mode_of(true) == Mode::MultiVersion,
        mode_of(false) == Mode::Compatible,
{
}

} // verus!
