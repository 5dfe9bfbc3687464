//! Installing the original games' data out of a GOG.com installer.
//!
//! OpenRCT2 and OpenLoco reimplement the game engines, not the games: both need the
//! graphics, sounds and scenarios from the original release before they will run at
//! all. The originals were never released for the Mac, so the data has to come out of
//! the Windows installer people already own.
//!
//! Those installers split every file into parts and record the real names in a script of
//! their own. This module decides which of the files belong in a game directory, puts
//! the parts of each together as they are read, and says where each goes.

use vstd::prelude::*;

use crate::disk::{place, Act, ActView, Folder, OnError, Place, Plan, PlanView, Spot};
use crate::download::{Fraction, Progress, Status};
use crate::error;
use crate::error::{CoreError, CoreErrorView};
use crate::path;
use crate::path::join;
use crate::text;
use crate::text::{
    chars_of, find_from, joined, lowercase, part, same, same_chars, text_of, to_decimal,
};
use crate::text_lemmas;

verus! {

broadcast use vstd::string::group_string_axioms;

/// An original game whose data one of the reimplementations needs.
///
/// There are three of these, while there are two games to install: RollerCoaster
/// Tycoon 1's data is extra content for OpenRCT2 rather than a game in its own right.
#[derive(Debug, Clone, Copy, PartialEq, Eq, PartialOrd, Ord, Structural)]
pub enum OriginalGame {
    RollerCoasterTycoon1,
    RollerCoasterTycoon2,
    Locomotion,
}

impl OriginalGame {
    pub const ALL: [OriginalGame; 3] = [
        OriginalGame::RollerCoasterTycoon1,
        OriginalGame::RollerCoasterTycoon2,
        OriginalGame::Locomotion,
    ];

    /// The game's position among all original games.
    pub open spec fn place(self) -> int {
        match self {
            OriginalGame::RollerCoasterTycoon1 => 0,
            OriginalGame::RollerCoasterTycoon2 => 1,
            OriginalGame::Locomotion => 2,
        }
    }

    /// The directory the game's data is installed into.
    pub open spec fn dir_name(self) -> Seq<char> {
        match self {
            OriginalGame::RollerCoasterTycoon1 => "rct1"@,
            OriginalGame::RollerCoasterTycoon2 => "rct2"@,
            OriginalGame::Locomotion => "locomotion"@,
        }
    }

    /// The executable that identifies an installer.
    pub open spec fn exe_name(self) -> Seq<char> {
        match self {
            OriginalGame::RollerCoasterTycoon1 => "RCT.EXE"@,
            OriginalGame::RollerCoasterTycoon2 => "RCT2.EXE"@,
            OriginalGame::Locomotion => "LOCO.EXE"@,
        }
    }

    /// The file a reimplementation looks for.
    pub open spec fn marker_name(self) -> Seq<char> {
        match self {
            OriginalGame::RollerCoasterTycoon1 => "Data/csg1.dat"@,
            OriginalGame::RollerCoasterTycoon2 => "Data/g1.dat"@,
            OriginalGame::Locomotion => "Data/g1.DAT"@,
        }
    }

    /// The directory this game's data is installed into, under whichever root is
    /// configured. Stable, because a game's configuration file points at it and renaming
    /// this would strand the install.
    pub fn directory(self) -> (r: &'static str)
        ensures
            r@ == self.dir_name(),
    {
        match self {
            OriginalGame::RollerCoasterTycoon1 => "rct1",
            OriginalGame::RollerCoasterTycoon2 => "rct2",
            OriginalGame::Locomotion => "locomotion",
        }
    }

    /// The executable that identifies an installer as holding this game. The data files
    /// cannot: RollerCoaster Tycoon 2's `Data/g1.dat` and Locomotion's `Data/g1.DAT` are
    /// the same name on a Mac.
    pub fn executable(self) -> (r: &'static str)
        ensures
            r@ == self.exe_name(),
    {
        match self {
            OriginalGame::RollerCoasterTycoon1 => "RCT.EXE",
            OriginalGame::RollerCoasterTycoon2 => "RCT2.EXE",
            OriginalGame::Locomotion => "LOCO.EXE",
        }
    }

    /// The file a reimplementation looks for to decide whether a directory really holds
    /// this game, checked after installing rather than reporting a success the game will
    /// reject.
    pub fn marker(self) -> (r: &'static str)
        ensures
            r@ == self.marker_name(),
    {
        match self {
            OriginalGame::RollerCoasterTycoon1 => "Data/csg1.dat",
            OriginalGame::RollerCoasterTycoon2 => "Data/g1.dat",
            OriginalGame::Locomotion => "Data/g1.DAT",
        }
    }
}

/// The file whose being there says that `directory` holds this game's data.
pub fn installed_at(game: OriginalGame, directory: &str) -> (out: String)
    ensures
        out@ == path::under(directory@, game.marker_name()),
{
    join(directory, game.marker())
}

// ---------------------------------------------------------------------------
// What an installer holds
// ---------------------------------------------------------------------------

/// A file an installer produces: where it goes, and which stored entries its parts are.
#[derive(Debug, PartialEq, Eq)]
pub struct InstallerFile {
    /// The directory constant the installer uses for it, if it uses one.
    pub root: Option<String>,
    pub path: String,
    /// The entries of the installer that hold the parts, in order.
    pub parts: Vec<usize>,
    /// Where the file stands in the installer's own list, by which it is found again.
    pub number: usize,
}

/// A file an installer produces.
pub struct FileView {
    pub root: Option<Seq<char>>,
    pub path: Seq<char>,
    pub parts: Seq<usize>,
    pub number: usize,
}

impl View for InstallerFile {
    type V = FileView;

    open spec fn view(&self) -> FileView {
        FileView {
            root: text::opt_view(self.root),
            path: self.path@,
            parts: self.parts@,
            number: self.number,
        }
    }
}

/// What each file is.
pub open spec fn files_of(v: Seq<InstallerFile>) -> Seq<FileView> {
    Seq::new(v.len(), |i: int| v[i]@)
}

/// Whether a file the installer produces belongs in the game directory.
///
/// An installer writes into several places, named by the directory constants it uses.
/// Files recovered from their parts carry no constant at all, and those are the bulk of
/// the game.
pub open spec fn belongs(file: FileView) -> bool {
    file.root is None || file.root == Some("app"@)
}

/// Whether an installer holds a game: one of its files for the game directory is the
/// game's executable, in whatever case.
pub open spec fn holds(files: Seq<FileView>, game: OriginalGame) -> bool {
    exists|i: int|
        0 <= i < files.len() && belongs(#[trigger] files[i]) && text::lowercased(files[i].path)
            == text::lowercased(game.exe_name())
}

fn is_install_file(file: &InstallerFile) -> (r: bool)
    ensures
        r == belongs(file@),
{
    match &file.root {
        None => true,
        Some(root) => same(root.as_str(), "app"),
    }
}

fn holds_game(files: &Vec<InstallerFile>, game: OriginalGame) -> (r: bool)
    ensures
        r == holds(files_of(files@), game),
{
    let ghost all = files_of(files@);
    let wanted: Vec<char> = lowercase(&chars_of(game.executable()));
    let mut i: usize = 0;
    while i < files.len()
        invariant
            i <= files.len(),
            all == files_of(files@),
            wanted@ == text::lowercased(game.exe_name()),
            forall|j: int|
                0 <= j < i ==> !(belongs(#[trigger] all[j]) && text::lowercased(all[j].path)
                    == text::lowercased(game.exe_name())),
        decreases files.len() - i,
    {
        let found: bool = is_install_file(&files[i]) && same_chars(
            &lowercase(&chars_of(files[i].path.as_str())),
            &wanted,
        );
        if found {
            assert(belongs(all[i as int]));
            return true;
        }
        i += 1;
    }
    false
}

/// Which game an installer holds, if it holds one.
pub open spec fn identified(files: Seq<FileView>) -> Option<OriginalGame> {
    if holds(files, OriginalGame::RollerCoasterTycoon1) {
        Some(OriginalGame::RollerCoasterTycoon1)
    } else if holds(files, OriginalGame::RollerCoasterTycoon2) {
        Some(OriginalGame::RollerCoasterTycoon2)
    } else if holds(files, OriginalGame::Locomotion) {
        Some(OriginalGame::Locomotion)
    } else {
        None
    }
}

/// Says which game's data an installer holds, going by the files it produces. `None` is
/// an installer this does not recognise, which is an ordinary thing for somebody to pick
/// by mistake.
pub fn identify(files: &Vec<InstallerFile>) -> (r: Option<OriginalGame>)
    ensures
        r == identified(files_of(files@)),
{
    if holds_game(files, OriginalGame::RollerCoasterTycoon1) {
        Some(OriginalGame::RollerCoasterTycoon1)
    } else if holds_game(files, OriginalGame::RollerCoasterTycoon2) {
        Some(OriginalGame::RollerCoasterTycoon2)
    } else if holds_game(files, OriginalGame::Locomotion) {
        Some(OriginalGame::Locomotion)
    } else {
        None
    }
}

/// What an installer stores could not be read.
pub fn broken(reason: &str) -> (e: CoreError)
    ensures
        e@ == CoreErrorView::ExtractionFailed("could not read the installer: "@ + reason@),
{
    CoreError::ExtractionFailed(joined("could not read the installer: ", reason))
}

/// An installer that could not be read.
pub fn unreadable(installer: &str, reason: &str) -> (e: CoreError)
    ensures
        e@ == CoreErrorView::ExtractionFailed(
            installer@ + " is not an installer this can read: "@ + reason@,
        ),
{
    let a: String = joined(installer, " is not an installer this can read: ");
    CoreError::ExtractionFailed(joined(a.as_str(), reason))
}

// ---------------------------------------------------------------------------
// Where a file goes
// ---------------------------------------------------------------------------

/// The names a path is made of: what stands between its slashes, without what is empty
/// or a dot.
pub open spec fn steps_of(s: Seq<char>) -> Seq<Seq<char>>
    decreases s.len(),
{
    let i = text::before_first(s, '/') as int;
    let head = s.take(i);
    let rest = if i < s.len() {
        steps_of(s.skip(i + 1))
    } else {
        seq![]
    };
    if head.len() == 0 || head == seq!['.'] {
        rest
    } else {
        seq![head] + rest
    }
}

/// Names put one under the other.
pub open spec fn descend(base: Seq<char>, names: Seq<Seq<char>>) -> Seq<char>
    decreases names.len(),
{
    if names.len() == 0 {
        base
    } else {
        path::under(descend(base, names.drop_last()), names.last())
    }
}

/// Whether a path has a part that leads up.
pub open spec fn leads_up(path: Seq<char>) -> bool {
    steps_of(path).contains(seq!['.', '.'])
}

/// Where the file `path` of an installer goes under `destination`. The paths come out of
/// the installer, so they are not to be trusted with a `..` or a leading separator.
pub open spec fn target_of(destination: Seq<char>, path: Seq<char>) -> Result<
    Seq<char>,
    CoreErrorView,
> {
    if leads_up(path) {
        Err(
            CoreErrorView::ExtractionFailed(
                "the installer names a file outside the game directory: "@ + path,
            ),
        )
    } else if steps_of(path).len() == 0 {
        Err(
            CoreErrorView::ExtractionFailed(
                "the installer names a file with no name: "@ + path,
            ),
        )
    } else {
        Ok(descend(destination, steps_of(path)))
    }
}

/// Where one extracted file goes, refusing any path that would leave the destination.
pub fn write_file(destination: &str, path: &str) -> (r: Result<String, CoreError>)
    ensures
        crate::github::text_outcome(r) == target_of(destination@, path@),
{
    let s: Vec<char> = chars_of(path);
    let ghost all = steps_of(s@);
    let mut target: String = destination.to_owned();
    let mut up: bool = false;
    let mut count: usize = 0;
    let mut at: usize = 0;
    let mut more: bool = true;
    let ghost mut done: Seq<Seq<char>> = seq![];
    proof {
        assert(s@.skip(0) =~= s@);
        assert(done + all =~= all);
        assert(descend(destination@, done) == destination@);
    }
    while more
        invariant
            at <= s.len(),
            all == steps_of(s@),
            s@ == path@,
            done + if more {
                steps_of(s@.skip(at as int))
            } else {
                seq![]
            } == all,
            up == done.contains(seq!['.', '.']),
            count == done.len(),
            count <= at,
            more ==> count <= at,
            target@ == descend(destination@, done),
        decreases s.len() - at + if more {
            1int
        } else {
            0
        },
    {
        let ghost rest = s@.skip(at as int);
        let end: usize = find_from(&s, '/', at);
        let head: Vec<char> = part(&s, at, end);
        let ghost after = if end < s@.len() {
            steps_of(s@.skip(end + 1))
        } else {
            seq![]
        };
        proof {
            assert(head@ =~= rest.take(end - at));
            if end < s@.len() {
                assert(rest.skip(end - at + 1) =~= s@.skip(end + 1));
            }
        }
        let dot: bool = head.len() == 1 && head[0] == '.';
        let dots: bool = head.len() == 2 && head[0] == '.' && head[1] == '.';
        proof {
            if dot {
                assert(head@ =~= seq!['.']);
            }
            if dots {
                assert(head@ =~= seq!['.', '.']);
            }
        }
        if head.len() > 0 && !dot {
            let name: String = text_of(&head);
            target = join(target.as_str(), name.as_str());
            proof {
                let grown = done.push(head@);
                assert(grown.drop_last() =~= done);
                assert(grown + after =~= done + (seq![head@] + after));
                assert(grown.contains(seq!['.', '.']) == (up || dots)) by {
                    if done.contains(seq!['.', '.']) {
                        let k = choose|k: int| 0 <= k < done.len() && done[k] == seq!['.', '.'];
                        assert(grown[k] == seq!['.', '.']);
                    }
                    if dots {
                        assert(grown[done.len() as int] == seq!['.', '.']);
                    }
                    if grown.contains(seq!['.', '.']) {
                        let k = choose|k: int| 0 <= k < grown.len() && grown[k] == seq!['.', '.'];
                        if k < done.len() {
                            assert(done[k] == seq!['.', '.']);
                        }
                    }
                }
                done = grown;
            }
            up = up || dots;
            count += 1;
        }
        if end < s.len() {
            at = end + 1;
        } else {
            at = s.len();
            more = false;
            assert(done + Seq::<Seq<char>>::empty() =~= done);
        }
    }
    assert(done =~= all);
    if up {
        return Err(
            CoreError::ExtractionFailed(
                joined("the installer names a file outside the game directory: ", path),
            ),
        );
    }
    if count == 0 {
        return Err(
            CoreError::ExtractionFailed(
                joined("the installer names a file with no name: ", path),
            ),
        );
    }
    Ok(target)
}

// ---------------------------------------------------------------------------
// Putting the parts together
// ---------------------------------------------------------------------------

/// The parts of one file, as far as they have been read.
pub type Slots = Seq<Option<Seq<u8>>>;

/// No part read yet.
pub open spec fn empty_slots(n: nat) -> Slots {
    Seq::new(n, |i: int| None)
}

/// Whether every part has been read.
pub open spec fn all_read(slots: Slots) -> bool {
    forall|i: int| 0 <= i < slots.len() ==> (#[trigger] slots[i]) is Some
}

/// The parts, once all have been read.
pub open spec fn parts_of(slots: Slots) -> Seq<Seq<u8>> {
    Seq::new(slots.len(), |i: int| slots[i]->0)
}

/// Where the entries of an installer are stored.
pub open spec fn stored_at(locations: Seq<u32>, entry: usize) -> Option<u32> {
    if entry < locations.len() {
        Some(locations[entry as int])
    } else {
        None
    }
}

/// A file of which every part has been read.
pub struct ReadyView {
    pub number: usize,
    pub path: Seq<char>,
    pub parts: Seq<Seq<u8>>,
}

/// What the bytes stored at `location` make of the parts of one file, looking at the
/// first `n` of them. One stored location can be the source of several parts. Once every
/// part is there the file is ready, and its parts are let go of.
pub open spec fn filled(
    file: FileView,
    slots: Slots,
    locations: Seq<u32>,
    location: u32,
    data: Seq<u8>,
    n: int,
) -> (Slots, Seq<ReadyView>)
    decreases n,
{
    if n <= 0 {
        (slots, seq![])
    } else {
        let (before, ready) = filled(file, slots, locations, location, data, n - 1);
        if stored_at(locations, file.parts[n - 1]) != Some(location) {
            (before, ready)
        } else {
            let now = before.update(n - 1, Some(data));
            if all_read(now) {
                (
                    empty_slots(file.parts.len()),
                    ready.push(ReadyView { number: file.number, path: file.path, parts: parts_of(now) }),
                )
            } else {
                (now, ready)
            }
        }
    }
}

/// Files being put together.
#[verifier::ext_equal]
pub struct UnpackingView {
    pub files: Seq<FileView>,
    pub locations: Seq<u32>,
    pub pending: Seq<Slots>,
    pub written: nat,
}

impl UnpackingView {
    /// Every file has a place for each of its parts.
    pub open spec fn is_proper(self) -> bool {
        &&& self.pending.len() == self.files.len()
        &&& forall|i: int|
            0 <= i < self.files.len() ==> (#[trigger] self.pending[i]).len()
                == self.files[i].parts.len()
    }

    /// The files that the bytes at `location` complete, looking at the first `n`.
    pub open spec fn completed(self, location: u32, data: Seq<u8>, n: int) -> Seq<ReadyView>
        decreases n,
    {
        if n <= 0 {
            seq![]
        } else {
            self.completed(location, data, n - 1) + filled(
                self.files[n - 1],
                self.pending[n - 1],
                self.locations,
                location,
                data,
                self.files[n - 1].parts.len() as int,
            ).1
        }
    }

    /// The parts read so far once the bytes at `location` are there.
    pub open spec fn received(self, location: u32, data: Seq<u8>) -> UnpackingView {
        UnpackingView {
            pending: Seq::new(
                self.pending.len(),
                |i: int|
                    filled(
                        self.files[i],
                        self.pending[i],
                        self.locations,
                        location,
                        data,
                        self.files[i].parts.len() as int,
                    ).0,
            ),
            ..self
        }
    }
}

/// Those of the files that belong in the game directory.
pub open spec fn belonging(files: Seq<FileView>) -> Seq<FileView>
    decreases files.len(),
{
    if files.len() == 0 {
        seq![]
    } else {
        let before = belonging(files.drop_last());
        if belongs(files.last()) {
            before.push(files.last())
        } else {
            before
        }
    }
}

/// A file of which every part has been read.
#[derive(Debug, PartialEq, Eq)]
pub struct Ready {
    /// The number the file was listed with.
    pub number: usize,
    pub path: String,
    pub parts: Vec<Vec<u8>>,
}

/// The bytes of each part.
pub open spec fn bytes_of(v: Seq<Vec<u8>>) -> Seq<Seq<u8>> {
    Seq::new(v.len(), |i: int| v[i]@)
}

impl View for Ready {
    type V = ReadyView;

    open spec fn view(&self) -> ReadyView {
        ReadyView { number: self.number, path: self.path@, parts: bytes_of(self.parts@) }
    }
}

/// What each ready file is.
pub open spec fn ready_of(v: Seq<Ready>) -> Seq<ReadyView> {
    Seq::new(v.len(), |i: int| v[i]@)
}

/// Files being put together out of what an installer stores.
#[derive(Debug)]
pub struct Unpacking {
    files: Vec<InstallerFile>,
    locations: Vec<u32>,
    pending: Vec<Vec<Option<Vec<u8>>>>,
    written: usize,
}

/// The parts of one file, as far as they have been read.
pub open spec fn slots_of(v: Seq<Option<Vec<u8>>>) -> Slots {
    Seq::new(
        v.len(),
        |i: int|
            match v[i] {
                Some(bytes) => Some(bytes@),
                None => None,
            },
    )
}

/// The parts of each file.
pub open spec fn pending_of(v: Seq<Vec<Option<Vec<u8>>>>) -> Seq<Slots> {
    Seq::new(v.len(), |i: int| slots_of(v[i]@))
}

impl View for Unpacking {
    type V = UnpackingView;

    closed spec fn view(&self) -> UnpackingView {
        UnpackingView {
            files: files_of(self.files@),
            locations: self.locations@,
            pending: pending_of(self.pending@),
            written: self.written as nat,
        }
    }
}

fn no_slots(n: usize) -> (out: Vec<Option<Vec<u8>>>)
    ensures
        slots_of(out@) == empty_slots(n as nat),
        out@.len() == n,
{
    let mut out: Vec<Option<Vec<u8>>> = Vec::new();
    let mut i: usize = 0;
    while i < n
        invariant
            i <= n,
            out@.len() == i,
            forall|j: int| 0 <= j < i ==> (#[trigger] out@[j]) is None,
        decreases n - i,
    {
        out.push(None);
        i += 1;
    }
    assert(slots_of(out@) =~= empty_slots(n as nat));
    out
}

fn copy_bytes(data: &Vec<u8>) -> (out: Vec<u8>)
    ensures
        out@ == data@,
{
    let mut out: Vec<u8> = Vec::new();
    let mut i: usize = 0;
    while i < data.len()
        invariant
            i <= data.len(),
            out@ == data@.take(i as int),
        decreases data.len() - i,
    {
        out.push(data[i]);
        i += 1;
    }
    assert(data@.take(i as int) =~= data@);
    out
}

fn is_complete(slots: &Vec<Option<Vec<u8>>>) -> (r: bool)
    ensures
        r == all_read(slots_of(slots@)),
{
    let ghost all = slots_of(slots@);
    let mut i: usize = 0;
    while i < slots.len()
        invariant
            i <= slots.len(),
            all == slots_of(slots@),
            forall|j: int| 0 <= j < i ==> (#[trigger] all[j]) is Some,
        decreases slots.len() - i,
    {
        if slots[i].is_none() {
            assert(all[i as int] is None);
            return false;
        }
        i += 1;
    }
    true
}

/// The parts, once all have been read.
fn take_parts(slots: Vec<Option<Vec<u8>>>) -> (out: Vec<Vec<u8>>)
    requires
        all_read(slots_of(slots@)),
    ensures
        bytes_of(out@) == parts_of(slots_of(slots@)),
{
    let ghost all = slots_of(slots@);
    let mut out: Vec<Vec<u8>> = Vec::new();
    let mut i: usize = 0;
    while i < slots.len()
        invariant
            i <= slots.len(),
            all == slots_of(slots@),
            all_read(all),
            out@.len() == i,
            forall|j: int| 0 <= j < i ==> (#[trigger] out@[j])@ == all[j]->0,
        decreases slots.len() - i,
    {
        assert(all[i as int] is Some);
        match &slots[i] {
            Some(bytes) => out.push(copy_bytes(bytes)),
            None => {},
        }
        i += 1;
    }
    assert(bytes_of(out@) =~= parts_of(all));
    out
}

fn location_of(locations: &Vec<u32>, entry: usize) -> (r: Option<u32>)
    ensures
        r == stored_at(locations@, entry),
{
    if entry < locations.len() {
        Some(locations[entry])
    } else {
        None
    }
}

/// Puts bytes into every part of a file that they are the source of.
fn fill(
    file: &InstallerFile,
    slots: Vec<Option<Vec<u8>>>,
    locations: &Vec<u32>,
    location: u32,
    data: &Vec<u8>,
    ready: &mut Vec<Ready>,
) -> (out: Vec<Option<Vec<u8>>>)
    requires
        slots@.len() == file@.parts.len(),
    ensures
        ({
            let (now, more) = filled(
                file@,
                slots_of(slots@),
                locations@,
                location,
                data@,
                file@.parts.len() as int,
            );
            &&& slots_of(out@) == now
            &&& out@.len() == slots@.len()
            &&& ready_of(final(ready)@) == ready_of(old(ready)@) + more
        }),
{
    let ghost start = slots_of(slots@);
    let ghost first = ready_of(ready@);
    let mut out: Vec<Option<Vec<u8>>> = slots;
    let n: usize = file.parts.len();
    let mut i: usize = 0;
    assert(first + Seq::<ReadyView>::empty() =~= first);
    while i < n
        invariant
            i <= n,
            n == file.parts@.len(),
            out@.len() == n,
            slots_of(out@) == filled(file@, start, locations@, location, data@, i as int).0,
            ready_of(ready@) == first + filled(
                file@,
                start,
                locations@,
                location,
                data@,
                i as int,
            ).1,
        decreases n - i,
    {
        let found: Option<u32> = location_of(locations, file.parts[i]);
        let ours: bool = match found {
            Some(l) => l == location,
            None => false,
        };
        let ghost before = slots_of(out@);
        let ghost sofar = ready_of(ready@);
        let ghost listed = filled(file@, start, locations@, location, data@, i as int).1;
        if ours {
            out.set(i, Some(copy_bytes(data)));
            assert(slots_of(out@) =~= before.update(i as int, Some(data@)));
            if is_complete(&out) {
                let ghost now = slots_of(out@);
                let parts: Vec<Vec<u8>> = take_parts(out);
                let item = Ready { number: file.number, path: file.path.clone(), parts };
                let ghost view = item@;
                ready.push(item);
                proof {
                    assert(ready_of(ready@) =~= sofar.push(view));
                    assert(view == (ReadyView {
                        number: file@.number,
                        path: file@.path,
                        parts: parts_of(now),
                    }));
                    assert((first + listed).push(view) =~= first + listed.push(view));
                }
                out = no_slots(n);
            }
        }
        i += 1;
    }
    out
}

impl Unpacking {
    /// Begins with the files an installer produces and where each of its entries is
    /// stored. An installer with no file for the game directory is an error.
    pub fn begin(files: Vec<InstallerFile>, locations: Vec<u32>) -> (r: Result<
        Unpacking,
        CoreError,
    >)
        ensures
            r is Err <==> belonging(files_of(files@)).len() == 0,
            r matches Err(e) ==> e@ == CoreErrorView::ExtractionFailed(
                "the installer holds no game files"@,
            ),
            r matches Ok(u) ==> u@.is_proper() && u@ == (UnpackingView {
                files: belonging(files_of(files@)),
                locations: locations@,
                pending: Seq::new(
                    belonging(files_of(files@)).len(),
                    |i: int| empty_slots(belonging(files_of(files@))[i].parts.len()),
                ),
                written: 0,
            }),
    {
        let ghost all = files_of(files@);
        let mut rest: Vec<InstallerFile> = files;
        let mut kept: Vec<InstallerFile> = Vec::new();
        let mut pending: Vec<Vec<Option<Vec<u8>>>> = Vec::new();
        let ghost mut done: int = 0;
        proof {
            assert(all.take(0) =~= seq![]);
            assert(all.skip(0) =~= all);
            assert(files_of(kept@) =~= seq![]);
        }
        while rest.len() > 0
            invariant
                0 <= done <= all.len(),
                files_of(rest@) == all.skip(done),
                files_of(kept@) == belonging(all.take(done)),
                pending@.len() == kept@.len(),
                forall|j: int|
                    0 <= j < pending@.len() ==> slots_of((#[trigger] pending@[j])@)
                        == empty_slots(kept@[j].parts@.len()),
            decreases rest.len(),
        {
            let ghost before = rest@;
            let file: InstallerFile = rest.remove(0);
            let ghost sofar = files_of(kept@);
            proof {
                assert(file@ == files_of(before)[0]);
                assert(files_of(rest@) =~= files_of(before).drop_first());
                assert(all.skip(done).drop_first() =~= all.skip(done + 1));
                assert(all.take(done + 1).drop_last() =~= all.take(done));
                assert(all.take(done + 1).last() == file@);
                done = done + 1;
            }
            if is_install_file(&file) {
                let ghost view = file@;
                pending.push(no_slots(file.parts.len()));
                kept.push(file);
                assert(files_of(kept@) =~= sofar.push(view));
            }
        }
        assert(all.take(done) =~= all);
        if kept.len() == 0 {
            return Err(
                CoreError::ExtractionFailed("the installer holds no game files".to_owned()),
            );
        }
        let u = Unpacking { files: kept, locations, pending, written: 0 };
        proof {
            let files = belonging(all);
            assert forall|i: int| 0 <= i < files.len() implies (#[trigger] u@.pending[i])
                == empty_slots(files[i].parts.len()) by {
                assert(slots_of(pending@[i]@) == empty_slots(kept@[i].parts@.len()));
                assert(files_of(kept@)[i].parts == kept@[i].parts@);
            }
            assert(u@.pending =~= Seq::new(
                files.len(),
                |i: int| empty_slots(files[i].parts.len()),
            ));
        }
        Ok(u)
    }

    /// The stored locations that are worth reading, in ascending order.
    pub fn wanted(&self) -> (out: Vec<u32>)
        ensures
            forall|i: int, j: int| 0 <= i < j < out@.len() ==> out@[i] < out@[j],
            forall|location: u32|
                out@.contains(location) <==> exists|i: int, p: int|
                    0 <= i < self@.files.len() && 0 <= p < self@.files[i].parts.len()
                        && stored_at(
                        self@.locations,
                        #[trigger] self@.files[i].parts[p],
                    ) == Some(location),
    {
        let ghost files = self@.files;
        let mut out: Vec<u32> = Vec::new();
        let mut i: usize = 0;
        while i < self.files.len()
            invariant
                i <= self.files.len(),
                files == self@.files,
                files == files_of(self.files@),
                self@.locations == self.locations@,
                forall|a: int, b: int| 0 <= a < b < out@.len() ==> out@[a] < out@[b],
                forall|location: u32|
                    out@.contains(location) <==> exists|k: int, p: int|
                        0 <= k < i && 0 <= p < files[k].parts.len() && stored_at(
                            self@.locations,
                            #[trigger] files[k].parts[p],
                        ) == Some(location),
            decreases self.files.len() - i,
        {
            let mut p: usize = 0;
            let ghost before = out@;
            while p < self.files[i].parts.len()
                invariant
                    i < self.files.len(),
                    files == files_of(self.files@),
                    self@.locations == self.locations@,
                    p <= self.files@[i as int].parts@.len(),
                    forall|a: int, b: int| 0 <= a < b < out@.len() ==> out@[a] < out@[b],
                    forall|location: u32|
                        #![trigger out@.contains(location)]
                        out@.contains(location) <==> before.contains(location) || exists|q: int|
                            0 <= q < p && stored_at(
                                self@.locations,
                                #[trigger] files[i as int].parts[q],
                            ) == Some(location),
                decreases self.files@[i as int].parts@.len() - p,
            {
                let entry: usize = self.files[i].parts[p];
                assert(files[i as int].parts[p as int] == entry);
                match location_of(&self.locations, entry) {
                    Some(location) => note_location(&mut out, location),
                    None => {},
                }
                p += 1;
            }
            proof {
                assert forall|location: u32|
                    out@.contains(location) <==> exists|k: int, p: int|
                        0 <= k < i + 1 && 0 <= p < files[k].parts.len() && stored_at(
                            self@.locations,
                            #[trigger] files[k].parts[p],
                        ) == Some(location) by {
                    if before.contains(location) {
                        let (k, p) = choose|k: int, p: int|
                            0 <= k < i && 0 <= p < files[k].parts.len() && stored_at(
                                self@.locations,
                                #[trigger] files[k].parts[p],
                            ) == Some(location);
                        assert(stored_at(self@.locations, files[k].parts[p]) == Some(location));
                    }
                    if exists|k: int, p: int|
                        0 <= k < i + 1 && 0 <= p < files[k].parts.len() && stored_at(
                            self@.locations,
                            #[trigger] files[k].parts[p],
                        ) == Some(location) {
                        let (k, p) = choose|k: int, p: int|
                            0 <= k < i + 1 && 0 <= p < files[k].parts.len() && stored_at(
                                self@.locations,
                                #[trigger] files[k].parts[p],
                            ) == Some(location);
                        if k < i {
                            assert(before.contains(location));
                        }
                    }
                }
            }
            i += 1;
        }
        out
    }

    /// Takes in the bytes stored at a location, and gives the files that are ready now.
    pub fn received(&mut self, location: u32, data: &Vec<u8>) -> (ready: Vec<Ready>)
        requires
            old(self)@.is_proper(),
        ensures
            final(self)@ == old(self)@.received(location, data@),
            final(self)@.is_proper(),
            ready_of(ready@) == old(self)@.completed(
                location,
                data@,
                old(self)@.files.len() as int,
            ),
    {
        let ghost before = self@;
        let mut ready: Vec<Ready> = Vec::new();
        assert(ready_of(ready@) =~= seq![]);
        assert forall|j: int| 0 <= j < self.pending@.len() implies (
        #[trigger] self.pending@[j])@.len() == before.files[j].parts.len() by {
            assert(before.pending[j] == slots_of(self.pending@[j]@));
        }
        let mut i: usize = 0;
        while i < self.files.len()
            invariant
                i <= self.files.len(),
                before.is_proper(),
                self@.files == before.files,
                self@.locations == before.locations,
                self@.written == before.written,
                before.files == files_of(self.files@),
                before.locations == self.locations@,
                self.pending@.len() == before.pending.len(),
                before.pending.len() == self.files@.len(),
                forall|j: int|
                    0 <= j < self.pending@.len() ==> (#[trigger] self.pending@[j])@.len()
                        == before.files[j].parts.len(),
                forall|j: int|
                    0 <= j < i ==> slots_of((#[trigger] self.pending@[j])@) == before.received(
                        location,
                        data@,
                    ).pending[j],
                forall|j: int|
                    i <= j < self.pending@.len() ==> slots_of((#[trigger] self.pending@[j])@)
                        == before.pending[j],
                ready_of(ready@) == before.completed(location, data@, i as int),
            decreases self.files.len() - i,
        {
            let mut slots: Vec<Option<Vec<u8>>> = Vec::new();
            std::mem::swap(&mut slots, &mut self.pending[i]);
            assert(slots_of(slots@) == before.pending[i as int]);
            let slots: Vec<Option<Vec<u8>>> = fill(
                &self.files[i],
                slots,
                &self.locations,
                location,
                data,
                &mut ready,
            );
            self.pending.set(i, slots);
            i += 1;
        }
        assert(self@.pending =~= before.received(location, data@).pending);
        assert(self@ =~= before.received(location, data@));
        proof {
            assert forall|j: int| 0 <= j < self@.files.len() implies (
            #[trigger] self@.pending[j]).len() == self@.files[j].parts.len() by {
                assert(self@.pending[j] == slots_of(self.pending@[j]@));
            }
        }
        ready
    }

    /// Whether another written file can be counted.
    pub fn has_room(&self) -> (r: bool)
        ensures
            r == (self@.written < usize::MAX),
    {
        self.written < usize::MAX
    }

    /// One more file has been written; how far that is, to report.
    pub fn wrote(&mut self) -> (p: Progress)
        requires
            old(self)@.written < usize::MAX,
        ensures
            final(self)@ == (UnpackingView { written: old(self)@.written + 1, ..old(self)@ }),
            p.status == Status::Extracting,
            p.value is Some,
            p.value->0.done == old(self)@.written + 1,
            p.value->0.total == old(self)@.files.len(),
    {
        self.written = self.written + 1;
        Progress {
            status: Status::Extracting,
            value: Some(
                Fraction { done: self.written as u64, total: self.files.len() as u64 },
            ),
        }
    }

    /// How reading the installer ends: well, if every file has been written.
    pub fn finish(&self) -> (r: Result<(), CoreError>)
        ensures
            error::core_outcome(r) == if self@.written < self@.files.len() {
                Err(
                    CoreErrorView::ExtractionFailed(
                        "only "@ + text::decimal(self@.written) + " of "@ + text::decimal(
                            self@.files.len(),
                        ) + " files could be read out of the installer"@,
                    ),
                )
            } else {
                Ok(())
            },
    {
        if self.written < self.files.len() {
            let a: String = joined(
                "only ",
                text_of(&to_decimal(self.written as u128)).as_str(),
            );
            let b: String = joined(a.as_str(), " of ");
            let c: String = joined(
                b.as_str(),
                text_of(&to_decimal(self.files.len() as u128)).as_str(),
            );
            return Err(
                CoreError::ExtractionFailed(
                    joined(c.as_str(), " files could be read out of the installer"),
                ),
            );
        }
        Ok(())
    }
}

/// Puts a location among others in ascending order, unless it is there already.
fn note_location(all: &mut Vec<u32>, location: u32)
    requires
        forall|a: int, b: int| 0 <= a < b < old(all)@.len() ==> old(all)@[a] < old(all)@[b],
    ensures
        forall|a: int, b: int| 0 <= a < b < final(all)@.len() ==> final(all)@[a] < final(all)@[b],
        forall|x: u32|
            final(all)@.contains(x) <==> old(all)@.contains(x) || x == location,
{
    let ghost before = all@;
    let mut i: usize = 0;
    while i < all.len() && all[i] < location
        invariant
            i <= all.len(),
            all@ == before,
            forall|j: int| 0 <= j < i ==> all@[j] < location,
        decreases all.len() - i,
    {
        i += 1;
    }
    if i < all.len() && all[i] == location {
        assert(before[i as int] == location);
        return ;
    }
    all.insert(i, location);
    proof {
        assert(all@[i as int] == location);
        assert forall|x: u32| all@.contains(x) <==> before.contains(x) || x == location by {
            if before.contains(x) {
                let k = choose|k: int| 0 <= k < before.len() && before[k] == x;
                if k < i {
                    assert(all@[k] == x);
                } else {
                    assert(all@[k + 1] == x);
                }
            }
            if all@.contains(x) && x != location {
                let k = choose|k: int| 0 <= k < all@.len() && all@[k] == x;
                if k < i {
                    assert(before[k] == x);
                } else {
                    assert(before[k - 1] == x);
                }
            }
        }
    }
}

// ---------------------------------------------------------------------------
// Putting the data in place
// ---------------------------------------------------------------------------

/// Where a game's data is unpacked, beside where it goes.
pub open spec fn data_staging(game: OriginalGame) -> Spot {
    Spot { folder: Folder::Game, name: ".staging-"@ + game.dir_name() }
}

/// Where an older copy is put aside.
pub open spec fn data_previous(game: OriginalGame) -> Spot {
    Spot { folder: Folder::Game, name: ".previous-"@ + game.dir_name() }
}

/// Where a game's data goes.
pub open spec fn data_place(name: Seq<char>) -> Spot {
    Spot { folder: Folder::Game, name }
}

impl PlanView {
    /// Makes room to unpack a game's data: its parent directory, and no leftovers.
    pub open spec fn preparing_data(self, game: OriginalGame) -> PlanView {
        self.step(ActView::MakeFolder(Folder::Game), OnError::Fail).step(
            ActView::RemoveTree(data_staging(game)),
            OnError::Ignore,
        )
    }

    /// Moves an older copy aside rather than deleting it first, so a failure leaves the
    /// old data in place.
    pub open spec fn setting_data_aside(self, game: OriginalGame, name: Seq<char>) -> PlanView {
        let p = self.step(ActView::RemoveTree(data_previous(game)), OnError::Ignore);
        if p.disk.leads_somewhere(data_place(name)) {
            p.step(
                ActView::Rename { from: data_place(name), to: data_previous(game) },
                OnError::Fail,
            )
        } else {
            p
        }
    }

    /// Moves the new data into place.
    pub open spec fn placing_data(self, game: OriginalGame, name: Seq<char>) -> PlanView {
        self.step(
            ActView::Rename { from: data_staging(game), to: data_place(name) },
            OnError::Fail,
        )
    }

    /// Puts the older copy back, and lets go of the new data.
    pub open spec fn restoring_data(
        self,
        game: OriginalGame,
        name: Seq<char>,
        had_previous: bool,
    ) -> PlanView {
        let p = if had_previous {
            self.step(
                ActView::Rename { from: data_previous(game), to: data_place(name) },
                OnError::Ignore,
            )
        } else {
            self
        };
        p.step(ActView::RemoveTree(data_staging(game)), OnError::Ignore)
    }
}

fn staging_place(game: OriginalGame) -> (p: Place)
    ensures
        p@ == data_staging(game),
{
    Place { folder: Folder::Game, name: joined(".staging-", game.directory()) }
}

fn previous_place(game: OriginalGame) -> (p: Place)
    ensures
        p@ == data_previous(game),
{
    Place { folder: Folder::Game, name: joined(".previous-", game.directory()) }
}

/// The install of one game's data into the directory `name`. The directory it is in is
/// what the plans are about.
#[derive(Debug)]
pub struct DataInstall {
    pub game: OriginalGame,
    pub name: String,
}

impl DataInstall {
    /// The directory to unpack into.
    pub fn staging(&self) -> (p: Place)
        ensures
            p@ == data_staging(self.game),
    {
        staging_place(self.game)
    }

    /// Makes room to unpack.
    pub fn prepare(&self, plan: &mut Plan)
        ensures
            final(plan)@ == old(plan)@.preparing_data(self.game),
    {
        plan.step(Act::MakeFolder(Folder::Game), OnError::Fail);
        plan.step(Act::RemoveTree(self.staging()), OnError::Ignore);
    }

    /// Whether what was unpacked is the game: its marker is there.
    pub fn check(&self, marker_is_there: bool) -> (r: Result<(), CoreError>)
        ensures
            error::core_outcome(r) == if marker_is_there {
                Ok(())
            } else {
                Err(
                    CoreErrorView::ExtractionFailed(
                        "the installer did not contain "@ + self.game.marker_name(),
                    ),
                )
            },
    {
        if marker_is_there {
            Ok(())
        } else {
            Err(
                CoreError::ExtractionFailed(
                    joined("the installer did not contain ", self.game.marker()),
                ),
            )
        }
    }

    /// Lets go of what was unpacked.
    pub fn abandon(&self, plan: &mut Plan)
        ensures
            final(plan)@ == old(plan)@.step(
                ActView::RemoveTree(data_staging(self.game)),
                OnError::Ignore,
            ),
    {
        plan.step(Act::RemoveTree(self.staging()), OnError::Ignore);
    }

    /// Moves an older copy aside, and says whether there was one.
    pub fn set_aside(&self, plan: &mut Plan) -> (had_previous: bool)
        ensures
            final(plan)@ == old(plan)@.setting_data_aside(self.game, self.name@),
            had_previous == old(plan)@.step(
                ActView::RemoveTree(data_previous(self.game)),
                OnError::Ignore,
            ).disk.leads_somewhere(data_place(self.name@)),
    {
        plan.step(Act::RemoveTree(previous_place(self.game)), OnError::Ignore);
        let to: Place = place(Folder::Game, self.name.as_str());
        let had_previous: bool = plan.disk().leads_somewhere(&to);
        if had_previous {
            plan.step(
                Act::Rename { from: to, to: previous_place(self.game) },
                OnError::Fail,
            );
        }
        had_previous
    }

    /// Moves the new data into place.
    pub fn put_in_place(&self, plan: &mut Plan)
        ensures
            final(plan)@ == old(plan)@.placing_data(self.game, self.name@),
    {
        plan.step(
            Act::Rename { from: self.staging(), to: place(Folder::Game, self.name.as_str()) },
            OnError::Fail,
        );
    }

    /// Lets go of the older copy once the new data is in place.
    pub fn commit(&self, plan: &mut Plan)
        ensures
            final(plan)@ == old(plan)@.step(
                ActView::RemoveTree(data_previous(self.game)),
                OnError::Ignore,
            ),
    {
        plan.step(Act::RemoveTree(previous_place(self.game)), OnError::Ignore);
    }

    /// Puts the older copy back where the new data could not be put in place.
    pub fn roll_back(&self, plan: &mut Plan, had_previous: bool)
        ensures
            final(plan)@ == old(plan)@.restoring_data(self.game, self.name@, had_previous),
    {
        if had_previous {
            plan.step(
                Act::Rename {
                    from: previous_place(self.game),
                    to: place(Folder::Game, self.name.as_str()),
                },
                OnError::Ignore,
            );
        }
        plan.step(Act::RemoveTree(self.staging()), OnError::Ignore);
    }
}

/// A destination without a directory above it.
pub fn no_parent(destination: &str) -> (e: CoreError)
    ensures
        e@ == CoreErrorView::ExtractionFailed(destination@ + " has no parent directory"@),
{
    CoreError::ExtractionFailed(joined(destination, " has no parent directory"))
}

/// A file that could not be put together.
pub fn not_assembled(path: &str, reason: &str) -> (e: CoreError)
    ensures
        e@ == CoreErrorView::ExtractionFailed(path@ + ": "@ + reason@),
{
    CoreError::ExtractionFailed(joined(joined(path, ": ").as_str(), reason))
}

// ---------------------------------------------------------------------------
// What follows
// ---------------------------------------------------------------------------

/// None of the names a path is made of is empty or holds a slash.
pub proof fn steps_are_names(s: Seq<char>, k: int)
    requires
        0 <= k < steps_of(s).len(),
    ensures
        steps_of(s)[k].len() > 0,
        !steps_of(s)[k].contains('/'),
        steps_of(s)[k] != seq!['.'],
    decreases s.len(),
{
    let i = text::before_first(s, '/') as int;
    let head = s.take(i);
    text_lemmas::before_first_is_first(s, '/');
    let rest = if i < s.len() {
        steps_of(s.skip(i + 1))
    } else {
        seq![]
    };
    if head.len() == 0 || head == seq!['.'] {
        steps_are_names(s.skip(i + 1), k);
    } else if k > 0 {
        assert(steps_of(s)[k] == rest[k - 1]);
        steps_are_names(s.skip(i + 1), k - 1);
    }
}

/// A file an installer names is never put outside the game directory: where it goes is
/// the directory, a slash, and names none of which leads up.
pub proof fn targets_stay_inside(destination: Seq<char>, path: Seq<char>)
    requires
        destination.len() > 0,
        destination.last() != '/',
    ensures
        target_of(destination, path) matches Ok(target) ==> {
            &&& text::begins(target, destination + seq!['/'])
            &&& forall|k: int|
                0 <= k < steps_of(path).len() ==> path::is_plain(#[trigger] steps_of(path)[k])
        },
{
    let names = steps_of(path);
    if target_of(destination, path) is Ok {
        assert forall|k: int| 0 <= k < names.len() implies path::is_plain(#[trigger] names[k]) by {
            steps_are_names(path, k);
            assert(names.contains(names[k]));
        }
        descending_stays_inside(destination, names);
    }
}

proof fn descending_stays_inside(base: Seq<char>, names: Seq<Seq<char>>)
    requires
        base.len() > 0,
        base.last() != '/',
        forall|k: int| 0 <= k < names.len() ==> path::is_plain(#[trigger] names[k]),
    ensures
        names.len() == 0 ==> descend(base, names) == base,
        names.len() > 0 ==> text::begins(descend(base, names), base + seq!['/']),
        descend(base, names).len() > 0,
        descend(base, names).last() != '/',
    decreases names.len(),
{
    if names.len() > 0 {
        let init = names.drop_last();
        let last = names.last();
        assert forall|k: int| 0 <= k < init.len() implies path::is_plain(#[trigger] init[k]) by {
            assert(path::is_plain(names[k]));
        }
        descending_stays_inside(base, init);
        assert(path::is_plain(names[names.len() - 1]));
        let above = descend(base, init);
        path::plain_names_stay_inside(above, last);
        let target = above + seq!['/'] + last;
        if last.last() == '/' {
            assert(last.contains(last[last.len() - 1]));
        }
        if init.len() == 0 {
            assert(target.take(base.len() as int + 1) =~= base + seq!['/']);
        } else {
            assert(target.take(base.len() as int + 1) =~= above.take(base.len() as int + 1));
        }
    }
}

/// Whether none of a file's parts that are stored at `location` has been read yet.
pub open spec fn awaits(file: FileView, slots: Slots, locations: Seq<u32>, location: u32) -> bool {
    forall|p: int|
        0 <= p < file.parts.len() && stored_at(locations, #[trigger] file.parts[p]) == Some(
            location,
        ) ==> slots[p] is None
}

/// The parts of a file with those stored at `location` read.
pub open spec fn with_part(
    file: FileView,
    slots: Slots,
    locations: Seq<u32>,
    location: u32,
    data: Seq<u8>,
    n: int,
) -> Slots {
    Seq::new(
        slots.len(),
        |p: int|
            if p < n && stored_at(locations, file.parts[p]) == Some(location) {
                Some(data)
            } else {
                slots[p]
            },
    )
}

/// What is stored once is read once, for every part that it is the source of: each of
/// them gets the bytes, and no other part changes. The file is ready exactly when that
/// leaves no part unread, and then with all of its parts.
pub proof fn every_part_gets_its_bytes(
    file: FileView,
    slots: Slots,
    locations: Seq<u32>,
    location: u32,
    data: Seq<u8>,
)
    requires
        slots.len() == file.parts.len(),
        awaits(file, slots, locations, location),
        exists|p: int|
            0 <= p < file.parts.len() && stored_at(locations, #[trigger] file.parts[p]) == Some(
                location,
            ),
    ensures
        ({
            let n = file.parts.len() as int;
            let now = with_part(file, slots, locations, location, data, n);
            filled(file, slots, locations, location, data, n) == if all_read(now) {
                (
                    empty_slots(file.parts.len()),
                    seq![ReadyView { number: file.number, path: file.path, parts: parts_of(now) }],
                )
            } else {
                (now, seq![])
            }
        }),
{
    let n = file.parts.len() as int;
    let some = choose|p: int|
        0 <= p < file.parts.len() && stored_at(locations, #[trigger] file.parts[p]) == Some(
            location,
        );
    let last = last_source(file, locations, location, n);
    last_source_is_last(file, locations, location, n, some);
    filling_up_to(file, slots, locations, location, data, last);
    let before = with_part(file, slots, locations, location, data, last);
    let now = with_part(file, slots, locations, location, data, n);
    assert(before.update(last, Some(data)) =~= now);
    filling_after(file, slots, locations, location, data, last + 1, n);
    assert(seq![].push(ReadyView { number: file.number, path: file.path, parts: parts_of(now) }) =~= seq![
        ReadyView { number: file.number, path: file.path, parts: parts_of(now) },
    ]);
}

/// The last part that is stored at `location`, among the first `n`.
spec fn last_source(file: FileView, locations: Seq<u32>, location: u32, n: int) -> int
    decreases n,
{
    if n <= 0 {
        -1
    } else if stored_at(locations, file.parts[n - 1]) == Some(location) {
        n - 1
    } else {
        last_source(file, locations, location, n - 1)
    }
}

proof fn last_source_is_last(
    file: FileView,
    locations: Seq<u32>,
    location: u32,
    n: int,
    some: int,
)
    requires
        0 <= some < n <= file.parts.len(),
        stored_at(locations, file.parts[some]) == Some(location),
    ensures
        ({
            let last = last_source(file, locations, location, n);
            &&& some <= last < n
            &&& stored_at(locations, file.parts[last]) == Some(location)
            &&& forall|p: int|
                last < p < n ==> stored_at(locations, #[trigger] file.parts[p]) != Some(location)
        }),
    decreases n,
{
    if stored_at(locations, file.parts[n - 1]) != Some(location) {
        last_source_is_last(file, locations, location, n - 1, some);
    }
}

/// Up to the last part that is stored at a location, a part is still missing.
proof fn filling_up_to(
    file: FileView,
    slots: Slots,
    locations: Seq<u32>,
    location: u32,
    data: Seq<u8>,
    n: int,
)
    requires
        slots.len() == file.parts.len(),
        awaits(file, slots, locations, location),
        0 <= n <= last_source(file, locations, location, file.parts.len() as int),
        n < file.parts.len(),
    ensures
        filled(file, slots, locations, location, data, n) == (
            with_part(file, slots, locations, location, data, n),
            Seq::<ReadyView>::empty(),
        ),
    decreases n,
{
    if n == 0 {
        assert(with_part(file, slots, locations, location, data, 0) =~= slots);
    } else {
        filling_up_to(file, slots, locations, location, data, n - 1);
        let before = with_part(file, slots, locations, location, data, n - 1);
        let now = with_part(file, slots, locations, location, data, n);
        if stored_at(locations, file.parts[n - 1]) == Some(location) {
            assert(before.update(n - 1, Some(data)) =~= now);
            let last = last_source(file, locations, location, file.parts.len() as int);
            last_source_is_last(file, locations, location, file.parts.len() as int, n - 1);
            assert(now[last] is None);
        } else {
            assert(before =~= now);
        }
    }
}

/// After the last part that is stored at a location, nothing changes.
pub(crate) proof fn filling_after(
    file: FileView,
    slots: Slots,
    locations: Seq<u32>,
    location: u32,
    data: Seq<u8>,
    from: int,
    n: int,
)
    requires
        0 <= from <= n <= file.parts.len(),
        forall|p: int|
            from <= p < n ==> stored_at(locations, #[trigger] file.parts[p]) != Some(location),
    ensures
        filled(file, slots, locations, location, data, n) == filled(
            file,
            slots,
            locations,
            location,
            data,
            from,
        ),
    decreases n - from,
{
    if from < n {
        filling_after(file, slots, locations, location, data, from, n - 1);
    }
}

/// An install of game data that fails at its last step leaves the older copy where it
/// was.
pub proof fn failed_data_installs_keep_the_old_copy(
    plan: PlanView,
    game: OriginalGame,
    name: Seq<char>,
)
    requires
        plan.ready(),
        plan.disk.is_dir(data_place(name)),
        name.len() > 0,
        name[0] != '.',
        !plan.disk.taken(data_previous(game)) || plan.disk.is_dir(data_previous(game))
            || plan.disk.is_link(data_previous(game)),
    ensures
        ({
            let aside = plan.setting_data_aside(game, name);
            let after = aside.restoring_data(game, name, true);
            &&& aside.ready()
            &&& !aside.disk.taken(data_place(name))
            &&& after.disk.node(data_place(name)) == plan.disk.node(data_place(name))
        }),
{
    reveal_strlit(".staging-");
    reveal_strlit(".previous-");
    let to = data_place(name);
    let old_copy = data_previous(game);
    let new_copy = data_staging(game);
    assert(old_copy.name[0] == '.' && new_copy.name[0] == '.');
    assert(old_copy.name[1] == 'p' && new_copy.name[1] == 's');
    let clear = ActView::RemoveTree(old_copy);
    let a = plan.step(clear, OnError::Ignore);
    crate::disk::steps_stay_proper(plan, clear, OnError::Ignore);
    crate::disk::node_after_without(plan.disk, old_copy, to);
    let aside = ActView::Rename { from: to, to: old_copy };
    let b = a.step(aside, OnError::Fail);
    let node = plan.disk.node(to)->0;
    crate::disk::steps_stay_proper(a, aside, OnError::Fail);
    crate::disk::node_after_without(a.disk, to, old_copy);
    crate::disk::node_after_with(a.disk.without(to), old_copy, node, to);
    let back = ActView::Rename { from: old_copy, to };
    let c = b.step(back, OnError::Ignore);
    crate::disk::steps_stay_proper(b, back, OnError::Ignore);
    crate::disk::node_after_without(b.disk, old_copy, to);
    crate::disk::node_after_with(b.disk.without(old_copy), to, node, new_copy);
    crate::disk::node_after_without(c.disk, new_copy, to);
}

} // verus!
