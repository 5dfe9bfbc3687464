//! Putting a build where it belongs, and cleaning up after an install that was cut
//! short.
//!
//! Staging is the whole point: extraction, the slow and failure-prone part, happens
//! somewhere harmless, and the destination is only ever touched by two instant renames.

use vstd::prelude::*;

use crate::disk;
use crate::disk::{
    place, Act, ActView, Disk, DiskView, Entry, EntryView, Folder, Landing, LandingView, Node,
    NodeView, OnError, Place, Plan, PlanView, Spot,
};
use crate::error;
use crate::error::{CoreError, CoreErrorView};
use crate::game;
use crate::game::{sanitize_tag, GameId};
use crate::order;
use crate::search;
use crate::store;
use crate::store::{nth_candidate, Mode, VersionStore};
use crate::text;
use crate::text::{chars_of, joined, part, same_chars, starts_with, text_of, trim};

verus! {

broadcast use vstd::string::group_string_axioms;

// ---------------------------------------------------------------------------
// Where an install works
// ---------------------------------------------------------------------------

/// Where an install puts its own working files: `versions` when each build has its own
/// destination, the game's directory when they all share `bin`.
pub open spec fn workplace(mode: Mode) -> Folder {
    match mode {
        Mode::MultiVersion => Folder::Versions,
        Mode::Compatible => Folder::Game,
    }
}

/// Where a build lands while its successor is put in its place.
pub open spec fn trash(folder: Folder, name: Seq<char>) -> Spot {
    Spot { folder, name: ".trash-"@ + name }
}

/// The record that it was put there by an install. It has a prefix of its own rather
/// than a suffix on the trash name, because a name may end in anything.
pub open spec fn marker(folder: Folder, name: Seq<char>) -> Spot {
    Spot { folder, name: ".trashmark-"@ + name }
}

/// Where a build is unpacked.
pub open spec fn staging(folder: Folder, name: Seq<char>) -> Spot {
    Spot { folder, name: ".staging-"@ + name }
}

/// Where an archive is downloaded to.
pub open spec fn archive(folder: Folder, name: Seq<char>) -> Spot {
    Spot { folder, name: ".download-"@ + name }
}

/// Where a build goes.
pub open spec fn destination(mode: Mode, name: Seq<char>) -> Spot {
    match mode {
        Mode::MultiVersion => store::version(name),
        Mode::Compatible => store::bin(),
    }
}

fn work_folder(mode: Mode) -> (f: Folder)
    ensures
        f == workplace(mode),
{
    match mode {
        Mode::MultiVersion => Folder::Versions,
        Mode::Compatible => Folder::Game,
    }
}

fn prefixed(folder: Folder, prefix: &str, name: &str) -> (p: Place)
    ensures
        p@ == (Spot { folder, name: prefix@ + name@ }),
{
    Place { folder, name: joined(prefix, name) }
}

fn trash_place(folder: Folder, name: &str) -> (p: Place)
    ensures
        p@ == trash(folder, name@),
{
    prefixed(folder, ".trash-", name)
}

fn marker_place(folder: Folder, name: &str) -> (p: Place)
    ensures
        p@ == marker(folder, name@),
{
    prefixed(folder, ".trashmark-", name)
}

fn destination_place(mode: Mode, name: &str) -> (p: Place)
    ensures
        p@ == destination(mode, name@),
{
    match mode {
        Mode::MultiVersion => place(Folder::Versions, name),
        Mode::Compatible => place(Folder::Game, "bin"),
    }
}

// ---------------------------------------------------------------------------
// What an install that was cut short left behind
// ---------------------------------------------------------------------------

/// Whether an entry is shaped like something an install could have put aside: a
/// directory, or the link that used to be `bin`, which may well lead nowhere.
pub open spec fn is_trash_like(d: DiskView, spot: Spot) -> bool {
    d.is_dir(spot) || d.is_link(spot)
}

/// Whether an entry is a marker. A file, so that a directory can never be mistaken for
/// one.
pub open spec fn is_marker(d: DiskView, spot: Spot) -> bool {
    d.landing(spot) is File
}

/// Whether a marker proves that the destination holds the build that others were put
/// aside for: it holds the tag recorded at the destination.
pub open spec fn confirms(d: DiskView, to: Spot, mark: Spot) -> bool {
    match (d.landing(mark), store::version_text(d.landing(to))) {
        (LandingView::File(Some(tag)), Some(found)) => text::trimmed(tag) == text::trimmed(found),
        _ => false,
    }
}

impl PlanView {
    /// Puts trash back at a destination that does not lead to a directory. A link or a
    /// file in the way goes first; nothing resolves through it.
    pub open spec fn restoring(self, from: Spot, to: Spot) -> PlanView {
        if !is_trash_like(self.disk, from) {
            self
        } else if self.disk.taken(to) {
            self.step(ActView::RemoveFile(to), OnError::Ignore).step(
                ActView::Rename { from, to },
                OnError::Ignore,
            )
        } else {
            self.step(ActView::Rename { from, to }, OnError::Ignore)
        }
    }

    /// Deletes trash whose successor is in place, and then its marker.
    pub open spec fn discarding(self, folder: Folder, name: Seq<char>) -> PlanView {
        self.step(ActView::RemoveTree(trash(folder, name)), OnError::SkipNext).step(
            ActView::RemoveFile(marker(folder, name)),
            OnError::Ignore,
        )
    }

    /// Clears a marker.
    pub open spec fn unmarking(self, folder: Folder, name: Seq<char>) -> PlanView {
        self.step(ActView::RemoveFile(marker(folder, name)), OnError::Ignore)
    }

    /// Heals what an install left behind that has a destination of its own:
    ///
    /// | marker | trash | destination | verdict |
    /// |--------|-------|-------------|---------|
    /// | yes | no  | any | Nothing was put aside, or it is gone. Clear the marker. |
    /// | yes | yes | not resolving | Cut short between the two renames. Restore the trash. |
    /// | yes | yes | resolving, confirmed | Only cleaning up was cut short. Delete the trash. |
    /// | yes | yes | resolving, unconfirmed | Something else may be there. Leave it. |
    /// | no  | yes | any | Not an install's. Restore it if nothing resolves, else leave it. |
    pub open spec fn recovering_one(self, folder: Folder, name: Seq<char>, to: Spot) -> PlanView {
        let d = self.disk;
        let marked = is_marker(d, marker(folder, name));
        let trashed = is_trash_like(d, trash(folder, name));
        if marked && !trashed {
            self.unmarking(folder, name)
        } else if marked && !d.resolves(to) {
            self.restoring(trash(folder, name), to).unmarking(folder, name)
        } else if marked {
            if confirms(d, to, marker(folder, name)) {
                self.discarding(folder, name)
            } else {
                self
            }
        } else if trashed && !d.resolves(to) {
            self.restoring(trash(folder, name), to)
        } else {
            self
        }
    }

    /// Heals each name with a destination of its own.
    pub open spec fn recovering_each(self, names: Seq<Seq<char>>) -> PlanView
        decreases names.len(),
    {
        if names.len() == 0 {
            self
        } else {
            self.recovering_each(names.drop_last()).recovering_one(
                Folder::Versions,
                names.last(),
                store::version(names.last()),
            )
        }
    }

    /// Heals one name where the shared destination holds something real.
    pub open spec fn settling_one(self, name: Seq<char>, to: Spot) -> PlanView {
        let d = self.disk;
        let mark = marker(Folder::Game, name);
        if !is_marker(d, mark) {
            self
        } else if !is_trash_like(d, trash(Folder::Game, name)) {
            self.unmarking(Folder::Game, name)
        } else if confirms(d, to, mark) {
            self.discarding(Folder::Game, name)
        } else {
            self
        }
    }

    pub open spec fn settling_each(self, names: Seq<Seq<char>>, to: Spot) -> PlanView
        decreases names.len(),
    {
        if names.len() == 0 {
            self
        } else {
            self.settling_each(names.drop_last(), to).settling_one(names.last(), to)
        }
    }

    /// The names with trash that can be put back, each with when that was last changed.
    /// The markers of the others describe trash that does not exist, and go.
    pub open spec fn sorting_out(self, names: Seq<Seq<char>>) -> (PlanView, Seq<
        (u64, Seq<char>),
    >)
        decreases names.len(),
    {
        if names.len() == 0 {
            (self, seq![])
        } else {
            let (p, found) = self.sorting_out(names.drop_last());
            let name = names.last();
            match p.disk.node(trash(Folder::Game, name)) {
                Some(NodeView::Dir { modified, .. }) => (
                    p,
                    found.push((store::when(modified), name)),
                ),
                Some(NodeView::Link { modified, .. }) => (
                    p,
                    found.push((store::when(modified), name)),
                ),
                _ => (p.unmarking(Folder::Game, name), found),
            }
        }
    }

    /// Clears the markers of all but the winner.
    pub open spec fn demoting(self, found: Seq<(u64, Seq<char>)>, winner: int, n: int) -> PlanView
        decreases n,
    {
        if n <= 0 {
            self
        } else {
            let p = self.demoting(found, winner, n - 1);
            if n - 1 == winner {
                p
            } else {
                p.unmarking(Folder::Game, found[n - 1].1)
            }
        }
    }

    /// Heals what installs left behind where all of them share one destination. Whether
    /// that holds something real is decided once, before anything is touched. Where it
    /// does not, the trash last changed is put back, and the others lose their markers:
    /// they cannot be proven superseded, and nothing deletes them then.
    pub open spec fn recovering_shared(self, names: Seq<Seq<char>>) -> PlanView {
        let to = store::bin();
        if self.disk.resolves(to) {
            self.settling_each(names, to)
        } else {
            let (p, found) = self.sorting_out(names);
            if found.len() == 0 {
                p
            } else {
                let winner = newest(found);
                p.demoting(found, winner, found.len() as int).restoring(
                    trash(Folder::Game, found[winner].1),
                    to,
                ).unmarking(Folder::Game, found[winner].1)
            }
        }
    }

    /// Heals whatever installs left behind.
    pub open spec fn recovering(self, mode: Mode) -> PlanView {
        let names = debris(self.disk.entries, workplace(mode));
        match mode {
            Mode::MultiVersion => self.recovering_each(names),
            Mode::Compatible => self.recovering_shared(names),
        }
    }

    /// Does one thing after another, whether they work or not.
    pub open spec fn trying(self, acts: Seq<ActView>) -> PlanView
        decreases acts.len(),
    {
        if acts.len() == 0 {
            self
        } else {
            self.trying(acts.drop_last()).step(acts.last(), OnError::Ignore)
        }
    }
}

/// The last of those that were last changed.
pub open spec fn newest(found: Seq<(u64, Seq<char>)>) -> int
    decreases found.len(),
{
    if found.len() <= 1 {
        0
    } else {
        let best = newest(found.drop_last());
        if found.last().0 >= found[best].0 {
            found.len() - 1
        } else {
            best
        }
    }
}

/// Whether `a` comes before `b` in the dictionary.
pub open spec fn comes_before(a: Seq<char>, b: Seq<char>) -> bool
    decreases a.len(),
{
    if b.len() == 0 {
        false
    } else if a.len() == 0 {
        true
    } else if a[0] != b[0] {
        a[0] < b[0]
    } else {
        comes_before(a.drop_first(), b.drop_first())
    }
}

/// A name put among others that are in order, unless it is there already.
pub open spec fn among(names: Seq<Seq<char>>, name: Seq<char>) -> Seq<Seq<char>> {
    if names.contains(name) {
        names
    } else {
        order::placed(names, name, |a: Seq<char>, b: Seq<char>| comes_before(a, b))
    }
}

/// The name that trash or a marker belongs to.
pub open spec fn debris_name(entry: EntryView, folder: Folder) -> Option<Seq<char>> {
    let name = entry.spot.name;
    if entry.spot.folder != folder {
        None
    } else if text::begins(name, ".trashmark-"@) {
        Some(name.skip(".trashmark-"@.len() as int))
    } else if text::begins(name, ".trash-"@) {
        Some(name.skip(".trash-"@.len() as int))
    } else {
        None
    }
}

/// The names that trash or markers belong to, in order.
pub open spec fn debris(entries: Seq<EntryView>, folder: Folder) -> Seq<Seq<char>>
    decreases entries.len(),
{
    if entries.len() == 0 {
        seq![]
    } else {
        let before = debris(entries.drop_last(), folder);
        match debris_name(entries.last(), folder) {
            Some(name) => among(before, name),
            None => before,
        }
    }
}

/// How long a staging directory or a partial download must have been left alone before
/// it counts as debris: an hour, in nanoseconds.
pub const STALE_DEBRIS_AGE: u64 = 3_600_000_000_000;

/// Whether something was last changed long enough before `now`. What is not known, or
/// lies in the future, is not.
pub open spec fn is_stale(modified: Option<u64>, now: u64) -> bool {
    modified matches Some(t) && t <= now && now - t >= STALE_DEBRIS_AGE
}

/// What is done about an entry that an install may have left behind.
pub open spec fn sweep_of(entry: EntryView, folder: Folder, now: u64) -> Option<ActView> {
    let name = entry.spot.name;
    if entry.spot.folder != folder || !(text::begins(name, ".staging-"@) || text::begins(
        name,
        ".download-"@,
    )) {
        None
    } else {
        match entry.node {
            NodeView::Dir { modified, .. } => if is_stale(modified, now) {
                Some(ActView::RemoveTree(entry.spot))
            } else {
                None
            },
            NodeView::File { modified, .. } => if is_stale(modified, now) {
                Some(ActView::RemoveFile(entry.spot))
            } else {
                None
            },
            NodeView::Link { .. } => None,
        }
    }
}

/// What is done about all of them.
pub open spec fn sweeps(entries: Seq<EntryView>, folder: Folder, now: u64) -> Seq<ActView>
    decreases entries.len(),
{
    if entries.len() == 0 {
        seq![]
    } else {
        let before = sweeps(entries.drop_last(), folder, now);
        match sweep_of(entries.last(), folder, now) {
            Some(act) => before.push(act),
            None => before,
        }
    }
}

// ---------------------------------------------------------------------------
// Installing
// ---------------------------------------------------------------------------

/// Whether a version of the store can take the build with `tag`: it is free, or holds
/// that very tag already.
pub open spec fn takes(d: DiskView, name: Seq<char>, tag: Seq<char>) -> bool {
    !d.taken(store::version(name)) || match store::version_text(d.landing(store::version(name))) {
        Some(v) => text::trimmed(v) == tag,
        None => false,
    }
}

/// The name a build is installed under where versions are kept side by side. Two tags
/// must never share a directory, while installing a tag again overwrites it in place.
pub open spec fn version_name(d: DiskView, safe_tag: Seq<char>, tag: Seq<char>) -> Seq<char> {
    store::candidate(
        safe_tag,
        search::first_that(
            |k: int| takes(d, store::candidate(safe_tag, k), tag),
            1,
            d.entries.len() as int + 2,
        ),
    )
}

/// An install under way: what is installed, and under which name.
#[derive(Debug, PartialEq, Eq)]
pub struct Install {
    pub mode: Mode,
    pub tag: String,
    pub name: String,
}

/// An install under way.
pub struct InstallView {
    pub mode: Mode,
    pub tag: Seq<char>,
    pub name: Seq<char>,
}

impl View for Install {
    type V = InstallView;

    open spec fn view(&self) -> InstallView {
        InstallView { mode: self.mode, tag: self.tag@, name: self.name@ }
    }
}

impl InstallView {
    pub open spec fn folder(self) -> Folder {
        workplace(self.mode)
    }

    pub open spec fn to(self) -> Spot {
        destination(self.mode, self.name)
    }

    pub open spec fn trash(self) -> Spot {
        trash(self.folder(), self.name)
    }

    pub open spec fn marker(self) -> Spot {
        marker(self.folder(), self.name)
    }

    pub open spec fn staging(self) -> Spot {
        staging(self.folder(), self.name)
    }

    pub open spec fn archive(self) -> Spot {
        archive(self.folder(), self.name)
    }

    /// Whether the name the old build would be put aside under is taken by something
    /// else.
    pub open spec fn is_blocked(self, d: DiskView) -> bool {
        d.taken(self.to()) && d.taken(self.trash())
    }
}

/// The install of `tag`, as things stand.
pub open spec fn install_of(d: DiskView, mode: Mode, tag: Seq<char>) -> Result<
    InstallView,
    CoreErrorView,
> {
    match game::directory_name(tag) {
        Err(e) => Err(CoreErrorView::Tag(e)),
        Ok(safe) => Ok(
            InstallView {
                mode,
                tag,
                name: match mode {
                    Mode::MultiVersion => version_name(d, safe, tag),
                    Mode::Compatible => safe,
                },
            },
        ),
    }
}

/// What is said where the trash name is taken.
pub open spec fn occupied(path: Seq<char>) -> CoreErrorView {
    CoreErrorView::Io(path + " already exists and is not this install's to replace"@)
}

impl PlanView {
    /// Makes room to unpack a build.
    pub open spec fn preparing(self, i: InstallView) -> PlanView {
        let p = self.step(ActView::MakeFolder(i.folder()), OnError::Fail);
        if i.is_blocked(p.disk) {
            p
        } else {
            p.step(ActView::RemoveTree(i.staging()), OnError::Ignore)
        }
    }

    /// Puts the old build aside. The marker comes first, so that trash an install made
    /// always has one, and holds the tag being installed, so that it can be told later
    /// whether the swap was completed.
    pub open spec fn making_way(self, i: InstallView) -> PlanView {
        if self.disk.taken(i.to()) && !self.disk.taken(i.trash()) {
            self.step(ActView::Write { at: i.marker(), contents: i.tag }, OnError::Fail).step(
                ActView::Rename { from: i.to(), to: i.trash() },
                OnError::Fail,
            )
        } else {
            self
        }
    }

    /// Puts the new build in place.
    pub open spec fn placing(self, i: InstallView) -> PlanView {
        self.step(ActView::Rename { from: i.staging(), to: i.to() }, OnError::Fail)
    }

    /// Cleans up once the new build is in place.
    pub open spec fn committing(self, i: InstallView, had_previous: bool) -> PlanView {
        if had_previous {
            self.discarding(i.folder(), i.name)
        } else {
            self
        }
    }

    /// Puts the old build back where the new one could not be put in place.
    pub open spec fn rolling_back(self, i: InstallView, had_previous: bool) -> PlanView {
        if had_previous {
            self.step(
                ActView::Rename { from: i.trash(), to: i.to() },
                OnError::SkipNext,
            ).unmarking(i.folder(), i.name)
        } else {
            self
        }
    }

    /// Takes the working files away, the unpacked build only where it was not used.
    pub open spec fn tidying(self, i: InstallView, failed: bool) -> PlanView {
        let p = self.step(ActView::RemoveFile(i.archive()), OnError::Ignore);
        if failed {
            p.step(ActView::RemoveTree(i.staging()), OnError::Ignore)
        } else {
            p
        }
    }
}

// ---------------------------------------------------------------------------
// Doing it
// ---------------------------------------------------------------------------

fn looks_like_trash(d: &Disk, at: &Place) -> (r: bool)
    ensures
        r == is_trash_like(d@, at@),
{
    d.is_dir(at) || d.is_link(at)
}

fn is_marker_file(d: &Disk, at: &Place) -> (r: bool)
    ensures
        r == is_marker(d@, at@),
{
    match d.landing(at) {
        Landing::File(_) => true,
        _ => false,
    }
}

/// Does `mark` prove that `to` now holds the build that others were put aside for?
fn marker_confirms_superseded(d: &Disk, to: &Place, mark: &Place) -> (r: bool)
    ensures
        r == confirms(d@, to@, mark@),
{
    match d.landing(mark) {
        Landing::File(Some(tag)) => match d.landing(to) {
            Landing::Dir(build) => match build.version {
                Some(found) => same_chars(
                    &trim(&chars_of(tag.as_str())),
                    &trim(&chars_of(found.as_str())),
                ),
                None => false,
            },
            _ => false,
        },
        _ => false,
    }
}

/// Restores trash at a destination that does not lead to a directory. Refuses to move
/// anything that does not look like trash.
fn restore_over(plan: &mut Plan, from: &Place, to: &Place)
    ensures
        final(plan)@ == old(plan)@.restoring(from@, to@),
{
    if !looks_like_trash(plan.disk(), from) {
        return ;
    }
    if plan.disk().taken(to) {
        plan.step(Act::RemoveFile(to.clone()), OnError::Ignore);
    }
    plan.step(Act::Rename { from: from.clone(), to: to.clone() }, OnError::Ignore);
}

fn discard(plan: &mut Plan, folder: Folder, name: &str)
    ensures
        final(plan)@ == old(plan)@.discarding(folder, name@),
{
    plan.step(Act::RemoveTree(trash_place(folder, name)), OnError::SkipNext);
    plan.step(Act::RemoveFile(marker_place(folder, name)), OnError::Ignore);
}

fn unmark(plan: &mut Plan, folder: Folder, name: &str)
    ensures
        final(plan)@ == old(plan)@.unmarking(folder, name@),
{
    plan.step(Act::RemoveFile(marker_place(folder, name)), OnError::Ignore);
}

/// Heals what an install left behind that has a destination of its own.
fn recover_one(plan: &mut Plan, folder: Folder, name: &str, to: &Place)
    ensures
        final(plan)@ == old(plan)@.recovering_one(folder, name@, to@),
{
    let trash: Place = trash_place(folder, name);
    let mark: Place = marker_place(folder, name);
    let marked: bool = is_marker_file(plan.disk(), &mark);
    let trashed: bool = looks_like_trash(plan.disk(), &trash);
    if marked && !trashed {
        unmark(plan, folder, name);
    } else if marked && !plan.disk().resolves(to) {
        restore_over(plan, &trash, to);
        unmark(plan, folder, name);
    } else if marked {
        if marker_confirms_superseded(plan.disk(), to, &mark) {
            discard(plan, folder, name);
        }
    } else if trashed && !plan.disk().resolves(to) {
        restore_over(plan, &trash, to);
    }
}

/// Heals what installs left behind where all of them share one destination.
fn recover_sharing_one_destination(plan: &mut Plan, names: &Vec<Vec<char>>)
    ensures
        final(plan)@ == old(plan)@.recovering_shared(text::rows(names@)),
{
    let to: Place = place(Folder::Game, "bin");
    let ghost all = text::rows(names@);
    let ghost start = plan@;
    assert(all.take(0) =~= seq![]);
    if plan.disk().resolves(&to) {
        let mut i: usize = 0;
        while i < names.len()
            invariant
                i <= names.len(),
                all == text::rows(names@),
                to@ == store::bin(),
                plan@ == start.settling_each(all.take(i as int), to@),
            decreases names.len() - i,
        {
            assert(all.take(i + 1).drop_last() =~= all.take(i as int));
            assert(all.take(i + 1).last() == names@[i as int]@);
            let name: String = text_of(&names[i]);
            let mark: Place = marker_place(Folder::Game, name.as_str());
            if is_marker_file(plan.disk(), &mark) {
                let trash: Place = trash_place(Folder::Game, name.as_str());
                if !looks_like_trash(plan.disk(), &trash) {
                    unmark(plan, Folder::Game, name.as_str());
                } else if marker_confirms_superseded(plan.disk(), &to, &mark) {
                    discard(plan, Folder::Game, name.as_str());
                }
            }
            i += 1;
        }
        assert(all.take(i as int) =~= all);
        return ;
    }
    let mut found: Vec<(u64, String)> = Vec::new();
    let mut i: usize = 0;
    assert(dated_names(found@) =~= seq![]);
    while i < names.len()
        invariant
            i <= names.len(),
            all == text::rows(names@),
            (plan@, dated_names(found@)) == start.sorting_out(all.take(i as int)),
        decreases names.len() - i,
    {
        assert(all.take(i + 1).drop_last() =~= all.take(i as int));
        assert(all.take(i + 1).last() == names@[i as int]@);
        let name: String = text_of(&names[i]);
        let trash: Place = trash_place(Folder::Game, name.as_str());
        let modified: Option<Option<u64>> = match plan.disk().node(&trash) {
            Some(Node::Dir { modified, .. }) => Some(*modified),
            Some(Node::Link { modified, .. }) => Some(*modified),
            _ => None,
        };
        match modified {
            Some(modified) => {
                let when: u64 = match modified {
                    Some(t) => t,
                    None => 0,
                };
                let ghost before = dated_names(found@);
                found.push((when, name));
                assert(dated_names(found@) =~= before.push((when, name@)));
            },
            None => unmark(plan, Folder::Game, name.as_str()),
        }
        i += 1;
    }
    assert(all.take(i as int) =~= all);
    if found.len() == 0 {
        return ;
    }
    let winner: usize = newest_of(&found);
    let ghost sorted = plan@;
    let ghost dated = dated_names(found@);
    let mut j: usize = 0;
    while j < found.len()
        invariant
            j <= found.len(),
            dated == dated_names(found@),
            plan@ == sorted.demoting(dated, winner as int, j as int),
        decreases found.len() - j,
    {
        if j != winner {
            unmark(plan, Folder::Game, found[j].1.as_str());
        }
        j += 1;
    }
    let name: &str = found[winner].1.as_str();
    restore_over(plan, &trash_place(Folder::Game, name), &to);
    unmark(plan, Folder::Game, name);
}

spec fn dated_names(v: Seq<(u64, String)>) -> Seq<(u64, Seq<char>)> {
    Seq::new(v.len(), |i: int| (v[i].0, v[i].1@))
}

/// The last of those that were last changed.
fn newest_of(found: &Vec<(u64, String)>) -> (best: usize)
    requires
        found@.len() > 0,
    ensures
        best == newest(dated_names(found@)),
        best < found@.len(),
{
    let ghost all = dated_names(found@);
    let mut best: usize = 0;
    let mut i: usize = 1;
    while i < found.len()
        invariant
            1 <= i <= found.len(),
            all == dated_names(found@),
            best < i,
            best == newest(all.take(i as int)),
        decreases found.len() - i,
    {
        assert(all.take(i + 1).drop_last() =~= all.take(i as int));
        assert(all.take(i + 1)[best as int] == all[best as int]);
        if found[i].0 >= found[best].0 {
            best = i;
        }
        i += 1;
    }
    assert(all.take(i as int) =~= all);
    best
}

/// Whether `a` comes before `b` in the dictionary.
fn is_before(a: &[char], b: &[char]) -> (r: bool)
    ensures
        r == comes_before(a@, b@),
{
    let mut i: usize = 0;
    assert(a@.skip(0) =~= a@);
    assert(b@.skip(0) =~= b@);
    loop
        invariant
            i <= a.len(),
            i <= b.len(),
            comes_before(a@, b@) == comes_before(a@.skip(i as int), b@.skip(i as int)),
        decreases a.len() - i,
    {
        if i == b.len() {
            return false;
        }
        if i == a.len() {
            return true;
        }
        if a[i] != b[i] {
            return a[i] < b[i];
        }
        assert(a@.skip(i as int).drop_first() =~= a@.skip(i + 1));
        assert(b@.skip(i as int).drop_first() =~= b@.skip(i + 1));
        i += 1;
    }
}

/// Puts a name among others that are in order, unless it is there already.
fn note(names: &mut Vec<Vec<char>>, name: Vec<char>)
    ensures
        text::rows(final(names)@) == among(text::rows(old(names)@), name@),
{
    let ghost all = text::rows(names@);
    let ghost before = |a: Seq<char>, b: Seq<char>| comes_before(a, b);
    let ghost p = |i: int| before(name@, all[i]);
    let mut i: usize = 0;
    let mut at: usize = 0;
    let mut passed: bool = false;
    while i < names.len()
        invariant
            i <= names.len(),
            at <= i,
            all == text::rows(names@),
            before == (|a: Seq<char>, b: Seq<char>| comes_before(a, b)),
            p == (|i: int| before(name@, all[i])),
            forall|j: int| 0 <= j < i ==> all[j] != name@,
            forall|j: int| 0 <= j < at ==> !#[trigger] p(j),
            passed ==> at < i && p(at as int),
            !passed ==> at == i,
        decreases names.len() - i,
    {
        if same_chars(&names[i], &name) {
            assert(all[i as int] == name@);
            assert(all.contains(name@));
            return ;
        }
        if !passed {
            if is_before(&name, &names[i]) {
                passed = true;
            } else {
                at = i + 1;
            }
        }
        i += 1;
    }
    proof {
        assert(!all.contains(name@));
        search::first_that_is(p, 0, all.len() as int, at as int);
    }
    let ghost view = name@;
    names.insert(at, name);
    assert(text::rows(names@) =~= all.insert(at as int, view));
}

/// The name that trash or a marker belongs to.
fn name_of_debris(entry: &Entry, folder: Folder) -> (r: Option<Vec<char>>)
    ensures
        r is Some <==> debris_name(entry@, folder) is Some,
        r matches Some(name) ==> debris_name(entry@, folder) == Some(name@),
{
    if entry.place.folder != folder {
        return None;
    }
    let name: Vec<char> = chars_of(entry.place.name.as_str());
    let mark: Vec<char> = chars_of(".trashmark-");
    let trash: Vec<char> = chars_of(".trash-");
    if starts_with(&name, &mark) {
        assert(name@.subrange(mark@.len() as int, name@.len() as int) =~= name@.skip(
            mark@.len() as int,
        ));
        Some(part(&name, mark.len(), name.len()))
    } else if starts_with(&name, &trash) {
        assert(name@.subrange(trash@.len() as int, name@.len() as int) =~= name@.skip(
            trash@.len() as int,
        ));
        Some(part(&name, trash.len(), name.len()))
    } else {
        None
    }
}

/// The names that trash or markers belong to, in order.
fn debris_names(d: &Disk, folder: Folder) -> (names: Vec<Vec<char>>)
    ensures
        text::rows(names@) == debris(d@.entries, folder),
{
    let entries: &Vec<Entry> = d.entries();
    let ghost all = d@.entries;
    let mut names: Vec<Vec<char>> = Vec::new();
    let mut i: usize = 0;
    assert(all.take(0) =~= seq![]);
    assert(text::rows(names@) =~= seq![]);
    while i < entries.len()
        invariant
            i <= entries.len(),
            all == disk::entry_views(entries@),
            text::rows(names@) == debris(all.take(i as int), folder),
        decreases entries.len() - i,
    {
        assert(all.take(i + 1).drop_last() =~= all.take(i as int));
        match name_of_debris(&entries[i], folder) {
            Some(name) => note(&mut names, name),
            None => {},
        }
        i += 1;
    }
    assert(all.take(i as int) =~= all);
    names
}

/// Heals whatever installs left behind.
pub fn recover_stray_trash(plan: &mut Plan, mode: Mode)
    ensures
        final(plan)@ == old(plan)@.recovering(mode),
{
    let names: Vec<Vec<char>> = debris_names(plan.disk(), work_folder(mode));
    let ghost all = text::rows(names@);
    match mode {
        // Each entry owns its destination alone, so each can be judged independently.
        Mode::MultiVersion => {
            let ghost start = plan@;
            let mut i: usize = 0;
            assert(all.take(0) =~= seq![]);
            while i < names.len()
                invariant
                    i <= names.len(),
                    all == text::rows(names@),
                    plan@ == start.recovering_each(all.take(i as int)),
                decreases names.len() - i,
            {
                assert(all.take(i + 1).drop_last() =~= all.take(i as int));
                assert(all.take(i + 1).last() == names@[i as int]@);
                let name: String = text_of(&names[i]);
                let to: Place = place(Folder::Versions, name.as_str());
                recover_one(plan, Folder::Versions, name.as_str(), &to);
                i += 1;
            }
            assert(all.take(i as int) =~= all);
        },
        // All entries share the single `bin`, which judging each alone cannot answer
        // safely: restoring one would make `bin` resolve for the next.
        Mode::Compatible => recover_sharing_one_destination(plan, &names),
    }
}

fn stale(modified: &Option<u64>, now: u64) -> (r: bool)
    ensures
        r == is_stale(*modified, now),
{
    match modified {
        Some(t) => *t <= now && now - *t >= STALE_DEBRIS_AGE,
        None => false,
    }
}

fn sweep_entry(entry: &Entry, folder: Folder, now: u64) -> (r: Option<Act>)
    ensures
        r is Some <==> sweep_of(entry@, folder, now) is Some,
        r matches Some(act) ==> sweep_of(entry@, folder, now) == Some(act@),
{
    let name: Vec<char> = chars_of(entry.place.name.as_str());
    if entry.place.folder != folder || !(starts_with(&name, &chars_of(".staging-")) || starts_with(
        &name,
        &chars_of(".download-"),
    )) {
        return None;
    }
    match &entry.node {
        Node::Dir { modified, .. } => if stale(modified, now) {
            Some(Act::RemoveTree(entry.place.clone()))
        } else {
            None
        },
        Node::File { modified, .. } => if stale(modified, now) {
            Some(Act::RemoveFile(entry.place.clone()))
        } else {
            None
        },
        Node::Link { .. } => None,
    }
}

spec fn act_views(v: Seq<Act>) -> Seq<ActView> {
    Seq::new(v.len(), |i: int| v[i]@)
}

/// Deletes staging directories and partial downloads that no install is using any more.
///
/// Nothing deleted here is a game build: a staging directory holds an extract no
/// destination has ever pointed at, and a download is a partial archive. Both are
/// reproducible, which is why this may delete on a time bound while trash may not be.
pub fn sweep_stale_staging(plan: &mut Plan, mode: Mode, now: u64)
    ensures
        final(plan)@ == old(plan)@.trying(
            sweeps(old(plan)@.disk.entries, workplace(mode), now),
        ),
{
    let folder: Folder = work_folder(mode);
    let ghost all = plan@.disk.entries;
    let mut acts: Vec<Act> = Vec::new();
    {
        let entries: &Vec<Entry> = plan.disk().entries();
        let mut i: usize = 0;
        assert(all.take(0) =~= seq![]);
        assert(act_views(acts@) =~= seq![]);
        while i < entries.len()
            invariant
                i <= entries.len(),
                all == disk::entry_views(entries@),
                act_views(acts@) == sweeps(all.take(i as int), folder, now),
            decreases entries.len() - i,
        {
            assert(all.take(i + 1).drop_last() =~= all.take(i as int));
            let ghost before = act_views(acts@);
            match sweep_entry(&entries[i], folder, now) {
                Some(act) => {
                    let ghost view = act@;
                    acts.push(act);
                    assert(act_views(acts@) =~= before.push(view));
                },
                None => {},
            }
            i += 1;
        }
        assert(all.take(i as int) =~= all);
    }
    let ghost start = plan@;
    let ghost todo = act_views(acts@);
    let ghost mut done: int = 0;
    assert(todo.take(0) =~= seq![]);
    assert(todo.skip(0) =~= todo);
    while acts.len() > 0
        invariant
            0 <= done <= todo.len(),
            act_views(acts@) == todo.skip(done),
            plan@ == start.trying(todo.take(done)),
        decreases acts.len(),
    {
        let ghost rest = acts@;
        let act: Act = acts.remove(0);
        proof {
            assert(act@ == act_views(rest)[0]);
            assert(act_views(acts@) =~= act_views(rest).drop_first());
            assert(todo.skip(done).drop_first() =~= todo.skip(done + 1));
            assert(todo.take(done + 1).drop_last() =~= todo.take(done));
            done = done + 1;
        }
        plan.step(act, OnError::Ignore);
    }
    assert(todo.take(done) =~= todo);
}

/// Repairs the debris an interrupted install left behind, for a caller that is not
/// itself starting an install.
pub fn recover_debris(plan: &mut Plan, mode: Mode, now: u64)
    ensures
        ({
            let recovered = old(plan)@.recovering(mode);
            final(plan)@ == recovered.trying(
                sweeps(recovered.disk.entries, workplace(mode), now),
            )
        }),
{
    recover_stray_trash(plan, mode);
    sweep_stale_staging(plan, mode, now);
}

/// Where a build is installed among versions side by side.
fn resolve_multi_version_name(d: &Disk, safe_tag: &str, tag: &str) -> (out: String)
    ensures
        out@ == version_name(d@, safe_tag@, tag@),
{
    let ghost p = |k: int| takes(d@, store::candidate(safe_tag@, k), tag@);
    let ghost n = d@.entries.len() as int + 2;
    let count: usize = d.entries().len();
    assert(d@.entries.len() == count);
    let wanted: Vec<char> = chars_of(tag);
    let mut k: u128 = 1;
    loop
        invariant
            1 <= k < n,
            n == d@.entries.len() + 2,
            d@.entries.len() <= usize::MAX,
            wanted@ == tag@,
            p == (|k: int| takes(d@, store::candidate(safe_tag@, k), tag@)),
            forall|j: int| 1 <= j < k ==> !#[trigger] p(j),
        decreases n - k,
    {
        let name: String = nth_candidate(safe_tag, k);
        let at: Place = place(Folder::Versions, name.as_str());
        let free: bool = !d.taken(&at);
        let same_tag: bool = match d.landing(&at) {
            Landing::Dir(build) => match build.version {
                Some(found) => same_chars(&trim(&chars_of(found.as_str())), &wanted),
                None => false,
            },
            _ => false,
        };
        if free || same_tag {
            proof {
                assert(p(k as int));
                search::first_that_is(p, 1, n, k as int);
            }
            return name;
        }
        proof {
            assert(!p(k as int));
            assert forall|j: int| 1 <= j <= k implies d@.taken(
                store::version(#[trigger] store::candidate(safe_tag@, j)),
            ) by {
                assert(!p(j));
            }
            store::some_candidate_is_free(d@, safe_tag@, k as int);
        }
        k += 1;
    }
}

impl Install {
    /// Where the working files are.
    pub fn folder(&self) -> (f: Folder)
        ensures
            f == self@.folder(),
    {
        work_folder(self.mode)
    }

    /// Where the build goes.
    pub fn destination(&self) -> (p: Place)
        ensures
            p@ == self@.to(),
    {
        destination_place(self.mode, self.name.as_str())
    }

    /// Where the old build is put aside.
    pub fn trash(&self) -> (p: Place)
        ensures
            p@ == self@.trash(),
    {
        trash_place(self.folder(), self.name.as_str())
    }

    /// The record that it was.
    pub fn marker(&self) -> (p: Place)
        ensures
            p@ == self@.marker(),
    {
        marker_place(self.folder(), self.name.as_str())
    }

    /// Where the build is unpacked.
    pub fn staging(&self) -> (p: Place)
        ensures
            p@ == self@.staging(),
    {
        prefixed(self.folder(), ".staging-", self.name.as_str())
    }

    /// Where the archive is downloaded to.
    pub fn archive(&self) -> (p: Place)
        ensures
            p@ == self@.archive(),
    {
        prefixed(self.folder(), ".download-", self.name.as_str())
    }

    fn is_blocked(&self, d: &Disk) -> (r: bool)
        ensures
            r == self@.is_blocked(d@),
    {
        d.taken(&self.destination()) && d.taken(&self.trash())
    }

    /// Puts the old build aside, if there is one, and says whether there was. Fails
    /// where the name it would get is taken by something else.
    pub fn make_way(&self, store: &VersionStore, plan: &mut Plan) -> (r: Result<bool, CoreError>)
        ensures
            r matches Ok(had_previous) ==> !self@.is_blocked(old(plan)@.disk) && had_previous
                == old(plan)@.disk.taken(self@.to()),
            r matches Err(e) ==> self@.is_blocked(old(plan)@.disk) && e@ == occupied(
                store.spot_path(self@.trash()),
            ),
            final(plan)@ == old(plan)@.making_way(self@),
    {
        if self.is_blocked(plan.disk()) {
            return Err(occupied_trash_error(store, &self.trash()));
        }
        if !plan.disk().taken(&self.destination()) {
            return Ok(false);
        }
        plan.step(
            Act::Write { at: self.marker(), contents: self.tag.clone() },
            OnError::Fail,
        );
        plan.step(Act::Rename { from: self.destination(), to: self.trash() }, OnError::Fail);
        Ok(true)
    }

    /// Puts the new build in place.
    pub fn put_in_place(&self, plan: &mut Plan)
        ensures
            final(plan)@ == old(plan)@.placing(self@),
    {
        plan.step(Act::Rename { from: self.staging(), to: self.destination() }, OnError::Fail);
    }

    /// Cleans up once the new build is in place. The marker goes only once the trash it
    /// describes is gone.
    pub fn commit(&self, plan: &mut Plan, had_previous: bool)
        ensures
            final(plan)@ == old(plan)@.committing(self@, had_previous),
    {
        if had_previous {
            discard(plan, self.folder(), self.name.as_str());
        }
    }

    /// Puts the old build back where the new one could not be put in place. The marker
    /// goes only once that worked.
    pub fn roll_back(&self, plan: &mut Plan, had_previous: bool)
        ensures
            final(plan)@ == old(plan)@.rolling_back(self@, had_previous),
    {
        if had_previous {
            plan.step(
                Act::Rename { from: self.trash(), to: self.destination() },
                OnError::SkipNext,
            );
            unmark(plan, self.folder(), self.name.as_str());
        }
    }

    /// Takes the working files away.
    pub fn tidy(&self, plan: &mut Plan, failed: bool)
        ensures
            final(plan)@ == old(plan)@.tidying(self@, failed),
    {
        plan.step(Act::RemoveFile(self.archive()), OnError::Ignore);
        if failed {
            plan.step(Act::RemoveTree(self.staging()), OnError::Ignore);
        }
    }
}

fn occupied_trash_error(store: &VersionStore, at: &Place) -> (e: CoreError)
    ensures
        e@ == occupied(store.spot_path(at@)),
{
    CoreError::Io(
        joined(
            store.place_path(at).as_str(),
            " already exists and is not this install's to replace",
        ),
    )
}

/// Begins to install `tag`: says where, and makes room to unpack it. Debris of earlier
/// installs is to have been recovered, so anything still in the way of the old build
/// belongs to something else, and the install fails before a download is paid for.
pub fn install(store: &VersionStore, plan: &mut Plan, mode: Mode, tag: &str) -> (r: Result<
    Install,
    CoreError,
>)
    ensures
        match install_of(old(plan)@.disk, mode, tag@) {
            Err(e) => r is Err && r->Err_0@ == e && final(plan)@ == old(plan)@,
            Ok(i) => {
                let made = old(plan)@.step(ActView::MakeFolder(i.folder()), OnError::Fail);
                &&& final(plan)@ == old(plan)@.preparing(i)
                &&& r is Err <==> i.is_blocked(made.disk)
                &&& r matches Err(e) ==> e@ == occupied(store.spot_path(i.trash()))
                &&& r matches Ok(install) ==> install@ == i
            },
        },
{
    let safe_tag: String = match sanitize_tag(tag) {
        Ok(name) => name,
        Err(e) => {
            return Err(CoreError::Tag(e));
        },
    };
    let name: String = match mode {
        Mode::MultiVersion => resolve_multi_version_name(plan.disk(), safe_tag.as_str(), tag),
        Mode::Compatible => safe_tag,
    };
    let install = Install { mode, tag: tag.to_owned(), name };
    plan.step(Act::MakeFolder(install.folder()), OnError::Fail);
    if install.is_blocked(plan.disk()) {
        return Err(occupied_trash_error(store, &install.trash()));
    }
    plan.step(Act::RemoveTree(install.staging()), OnError::Ignore);
    Ok(install)
}

// ---------------------------------------------------------------------------
// Launching
// ---------------------------------------------------------------------------

/// The executable to start, where it is there.
pub fn launch(game: GameId, dir: &str, is_there: bool) -> (r: Result<String, CoreError>)
    ensures
        r is Ok <==> is_there,
        r matches Ok(exe) ==> exe@ == game.executable(dir@),
        r matches Err(e) ==> e@ == CoreErrorView::LaunchFailed(
            game.executable(dir@) + " is not installed here"@,
        ),
{
    let exe: String = game.executable_in(dir);
    if is_there {
        Ok(exe)
    } else {
        Err(CoreError::LaunchFailed(joined(exe.as_str(), " is not installed here")))
    }
}

/// How a game is doing a moment after it was started.
#[derive(Debug)]
pub enum Started {
    /// It could not be started.
    Not(String),
    /// It runs, or nobody can tell.
    Runs,
    /// It has come to an end: whether it said that all went well, what its status is
    /// called, and what it wrote about it.
    Ended { success: bool, status: String, stderr: String },
}

/// What is said of a game that gave up.
pub open spec fn gave_up(status: Seq<char>, stderr: Seq<char>) -> Seq<char> {
    if text::trimmed(stderr).len() == 0 {
        "the game exited immediately with "@ + status
    } else {
        text::trimmed(stderr)
    }
}

/// Whether a game was launched: unless it has already given up. A short wait catches an
/// immediate failure, such as missing data files, without holding anybody up for as long
/// as the game runs.
pub fn launched(started: Started) -> (r: Result<(), CoreError>)
    ensures
        error::core_outcome(r) == match started {
            Started::Not(e) => Err(CoreErrorView::LaunchFailed(e@)),
            Started::Runs => Ok(()),
            Started::Ended { success, status, stderr } => if success {
                Ok(())
            } else {
                Err(CoreErrorView::LaunchFailed(gave_up(status@, stderr@)))
            },
        },
{
    match started {
        Started::Not(e) => Err(CoreError::LaunchFailed(e)),
        Started::Runs => Ok(()),
        Started::Ended { success, status, stderr } => {
            if success {
                return Ok(());
            }
            let said: Vec<char> = trim(&chars_of(stderr.as_str()));
            if said.len() == 0 {
                Err(
                    CoreError::LaunchFailed(
                        joined("the game exited immediately with ", status.as_str()),
                    ),
                )
            } else {
                Err(CoreError::LaunchFailed(text_of(&said)))
            }
        },
    }
}

} // verus!
