//! A game's directory as it was read, what can be done to it, and what becomes of it.
//!
//! Nothing here touches a disk. Whoever can reads a directory into a `Disk`; the
//! library decides on it and writes down the steps it wants taken, each with what a
//! failure of it means; and the steps are then taken for real, in their order.

use vstd::prelude::*;

use crate::search;
use crate::text;
use crate::text::{chars_of, part, same, starts_with, text_of};

verus! {

broadcast use vstd::string::group_string_axioms;

// ---------------------------------------------------------------------------
// What is there
// ---------------------------------------------------------------------------

/// The two directories that hold anything of interest.
#[derive(Debug, Clone, Copy, PartialEq, Eq, Structural)]
pub enum Folder {
    /// The game's own directory.
    Game,
    /// The directory `versions` in it.
    Versions,
}

/// An entry of one of the two directories.
#[derive(Debug, PartialEq, Eq)]
pub struct Place {
    pub folder: Folder,
    pub name: String,
}

/// An entry, by its directory and its name.
pub struct Spot {
    pub folder: Folder,
    pub name: Seq<char>,
}

impl View for Place {
    type V = Spot;

    open spec fn view(&self) -> Spot {
        Spot { folder: self.folder, name: self.name@ }
    }
}

impl Clone for Place {
    fn clone(&self) -> (r: Place)
        ensures
            r@ == self@,
    {
        Place { folder: self.folder, name: self.name.clone() }
    }
}

/// The entry `name` of a directory.
pub fn place(folder: Folder, name: &str) -> (p: Place)
    ensures
        p@ == (Spot { folder, name: name@ }),
{
    Place { folder, name: name.to_owned() }
}

/// Whether two entries are the same one.
pub fn same_place(a: &Place, b: &Place) -> (r: bool)
    ensures
        r == (a@ == b@),
{
    a.folder == b.folder && same(a.name.as_str(), b.name.as_str())
}

/// What a directory holds, as far as anything depends on it.
#[derive(Debug, PartialEq, Eq)]
pub struct Build {
    /// The text of its `.version` file, if that can be read.
    pub version: Option<String>,
    /// Whether the game's executable is in it.
    pub launches: bool,
    /// How much it takes up.
    pub bytes: u64,
}

/// What a directory holds.
pub struct BuildView {
    pub version: Option<Seq<char>>,
    pub launches: bool,
    pub bytes: u64,
}

impl View for Build {
    type V = BuildView;

    open spec fn view(&self) -> BuildView {
        BuildView {
            version: text::opt_view(self.version),
            launches: self.launches,
            bytes: self.bytes,
        }
    }
}

/// A copy of a text that may be missing.
pub fn copy_text(s: &Option<String>) -> (r: Option<String>)
    ensures
        text::opt_view(r) == text::opt_view(*s),
{
    match s {
        Some(s) => Some(s.clone()),
        None => None,
    }
}

impl Clone for Build {
    fn clone(&self) -> (r: Build)
        ensures
            r@ == self@,
    {
        Build {
            version: copy_text(&self.version),
            launches: self.launches,
            bytes: self.bytes,
        }
    }
}

/// What is found by following an entry to where it leads.
#[derive(Debug, PartialEq, Eq)]
pub enum Landing {
    Nothing,
    Dir(Build),
    /// A file, with its text if that can be read.
    File(Option<String>),
}

/// What is found by following an entry.
pub enum LandingView {
    Nothing,
    Dir(BuildView),
    File(Option<Seq<char>>),
}

impl View for Landing {
    type V = LandingView;

    open spec fn view(&self) -> LandingView {
        match *self {
            Landing::Nothing => LandingView::Nothing,
            Landing::Dir(build) => LandingView::Dir(build@),
            Landing::File(contents) => LandingView::File(text::opt_view(contents)),
        }
    }
}

impl Clone for Landing {
    fn clone(&self) -> (r: Landing)
        ensures
            r@ == self@,
    {
        match self {
            Landing::Nothing => Landing::Nothing,
            Landing::Dir(build) => Landing::Dir(build.clone()),
            Landing::File(contents) => Landing::File(copy_text(contents)),
        }
    }
}

/// What an entry itself is. `modified` is when it was last changed, in nanoseconds
/// since the epoch, where that is known.
#[derive(Debug, PartialEq, Eq)]
pub enum Node {
    Dir { build: Build, modified: Option<u64> },
    /// A symbolic link. `outside` is where it led when it was read; a link of the
    /// game's directory into `versions` is followed within the `Disk` instead.
    Link { target: String, outside: Landing, modified: Option<u64> },
    File { contents: Option<String>, modified: Option<u64> },
}

/// What an entry is.
pub enum NodeView {
    Dir { build: BuildView, modified: Option<u64> },
    Link { target: Seq<char>, outside: LandingView, modified: Option<u64> },
    File { contents: Option<Seq<char>>, modified: Option<u64> },
}

impl View for Node {
    type V = NodeView;

    open spec fn view(&self) -> NodeView {
        match *self {
            Node::Dir { build, modified } => NodeView::Dir { build: build@, modified },
            Node::Link { target, outside, modified } => NodeView::Link {
                target: target@,
                outside: outside@,
                modified,
            },
            Node::File { contents, modified } => NodeView::File {
                contents: text::opt_view(contents),
                modified,
            },
        }
    }
}

impl Clone for Node {
    fn clone(&self) -> (r: Node)
        ensures
            r@ == self@,
    {
        match self {
            Node::Dir { build, modified } => Node::Dir {
                build: build.clone(),
                modified: *modified,
            },
            Node::Link { target, outside, modified } => Node::Link {
                target: target.clone(),
                outside: outside.clone(),
                modified: *modified,
            },
            Node::File { contents, modified } => Node::File {
                contents: copy_text(contents),
                modified: *modified,
            },
        }
    }
}

/// An entry and what it is.
#[derive(Debug, PartialEq, Eq)]
pub struct Entry {
    pub place: Place,
    pub node: Node,
}

/// An entry and what it is.
pub struct EntryView {
    pub spot: Spot,
    pub node: NodeView,
}

impl View for Entry {
    type V = EntryView;

    open spec fn view(&self) -> EntryView {
        EntryView { spot: self.place@, node: self.node@ }
    }
}

/// What each entry is.
pub open spec fn entry_views(v: Seq<Entry>) -> Seq<EntryView> {
    Seq::new(v.len(), |i: int| v[i]@)
}

/// A game's directory: its own entries and those of its directory `versions`.
#[derive(Debug)]
pub struct Disk {
    entries: Vec<Entry>,
    has_versions: bool,
    versions_dir: String,
}

/// A game's directory, as it is.
#[verifier::ext_equal]
pub struct DiskView {
    /// The entries in the order they were read.
    pub entries: Seq<EntryView>,
    /// Whether there is a directory `versions`.
    pub has_versions: bool,
    /// The path of the directory `versions`.
    pub versions_dir: Seq<char>,
}

impl View for Disk {
    type V = DiskView;

    closed spec fn view(&self) -> DiskView {
        DiskView {
            entries: entry_views(self.entries@),
            has_versions: self.has_versions,
            versions_dir: self.versions_dir@,
        }
    }
}

/// The name of the version a link of the game's directory leads to, where its target
/// is written as an entry of `versions`.
pub open spec fn linked_version(target: Seq<char>, versions_dir: Seq<char>) -> Option<Seq<char>> {
    let short = "versions/"@;
    let long = versions_dir + seq!['/'];
    if text::begins(target, short) && crate::path::is_plain(target.skip(short.len() as int)) {
        Some(target.skip(short.len() as int))
    } else if text::begins(target, long) && crate::path::is_plain(target.skip(long.len() as int)) {
        Some(target.skip(long.len() as int))
    } else {
        None
    }
}

impl DiskView {
    /// Where in the order an entry is, or the number of entries.
    pub open spec fn index(self, spot: Spot) -> int {
        search::first_that(
            |i: int| self.entries[i].spot == spot,
            0,
            self.entries.len() as int,
        )
    }

    /// What an entry is, if there is one of that name.
    pub open spec fn node(self, spot: Spot) -> Option<NodeView> {
        let i = self.index(spot);
        if i < self.entries.len() {
            Some(self.entries[i].node)
        } else {
            None
        }
    }

    /// Whether a name is taken, by whatever it may be.
    pub open spec fn taken(self, spot: Spot) -> bool {
        self.node(spot) is Some
    }

    pub open spec fn is_dir(self, spot: Spot) -> bool {
        self.node(spot) matches Some(node) && node is Dir
    }

    pub open spec fn is_link(self, spot: Spot) -> bool {
        self.node(spot) matches Some(node) && node is Link
    }

    /// What is found by following an entry.
    pub open spec fn landing(self, spot: Spot) -> LandingView {
        match self.node(spot) {
            None => LandingView::Nothing,
            Some(NodeView::Dir { build, .. }) => LandingView::Dir(build),
            Some(NodeView::File { contents, .. }) => LandingView::File(contents),
            Some(NodeView::Link { target, outside, .. }) => match linked_version(
                target,
                self.versions_dir,
            ) {
                Some(name) if spot.folder == Folder::Game => match self.node(
                    Spot { folder: Folder::Versions, name },
                ) {
                    None => LandingView::Nothing,
                    Some(NodeView::Dir { build, .. }) => LandingView::Dir(build),
                    Some(NodeView::File { contents, .. }) => LandingView::File(contents),
                    Some(NodeView::Link { outside, .. }) => outside,
                },
                _ => outside,
            },
        }
    }

    /// Whether an entry leads to a real directory.
    pub open spec fn resolves(self, spot: Spot) -> bool {
        self.landing(spot) is Dir
    }

    /// Whether an entry leads to anything.
    pub open spec fn leads_somewhere(self, spot: Spot) -> bool {
        !(self.landing(spot) is Nothing)
    }

    /// Whether no name is there twice.
    pub open spec fn is_proper(self) -> bool {
        forall|i: int, j: int|
            0 <= i < j < self.entries.len() ==> (#[trigger] self.entries[i]).spot != (
            #[trigger] self.entries[j]).spot
    }

    /// The directory without an entry.
    pub open spec fn without(self, spot: Spot) -> DiskView {
        let i = self.index(spot);
        if i < self.entries.len() {
            DiskView { entries: self.entries.remove(i), ..self }
        } else {
            self
        }
    }

    /// The directory with an entry that is `node`, in place of the one there was.
    pub open spec fn with(self, spot: Spot, node: NodeView) -> DiskView {
        let i = self.index(spot);
        if i < self.entries.len() {
            DiskView { entries: self.entries.update(i, EntryView { spot, node }), ..self }
        } else {
            DiskView { entries: self.entries.push(EntryView { spot, node }), ..self }
        }
    }
}

// ---------------------------------------------------------------------------
// What can be done
// ---------------------------------------------------------------------------

/// One thing to do to the directory.
#[derive(Debug, PartialEq, Eq)]
pub enum Act {
    /// Make one of the two directories, with those above it, where it is missing.
    MakeFolder(Folder),
    /// Remove a file or a link.
    RemoveFile(Place),
    /// Remove a directory with all that is in it, or a link.
    RemoveTree(Place),
    Rename { from: Place, to: Place },
    /// Make a symbolic link.
    Symlink { at: Place, target: String },
    /// Write a file.
    Write { at: Place, contents: String },
}

/// One thing to do.
pub enum ActView {
    MakeFolder(Folder),
    RemoveFile(Spot),
    RemoveTree(Spot),
    Rename { from: Spot, to: Spot },
    Symlink { at: Spot, target: Seq<char> },
    Write { at: Spot, contents: Seq<char> },
}

impl View for Act {
    type V = ActView;

    open spec fn view(&self) -> ActView {
        match *self {
            Act::MakeFolder(folder) => ActView::MakeFolder(folder),
            Act::RemoveFile(place) => ActView::RemoveFile(place@),
            Act::RemoveTree(place) => ActView::RemoveTree(place@),
            Act::Rename { from, to } => ActView::Rename { from: from@, to: to@ },
            Act::Symlink { at, target } => ActView::Symlink { at: at@, target: target@ },
            Act::Write { at, contents } => ActView::Write { at: at@, contents: contents@ },
        }
    }
}

/// What a failure of a step means.
#[derive(Debug, Clone, Copy, PartialEq, Eq, Structural)]
pub enum OnError {
    /// The whole operation fails, and no later step is taken.
    Fail,
    /// Nothing.
    Ignore,
    /// The step after it is left out.
    SkipNext,
}

/// One step: something to do, and what a failure of it means.
#[derive(Debug, PartialEq, Eq)]
pub struct Step {
    pub act: Act,
    pub on_error: OnError,
}

/// One step.
pub struct StepView {
    pub act: ActView,
    pub on_error: OnError,
}

impl View for Step {
    type V = StepView;

    open spec fn view(&self) -> StepView {
        StepView { act: self.act@, on_error: self.on_error }
    }
}

/// What each step is.
pub open spec fn step_views(v: Seq<Step>) -> Seq<StepView> {
    Seq::new(v.len(), |i: int| v[i]@)
}

impl DiskView {
    /// Whether the directory an entry would be in is there.
    pub open spec fn has_folder(self, folder: Folder) -> bool {
        folder == Folder::Game || self.has_versions
    }

    /// Whether something can be done, as things stand. Making a directory is taken to
    /// work, and a directory is taken to be never empty, so that nothing can be renamed
    /// over one.
    pub open spec fn allows(self, act: ActView) -> bool {
        match act {
            ActView::MakeFolder(_) => true,
            ActView::RemoveFile(spot) => self.taken(spot) && !self.is_dir(spot),
            ActView::RemoveTree(spot) => self.is_dir(spot) || self.is_link(spot),
            ActView::Rename { from, to } => self.taken(from) && self.has_folder(to.folder)
                && !self.is_dir(to) && (self.is_dir(from) ==> !self.taken(to)),
            ActView::Symlink { at, .. } => self.has_folder(at.folder) && !self.taken(at),
            ActView::Write { at, .. } => self.has_folder(at.folder) && !(self.landing(at) is Dir),
        }
    }

    /// What becomes of the directory when something is done to it that it allows. When
    /// something new was last changed is not known until it is read again.
    pub open spec fn after(self, act: ActView) -> DiskView {
        match act {
            ActView::MakeFolder(folder) => DiskView {
                has_versions: self.has_versions || folder == Folder::Versions,
                ..self
            },
            ActView::RemoveFile(spot) => self.without(spot),
            ActView::RemoveTree(spot) => self.without(spot),
            ActView::Rename { from, to } => if from == to {
                self
            } else {
                self.without(from).with(to, self.node(from)->0)
            },
            ActView::Symlink { at, target } => self.with(
                at,
                NodeView::Link { target, outside: LandingView::Nothing, modified: None },
            ),
            ActView::Write { at, contents } => match self.node(at) {
                Some(NodeView::Link { target, .. }) => self.with(
                    at,
                    NodeView::Link {
                        target,
                        outside: LandingView::File(Some(contents)),
                        modified: None,
                    },
                ),
                _ => self.with(
                    at,
                    NodeView::File { contents: Some(contents), modified: None },
                ),
            },
        }
    }
}

// ---------------------------------------------------------------------------
// Plans
// ---------------------------------------------------------------------------

/// Steps to take, and the directory as it will be once they have been taken.
#[verifier::ext_equal]
pub struct PlanView {
    pub disk: DiskView,
    pub steps: Seq<StepView>,
    /// Whether the next step is left out, because the one before it failed.
    pub skipping: bool,
    /// Whether the operation has failed, so that no more steps are taken.
    pub failed: bool,
}

impl PlanView {
    /// The plan with one more step.
    pub open spec fn step(self, act: ActView, on_error: OnError) -> PlanView {
        let steps = self.steps.push(StepView { act, on_error });
        if self.failed {
            PlanView { steps, ..self }
        } else if self.skipping {
            PlanView { steps, skipping: false, ..self }
        } else if self.disk.allows(act) {
            PlanView { steps, disk: self.disk.after(act), ..self }
        } else {
            PlanView {
                steps,
                skipping: on_error == OnError::SkipNext,
                failed: on_error == OnError::Fail,
                ..self
            }
        }
    }

    /// The plan with more steps.
    pub open spec fn steps(self, more: Seq<StepView>) -> PlanView
        decreases more.len(),
    {
        if more.len() == 0 {
            self
        } else {
            self.steps(more.drop_last()).step(more.last().act, more.last().on_error)
        }
    }
}

/// A plan that holds no step yet.
pub open spec fn no_steps(disk: DiskView) -> PlanView {
    PlanView { disk, steps: seq![], skipping: false, failed: false }
}

/// A plan is what its steps make of the directory it began with.
pub open spec fn replays(start: DiskView, plan: PlanView) -> bool {
    plan == no_steps(start).steps(plan.steps)
}

/// Steps to take, and the directory as it will be.
#[derive(Debug)]
pub struct Plan {
    disk: Disk,
    steps: Vec<Step>,
    skipping: bool,
    failed: bool,
}

impl View for Plan {
    type V = PlanView;

    closed spec fn view(&self) -> PlanView {
        PlanView {
            disk: self.disk@,
            steps: step_views(self.steps@),
            skipping: self.skipping,
            failed: self.failed,
        }
    }
}

// ---------------------------------------------------------------------------
// Doing it
// ---------------------------------------------------------------------------

impl Disk {
    /// A directory in which nothing has been found yet. `versions_dir` is the path of
    /// its directory `versions`, and `has_versions` whether that is there.
    pub fn new(versions_dir: &str, has_versions: bool) -> (d: Disk)
        ensures
            d@ == (DiskView { entries: seq![], has_versions, versions_dir: versions_dir@ }),
            d@.is_proper(),
    {
        let d = Disk { entries: Vec::new(), has_versions, versions_dir: versions_dir.to_owned() };
        assert(d@.entries =~= seq![]);
        d
    }

    fn find(&self, at: &Place) -> (i: usize)
        ensures
            i == self@.index(at@),
            i <= self.entries@.len(),
            self@.entries.len() == self.entries@.len(),
    {
        let ghost all = self@.entries;
        let ghost p = |i: int| self@.entries[i].spot == at@;
        let mut i: usize = 0;
        while i < self.entries.len() && !same_place(&self.entries[i].place, at)
            invariant
                i <= self.entries.len(),
                all == self@.entries,
                p == (|i: int| self@.entries[i].spot == at@),
                forall|j: int| 0 <= j < i ==> !#[trigger] p(j),
            decreases self.entries.len() - i,
        {
            i += 1;
        }
        proof {
            search::first_that_is(p, 0, all.len() as int, i as int);
        }
        i
    }

    /// What an entry is, if there is one of that name.
    pub fn node(&self, at: &Place) -> (r: Option<&Node>)
        ensures
            r is Some <==> self@.node(at@) is Some,
            r matches Some(node) ==> self@.node(at@) == Some(node@),
    {
        let i: usize = self.find(at);
        if i < self.entries.len() {
            Some(&self.entries[i].node)
        } else {
            None
        }
    }

    /// Whether a name is taken, by whatever it may be.
    pub fn taken(&self, at: &Place) -> (r: bool)
        ensures
            r == self@.taken(at@),
    {
        self.node(at).is_some()
    }

    /// Whether an entry is a directory itself.
    pub fn is_dir(&self, at: &Place) -> (r: bool)
        ensures
            r == self@.is_dir(at@),
    {
        match self.node(at) {
            Some(Node::Dir { .. }) => true,
            _ => false,
        }
    }

    /// Whether an entry is a link itself.
    pub fn is_link(&self, at: &Place) -> (r: bool)
        ensures
            r == self@.is_link(at@),
    {
        match self.node(at) {
            Some(Node::Link { .. }) => true,
            _ => false,
        }
    }

    /// What is found by following an entry.
    pub fn landing(&self, at: &Place) -> (r: Landing)
        ensures
            r@ == self@.landing(at@),
    {
        match self.node(at) {
            None => Landing::Nothing,
            Some(Node::Dir { build, .. }) => Landing::Dir(build.clone()),
            Some(Node::File { contents, .. }) => Landing::File(copy_text(contents)),
            Some(Node::Link { target, outside, .. }) => {
                let name: Option<String> = version_linked(
                    target.as_str(),
                    self.versions_dir.as_str(),
                );
                match name {
                    Some(name) => {
                        if at.folder == Folder::Game {
                            match self.node(&Place { folder: Folder::Versions, name }) {
                                None => Landing::Nothing,
                                Some(Node::Dir { build, .. }) => Landing::Dir(build.clone()),
                                Some(Node::File { contents, .. }) => Landing::File(
                                    copy_text(contents),
                                ),
                                Some(Node::Link { outside, .. }) => outside.clone(),
                            }
                        } else {
                            outside.clone()
                        }
                    },
                    None => outside.clone(),
                }
            },
        }
    }

    /// Whether an entry leads to a real directory.
    pub fn resolves(&self, at: &Place) -> (r: bool)
        ensures
            r == self@.resolves(at@),
    {
        match self.landing(at) {
            Landing::Dir(_) => true,
            _ => false,
        }
    }

    /// Whether an entry leads to anything.
    pub fn leads_somewhere(&self, at: &Place) -> (r: bool)
        ensures
            r == self@.leads_somewhere(at@),
    {
        match self.landing(at) {
            Landing::Nothing => false,
            _ => true,
        }
    }

    /// Whether there is a directory `versions`.
    pub fn has_versions(&self) -> (r: bool)
        ensures
            r == self@.has_versions,
    {
        self.has_versions
    }

    /// The entries, in the order they were read.
    pub fn entries(&self) -> (r: &Vec<Entry>)
        ensures
            entry_views(r@) == self@.entries,
    {
        &self.entries
    }

    /// Puts an entry in the place of the one there was.
    pub fn put(&mut self, at: Place, node: Node)
        ensures
            final(self)@ == old(self)@.with(at@, node@),
            old(self)@.is_proper() ==> final(self)@.is_proper(),
    {
        let ghost before = self@;
        proof {
            with_is_proper(before, at@, node@);
        }
        let i: usize = self.find(&at);
        let entry = Entry { place: at, node };
        if i < self.entries.len() {
            self.entries.set(i, entry);
            assert(self@.entries =~= before.entries.update(i as int, entry@));
        } else {
            self.entries.push(entry);
            assert(self@.entries =~= before.entries.push(entry@));
        }
    }

    /// Takes an entry away.
    fn take(&mut self, at: &Place)
        ensures
            final(self)@ == old(self)@.without(at@),
            old(self)@.is_proper() ==> final(self)@.is_proper(),
    {
        let ghost before = self@;
        proof {
            without_is_proper(before, at@);
        }
        let i: usize = self.find(at);
        if i < self.entries.len() {
            self.entries.remove(i);
            assert(self@.entries =~= before.entries.remove(i as int));
        }
    }

    /// Whether something can be done, as things stand.
    fn allows(&self, act: &Act) -> (r: bool)
        ensures
            r == self@.allows(act@),
    {
        match act {
            Act::MakeFolder(_) => true,
            Act::RemoveFile(at) => self.taken(at) && !self.is_dir(at),
            Act::RemoveTree(at) => self.is_dir(at) || self.is_link(at),
            Act::Rename { from, to } => self.taken(from) && self.has_folder(to.folder)
                && !self.is_dir(to) && (!self.is_dir(from) || !self.taken(to)),
            Act::Symlink { at, .. } => self.has_folder(at.folder) && !self.taken(at),
            Act::Write { at, .. } => self.has_folder(at.folder) && !self.resolves(at),
        }
    }

    fn has_folder(&self, folder: Folder) -> (r: bool)
        ensures
            r == self@.has_folder(folder),
    {
        folder == Folder::Game || self.has_versions
    }

    /// Does something to the directory that it allows.
    fn apply(&mut self, act: &Act)
        requires
            old(self)@.allows(act@),
        ensures
            final(self)@ == old(self)@.after(act@),
            old(self)@.is_proper() ==> final(self)@.is_proper(),
    {
        match act {
            Act::MakeFolder(folder) => {
                self.has_versions = self.has_versions || *folder == Folder::Versions;
            },
            Act::RemoveFile(at) => self.take(at),
            Act::RemoveTree(at) => self.take(at),
            Act::Rename { from, to } => {
                if !same_place(from, to) {
                    let node: Node = match self.node(from) {
                        Some(node) => node.clone(),
                        None => Node::File { contents: None, modified: None },
                    };
                    self.take(from);
                    self.put(to.clone(), node);
                }
            },
            Act::Symlink { at, target } => {
                self.put(
                    at.clone(),
                    Node::Link {
                        target: target.clone(),
                        outside: Landing::Nothing,
                        modified: None,
                    },
                );
            },
            Act::Write { at, contents } => {
                let node: Node = match self.node(at) {
                    Some(Node::Link { target, .. }) => Node::Link {
                        target: target.clone(),
                        outside: Landing::File(Some(contents.clone())),
                        modified: None,
                    },
                    _ => Node::File { contents: Some(contents.clone()), modified: None },
                };
                self.put(at.clone(), node);
            },
        }
    }
}

/// The name of the version a link leads to, where its target is written as an entry of
/// `versions`.
fn version_linked(target: &str, versions_dir: &str) -> (r: Option<String>)
    ensures
        text::opt_view(r) == linked_version(target@, versions_dir@),
{
    let t: Vec<char> = chars_of(target);
    let short: Vec<char> = chars_of("versions/");
    if starts_with(&t, &short) {
        assert(t@.subrange(short@.len() as int, t@.len() as int) == t@.skip(short@.len() as int));
        let rest: String = text_of(&part(&t, short.len(), t.len()));
        if crate::path::plain(rest.as_str()) {
            return Some(rest);
        }
    }
    let mut long: Vec<char> = chars_of(versions_dir);
    long.push('/');
    assert(long@ == versions_dir@ + seq!['/']);
    if starts_with(&t, &long) {
        assert(t@.subrange(long@.len() as int, t@.len() as int) == t@.skip(long@.len() as int));
        let rest: String = text_of(&part(&t, long.len(), t.len()));
        if crate::path::plain(rest.as_str()) {
            return Some(rest);
        }
    }
    None
}

impl Plan {
    /// A plan that holds no step yet.
    pub fn new(disk: Disk) -> (p: Plan)
        ensures
            p@ == no_steps(disk@),
    {
        let p = Plan { disk, steps: Vec::new(), skipping: false, failed: false };
        assert(p@.steps =~= seq![]);
        p
    }

    /// The directory as it will be.
    pub fn disk(&self) -> (d: &Disk)
        ensures
            d@ == self@.disk,
    {
        &self.disk
    }

    /// The steps to take.
    pub fn taken_steps(&self) -> (s: &Vec<Step>)
        ensures
            step_views(s@) == self@.steps,
    {
        &self.steps
    }

    /// Whether the operation is bound to fail, as things stand.
    pub fn failed(&self) -> (r: bool)
        ensures
            r == self@.failed,
    {
        self.failed
    }

    /// Adds a step.
    pub fn step(&mut self, act: Act, on_error: OnError)
        ensures
            final(self)@ == old(self)@.step(act@, on_error),
            old(self)@.disk.is_proper() ==> final(self)@.disk.is_proper(),
    {
        let ghost before = self@;
        if self.failed {
        } else if self.skipping {
            self.skipping = false;
        } else if self.disk.allows(&act) {
            self.disk.apply(&act);
        } else {
            self.skipping = on_error == OnError::SkipNext;
            self.failed = on_error == OnError::Fail;
        }
        let ghost view = act@;
        self.steps.push(Step { act, on_error });
        assert(self@.steps =~= before.steps.push(StepView { act: view, on_error }));
    }
}

// ---------------------------------------------------------------------------
// What follows
// ---------------------------------------------------------------------------

/// Where an entry is in the order.
pub proof fn index_is_first(d: DiskView, spot: Spot)
    ensures
        0 <= d.index(spot) <= d.entries.len(),
        d.index(spot) < d.entries.len() ==> d.entries[d.index(spot)].spot == spot,
        forall|j: int| 0 <= j < d.index(spot) ==> (#[trigger] d.entries[j]).spot != spot,
{
    let p = |i: int| d.entries[i].spot == spot;
    search::first_that_is_first(p, 0, d.entries.len() as int);
    assert forall|j: int| 0 <= j < d.index(spot) implies (#[trigger] d.entries[j]).spot != spot by {
        assert(!p(j));
    }
}

/// An entry is where it is found, and nowhere else in a directory without doubles.
proof fn index_is(d: DiskView, spot: Spot, at: int)
    requires
        0 <= at <= d.entries.len(),
        at < d.entries.len() ==> d.entries[at].spot == spot,
        forall|j: int| 0 <= j < at ==> (#[trigger] d.entries[j]).spot != spot,
    ensures
        d.index(spot) == at,
{
    let p = |i: int| d.entries[i].spot == spot;
    assert forall|j: int| 0 <= j < at implies !#[trigger] p(j) by {
        assert(d.entries[j].spot != spot);
    }
    search::first_that_is(p, 0, d.entries.len() as int, at);
}

pub(crate) proof fn with_is_proper(d: DiskView, spot: Spot, node: NodeView)
    ensures
        d.is_proper() ==> d.with(spot, node).is_proper(),
{
    index_is_first(d, spot);
}

proof fn without_is_proper(d: DiskView, spot: Spot)
    ensures
        d.is_proper() ==> d.without(spot).is_proper(),
{
    index_is_first(d, spot);
    if d.is_proper() && d.index(spot) < d.entries.len() {
        let at = d.index(spot);
        let e = d.without(spot).entries;
        assert forall|i: int, j: int| 0 <= i < j < e.len() implies (#[trigger] e[i]).spot != (
        #[trigger] e[j]).spot by {
            let a = if i < at {
                i
            } else {
                i + 1
            };
            let b = if j < at {
                j
            } else {
                j + 1
            };
            assert(e[i] == d.entries[a] && e[j] == d.entries[b]);
        }
    }
}

/// What an entry is depends on nothing but the entries.
pub proof fn same_entries_same_nodes(a: DiskView, b: DiskView, spot: Spot)
    requires
        a.entries == b.entries,
    ensures
        a.node(spot) == b.node(spot),
        a.index(spot) == b.index(spot),
{
    index_is_first(a, spot);
    index_is(b, spot, a.index(spot));
}

/// Putting an entry changes that entry and no other.
pub proof fn node_after_with(d: DiskView, spot: Spot, node: NodeView, other: Spot)
    ensures
        d.with(spot, node).node(spot) == Some(node),
        other != spot ==> d.with(spot, node).node(other) == d.node(other),
{
    let e = d.with(spot, node);
    index_is_first(d, spot);
    index_is_first(d, other);
    index_is(e, spot, d.index(spot));
    if other != spot {
        let at = d.index(other);
        if at < d.entries.len() {
            index_is(e, other, at);
        } else {
            index_is(e, other, e.entries.len() as int);
        }
    }
}

/// Taking an entry away changes that entry and no other.
pub proof fn node_after_without(d: DiskView, spot: Spot, other: Spot)
    requires
        d.is_proper(),
    ensures
        d.without(spot).node(spot) is None,
        other != spot ==> d.without(spot).node(other) == d.node(other),
{
    let e = d.without(spot);
    index_is_first(d, spot);
    index_is_first(d, other);
    let gone = d.index(spot);
    if gone < d.entries.len() {
        assert forall|j: int| 0 <= j < e.entries.len() implies (#[trigger] e.entries[j]).spot
            != spot by {
            let k = if j < gone {
                j
            } else {
                j + 1
            };
            assert(e.entries[j] == d.entries[k]);
        }
        index_is(e, spot, e.entries.len() as int);
        if other != spot {
            let at = d.index(other);
            let new_at = if at < gone {
                at
            } else {
                at - 1
            };
            assert forall|j: int| 0 <= j < new_at implies (#[trigger] e.entries[j]).spot
                != other by {
                let k = if j < gone {
                    j
                } else {
                    j + 1
                };
                assert(e.entries[j] == d.entries[k]);
            }
            if at < d.entries.len() {
                assert(e.entries[new_at] == d.entries[at]);
            }
            index_is(e, other, new_at);
        }
    }
}

/// No step makes a name stand there twice.
pub proof fn steps_stay_proper(plan: PlanView, act: ActView, on_error: OnError)
    ensures
        plan.disk.is_proper() ==> plan.step(act, on_error).disk.is_proper(),
{
    let d = plan.disk;
    if d.is_proper() {
        match act {
            ActView::RemoveFile(spot) => without_is_proper(d, spot),
            ActView::RemoveTree(spot) => without_is_proper(d, spot),
            ActView::Rename { from, to } => {
                without_is_proper(d, from);
                with_is_proper(d.without(from), to, d.node(from)->0);
            },
            ActView::Symlink { at, target } => with_is_proper(
                d,
                at,
                NodeView::Link { target, outside: LandingView::Nothing, modified: None },
            ),
            ActView::Write { at, contents } => {
                with_is_proper(d, at, NodeView::File { contents: Some(contents), modified: None });
                match d.node(at) {
                    Some(NodeView::Link { target, .. }) => with_is_proper(
                        d,
                        at,
                        NodeView::Link {
                            target,
                            outside: LandingView::File(Some(contents)),
                            modified: None,
                        },
                    ),
                    _ => {},
                }
            },
            _ => {},
        }
    }
}

/// A plan that holds no step yet is what no steps make of its directory.
pub proof fn plans_begin_as_found(start: DiskView)
    ensures
        replays(start, no_steps(start)),
{
}

/// Adding a step keeps that: the directory a plan foresees is always what its steps, taken
/// in their order from the beginning, make of the directory that was found.
pub proof fn plans_are_their_steps(start: DiskView, plan: PlanView, act: ActView, on_error: OnError)
    requires
        replays(start, plan),
    ensures
        replays(start, plan.step(act, on_error)),
{
    let after = plan.step(act, on_error);
    assert(after.steps.drop_last() =~= plan.steps);
    assert(after.steps.last() == (StepView { act, on_error }));
}

/// A step that can be taken does to its entries what it says, and nothing to the others.
pub proof fn steps_do_what_they_say(plan: PlanView, act: ActView, on_error: OnError, other: Spot)
    requires
        !plan.failed,
        !plan.skipping,
        plan.disk.is_proper(),
        plan.disk.allows(act),
    ensures
        ({
            let after = plan.step(act, on_error);
            &&& !after.failed && !after.skipping
            &&& after.steps == plan.steps.push(StepView { act, on_error })
            &&& act matches ActView::RemoveFile(spot) ==> after.disk.node(spot) is None && (other
                != spot ==> after.disk.node(other) == plan.disk.node(other))
            &&& act matches ActView::RemoveTree(spot) ==> after.disk.node(spot) is None && (other
                != spot ==> after.disk.node(other) == plan.disk.node(other))
            &&& act matches ActView::Rename { from, to } ==> after.disk.node(to) == plan.disk.node(
                from,
            ) && (from != to ==> after.disk.node(from) is None) && (other != from && other != to
                ==> after.disk.node(other) == plan.disk.node(other))
            &&& act matches ActView::Symlink { at, target } ==> after.disk.node(at) == Some(
                NodeView::Link { target, outside: LandingView::Nothing, modified: None },
            ) && (other != at ==> after.disk.node(other) == plan.disk.node(other))
            &&& act matches ActView::Write { at, contents } ==> (other != at ==> after.disk.node(
                other,
            ) == plan.disk.node(other)) && (!(plan.disk.is_link(at)) ==> after.disk.node(at)
                == Some(NodeView::File { contents: Some(contents), modified: None }))
            &&& act matches ActView::MakeFolder(folder) ==> after.disk.node(other)
                == plan.disk.node(other) && (folder == Folder::Versions ==> after.disk.has_versions)
            &&& after.disk.versions_dir == plan.disk.versions_dir
        }),
{
    match act {
        ActView::RemoveFile(spot) => node_after_without(plan.disk, spot, other),
        ActView::RemoveTree(spot) => node_after_without(plan.disk, spot, other),
        ActView::Rename { from, to } => {
            if from != to {
                let gone = plan.disk.without(from);
                let node = plan.disk.node(from)->0;
                node_after_without(plan.disk, from, other);
                node_after_with(gone, to, node, other);
                node_after_with(gone, to, node, from);
            }
        },
        ActView::Symlink { at, target } => node_after_with(
            plan.disk,
            at,
            NodeView::Link { target, outside: LandingView::Nothing, modified: None },
            other,
        ),
        ActView::Write { at, contents } => {
            node_after_with(
                plan.disk,
                at,
                NodeView::File { contents: Some(contents), modified: None },
                other,
            );
            if let Some(NodeView::Link { target, .. }) = plan.disk.node(at) {
                node_after_with(
                    plan.disk,
                    at,
                    NodeView::Link {
                        target,
                        outside: LandingView::File(Some(contents)),
                        modified: None,
                    },
                    other,
                );
            }
        },
        ActView::MakeFolder(folder) => same_entries_same_nodes(
            plan.disk,
            plan.disk.after(act),
            other,
        ),
    }
}

/// A step that cannot be taken changes nothing on disk. It ends the operation, is passed
/// over, or has the step behind it left out, as it says; and after an operation has ended
/// no step does anything.
pub proof fn steps_that_cannot_be_taken(plan: PlanView, act: ActView, on_error: OnError)
    ensures
        plan.failed ==> plan.step(act, on_error).disk == plan.disk && plan.step(
            act,
            on_error,
        ).failed,
        !plan.failed && plan.skipping ==> plan.step(act, on_error).disk == plan.disk && !plan.step(
            act,
            on_error,
        ).skipping && !plan.step(act, on_error).failed,
        !plan.failed && !plan.skipping && !plan.disk.allows(act) ==> {
            let after = plan.step(act, on_error);
            &&& after.disk == plan.disk
            &&& after.failed == (on_error == OnError::Fail)
            &&& after.skipping == (on_error == OnError::SkipNext)
        },
{
}

/// What can be done to what is there: files and links are removed one by one, directories
/// and links as a whole, and nothing is put where a directory is.
pub proof fn what_a_step_needs(d: DiskView, spot: Spot, to: Spot, s: Seq<char>)
    ensures
        d.allows(ActView::RemoveFile(spot)) == (d.node(spot) is Some && !(d.node(spot)->0 is Dir)),
        d.allows(ActView::RemoveTree(spot)) == (d.node(spot) is Some && !(d.node(spot)->0 is File)),
        d.node(to) is None && d.has_versions ==> d.allows(ActView::Rename { from: spot, to })
            == d.node(spot) is Some,
        d.node(to) is Some && d.node(to)->0 is Dir ==> !d.allows(
            ActView::Rename { from: spot, to },
        ),
        d.has_versions ==> d.allows(ActView::Symlink { at: to, target: s }) == d.node(to) is None,
        d.node(to) is None && d.has_versions ==> d.allows(ActView::Write { at: to, contents: s }),
{
}

/// A link into the versions names the one it leads to, whether it is given from beside the
/// directory or by its whole path.
pub proof fn links_lead_to_versions(versions_dir: Seq<char>, name: Seq<char>, target: Seq<char>)
    requires
        crate::path::is_plain(name),
    ensures
        linked_version("versions/"@ + name, versions_dir) == Some(name),
        linked_version(versions_dir + seq!['/'] + name, versions_dir) == Some(name),
        !text::begins(target, "versions/"@) && !text::begins(target, versions_dir + seq!['/'])
            ==> linked_version(target, versions_dir) is None,
{
    reveal_strlit("versions/");
    let short = "versions/"@;
    let a = short + name;
    assert(a.take(short.len() as int) =~= short);
    assert(a.skip(short.len() as int) =~= name);
    let long = versions_dir + seq!['/'];
    let b = versions_dir + seq!['/'] + name;
    assert(b =~= long + name);
    assert(b.take(long.len() as int) =~= long);
    assert(b.skip(long.len() as int) =~= name);
    let n = short.len() as int;
    if text::begins(b, short) && crate::path::is_plain(b.skip(n)) {
        let rest = b.skip(n);
        let at = versions_dir.len() as int;
        assert(b[at] == '/');
        assert(b.take(n)[n - 1] == '/');
        if at > n - 1 {
            assert(rest[at - n] == '/');
            assert(rest.contains('/'));
        }
        if at < n - 1 {
            assert(name[n - 1 - at - 1] == '/');
            assert(name.contains('/'));
        }
        assert(rest =~= name);
    }
}

/// A link in the game's directory to one of the versions lands where that version is; any
/// other link lands where it was found to lead.
pub proof fn links_are_followed(
    d: DiskView,
    spot: Spot,
    target: Seq<char>,
    outside: LandingView,
    modified: Option<u64>,
    name: Seq<char>,
)
    requires
        d.node(spot) == Some(NodeView::Link { target, outside, modified }),
    ensures
        spot.folder == Folder::Game && linked_version(target, d.versions_dir) == Some(name)
            ==> match d.node(Spot { folder: Folder::Versions, name }) {
            None => d.landing(spot) is Nothing,
            Some(NodeView::Dir { build, .. }) => d.landing(spot) == LandingView::Dir(build),
            Some(NodeView::File { contents, .. }) => d.landing(spot) == LandingView::File(contents),
            Some(NodeView::Link { outside, .. }) => d.landing(spot) == outside,
        },
        spot.folder == Folder::Versions || linked_version(target, d.versions_dir) is None
            ==> d.landing(spot) == outside,
{
}

/// A directory is not renamed onto anything, and nothing is renamed onto a directory; a
/// file or a link takes the place of a file or a link.
pub proof fn what_a_rename_needs(d: DiskView, from: Spot, to: Spot)
    requires
        d.has_versions,
        d.node(from) is Some,
        d.node(to) is Some,
    ensures
        d.allows(ActView::Rename { from, to }) <==> !(d.node(from)->0 is Dir) && !(d.node(to)->0
            is Dir),
{
}

} // verus!
