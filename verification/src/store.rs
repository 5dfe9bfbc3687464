//! The builds of a game that are installed.

use vstd::prelude::*;

use crate::dirs::Dirs;
use crate::disk;
use crate::disk::{
    place, Act, ActView, Disk, DiskView, Entry, EntryView, Folder, Landing, LandingView, Node,
    NodeView, OnError, Place, Plan, PlanView, Spot,
};
use crate::error;
use crate::error::{StoreError, StoreErrorView, TagError};
use crate::game;
use crate::game::{sanitize_tag, GameId};
use crate::order;
use crate::path;
use crate::path::{join, plain};
use crate::search;
use crate::text;
use crate::text::{chars_of, joined, same, text_of, to_decimal, trim};
use crate::text_lemmas;

verus! {

broadcast use vstd::string::group_string_axioms;

/// How a game's installations are laid out.
#[derive(Debug, Clone, Copy, PartialEq, Eq, Structural)]
pub enum Mode {
    /// The games' own layout: `bin/` is a directory holding one installation.
    Compatible,
    /// `versions/<tag>/` with `bin` as a symlink into it.
    MultiVersion,
}

/// One installed build.
#[derive(Debug, PartialEq, Eq)]
pub struct Installed {
    /// The `.version` file's contents, for display only. Two rows can share a tag: a
    /// directory renamed to resolve a collision keeps its original `.version`. Never
    /// pass this to `activate` or `remove`.
    pub tag: String,
    /// The on-disk directory name under `versions/`. What `activate` and `remove`
    /// take, and what is reported as active where versions are kept side by side:
    /// always unique, unlike `tag`.
    pub name: String,
    pub dir: String,
    pub can_launch: bool,
}

/// What an installed build is.
pub struct InstalledView {
    pub tag: Seq<char>,
    pub name: Seq<char>,
    pub dir: Seq<char>,
    pub can_launch: bool,
}

impl View for Installed {
    type V = InstalledView;

    open spec fn view(&self) -> InstalledView {
        InstalledView {
            tag: self.tag@,
            name: self.name@,
            dir: self.dir@,
            can_launch: self.can_launch,
        }
    }
}

impl Clone for Installed {
    fn clone(&self) -> (r: Installed)
        ensures
            r@ == self@,
    {
        Installed {
            tag: self.tag.clone(),
            name: self.name.clone(),
            dir: self.dir.clone(),
            can_launch: self.can_launch,
        }
    }
}

/// What each installed build is.
pub open spec fn builds(v: Seq<Installed>) -> Seq<InstalledView> {
    Seq::new(v.len(), |i: int| v[i]@)
}

/// What became of the builds when side by side versions were given up.
#[derive(Debug, PartialEq, Eq)]
pub struct DisableReport {
    /// The version that became the real `bin/`, or `None` when there was nothing
    /// linked to collapse.
    pub kept: Option<String>,
    pub retained: Vec<Installed>,
    pub retained_bytes: u64,
}

/// What a report says.
pub struct ReportView {
    pub kept: Option<Seq<char>>,
    pub retained: Seq<InstalledView>,
    pub retained_bytes: u64,
}

impl View for DisableReport {
    type V = ReportView;

    open spec fn view(&self) -> ReportView {
        ReportView {
            kept: crate::text::opt_view(self.kept),
            retained: builds(self.retained@),
            retained_bytes: self.retained_bytes,
        }
    }
}

// ---------------------------------------------------------------------------
// What a directory says
// ---------------------------------------------------------------------------

/// The tag of an installation that has no `.version` file to identify it.
pub const UNKNOWN_TAG: &'static str = "unknown";

/// The installation in use.
pub open spec fn bin() -> Spot {
    Spot { folder: Folder::Game, name: "bin"@ }
}

/// Where a build waits that is on its way to become the installation in use.
pub open spec fn incoming() -> Spot {
    Spot { folder: Folder::Game, name: ".bin.incoming"@ }
}

/// Where a link is made before it takes the place of the old one.
pub open spec fn link_in_progress() -> Spot {
    Spot { folder: Folder::Game, name: ".bin.tmp"@ }
}

/// A version kept beside others.
pub open spec fn version(name: Seq<char>) -> Spot {
    Spot { folder: Folder::Versions, name }
}

fn bin_place() -> (p: Place)
    ensures
        p@ == bin(),
{
    place(Folder::Game, "bin")
}

fn incoming_place() -> (p: Place)
    ensures
        p@ == incoming(),
{
    place(Folder::Game, ".bin.incoming")
}

fn link_place() -> (p: Place)
    ensures
        p@ == link_in_progress(),
{
    place(Folder::Game, ".bin.tmp")
}

/// The version text of whatever an entry leads to.
pub open spec fn version_text(landing: LandingView) -> Option<Seq<char>> {
    match landing {
        LandingView::Dir(build) => build.version,
        _ => None,
    }
}

/// The tag of whatever an entry leads to.
pub open spec fn tag_of(landing: LandingView) -> Seq<char> {
    match version_text(landing) {
        Some(v) if text::trimmed(v).len() > 0 => text::trimmed(v),
        _ => "unknown"@,
    }
}

/// Whether the game can be started from where an entry leads.
pub open spec fn launches(landing: LandingView) -> bool {
    landing matches LandingView::Dir(build) && build.launches
}

/// What is said of the entry `spot`, whose path is `dir`.
pub open spec fn described(d: DiskView, spot: Spot, dir: Seq<char>) -> InstalledView {
    InstalledView {
        tag: tag_of(d.landing(spot)),
        name: spot.name,
        dir,
        can_launch: launches(d.landing(spot)),
    }
}

/// A build of the store, and when its directory was last changed.
pub struct DatedView {
    pub modified: u64,
    pub bytes: u64,
    pub build: InstalledView,
}

/// When an entry was last changed; the epoch where that is not known.
pub open spec fn when(modified: Option<u64>) -> u64 {
    match modified {
        Some(t) => t,
        None => 0,
    }
}

/// What an entry of the store is listed as: a directory whose name does not begin with
/// a dot, under its tag, or under its name where it has no tag.
pub open spec fn listed(entry: EntryView, versions: Seq<char>) -> Option<DatedView> {
    match entry.node {
        NodeView::Dir { build, modified } => if entry.spot.folder == Folder::Versions && !(
        entry.spot.name.len() > 0 && entry.spot.name[0] == '.') {
            let tag = tag_of(LandingView::Dir(build));
            Some(
                DatedView {
                    modified: when(modified),
                    bytes: build.bytes,
                    build: InstalledView {
                        tag: if tag == "unknown"@ {
                            entry.spot.name
                        } else {
                            tag
                        },
                        name: entry.spot.name,
                        dir: path::under(versions, entry.spot.name),
                        can_launch: build.launches,
                    },
                },
            )
        } else {
            None
        },
        _ => None,
    }
}

/// The entries that are listed, in the order they were read.
pub open spec fn listing(entries: Seq<EntryView>, versions: Seq<char>) -> Seq<DatedView>
    decreases entries.len(),
{
    if entries.len() == 0 {
        seq![]
    } else {
        let before = listing(entries.drop_last(), versions);
        match listed(entries.last(), versions) {
            Some(build) => before.push(build),
            None => before,
        }
    }
}

/// The builds of the store, those last changed first.
pub open spec fn stored(d: DiskView, versions: Seq<char>) -> Seq<DatedView> {
    if d.has_versions {
        order::ordered(
            listing(d.entries, versions),
            |a: DatedView, b: DatedView| a.modified > b.modified,
        )
    } else {
        seq![]
    }
}

/// The builds without their dates.
pub open spec fn undated(s: Seq<DatedView>) -> Seq<InstalledView> {
    Seq::new(s.len(), |i: int| s[i].build)
}

/// How much the builds take up together, as far as that can be counted.
pub open spec fn total_bytes(s: Seq<DatedView>) -> u64
    decreases s.len(),
{
    if s.len() == 0 {
        0
    } else {
        let rest = total_bytes(s.drop_last());
        if rest + s.last().bytes > u64::MAX {
            u64::MAX
        } else {
            (rest + s.last().bytes) as u64
        }
    }
}

/// The version a link names: the last component of its target, where the one before it
/// is `versions`.
pub open spec fn version_named(target: Seq<char>) -> Option<Seq<char>> {
    let c = path::components(target);
    if c.len() >= 2 && c[c.len() - 2] == "versions"@ {
        Some(c[c.len() - 1])
    } else {
        None
    }
}

/// The version the installation in use is a link to.
pub open spec fn active_version(d: DiskView) -> Option<Seq<char>> {
    match d.node(bin()) {
        Some(NodeView::Link { target, .. }) => version_named(target),
        _ => None,
    }
}

/// A name for `base` that is not taken yet: the `k`th one tried.
pub open spec fn candidate(base: Seq<char>, k: int) -> Seq<char> {
    if k <= 1 {
        base
    } else {
        base + "-"@ + text::decimal(k as nat)
    }
}

/// The first name for `base` that nothing in the store has.
pub open spec fn free_name(d: DiskView, base: Seq<char>) -> Seq<char> {
    candidate(
        base,
        search::first_that(
            |k: int| !d.taken(version(candidate(base, k))),
            1,
            d.entries.len() as int + 2,
        ),
    )
}

/// The name a directory is taken into the store under, before it is made free.
pub open spec fn store_name(tag: Seq<char>) -> Seq<char> {
    match game::directory_name(tag) {
        Ok(name) => name,
        Err(_) => "unknown"@,
    }
}

// ---------------------------------------------------------------------------
// What is done about it
// ---------------------------------------------------------------------------

impl PlanView {
    /// Nothing has failed so far, and the next step will be taken.
    pub open spec fn ready(self) -> bool {
        !self.failed && !self.skipping && self.disk.is_proper()
    }

    /// Makes the installation in use a link to a version. The new link is made beside
    /// the old one and renamed over it, so there is no moment without one.
    pub open spec fn activating(self, name: Seq<char>) -> PlanView {
        self.step(ActView::MakeFolder(Folder::Game), OnError::Fail).step(
            ActView::RemoveFile(link_in_progress()),
            OnError::Ignore,
        ).step(
            ActView::Symlink { at: link_in_progress(), target: "versions/"@ + name },
            OnError::Fail,
        ).step(ActView::Rename { from: link_in_progress(), to: bin() }, OnError::Fail)
    }

    /// Takes an entry into the store, under a name that is free.
    pub open spec fn adopting(self, from: Spot) -> (PlanView, Seq<char>) {
        let p = self.step(ActView::MakeFolder(Folder::Versions), OnError::Fail);
        let name = free_name(p.disk, store_name(tag_of(p.disk.landing(from))));
        (p.step(ActView::Rename { from, to: version(name) }, OnError::Fail), name)
    }

    /// Takes the installation in use into the store, and makes it a link to itself.
    pub open spec fn adopting_bin(self) -> PlanView {
        let (p, name) = self.adopting(bin());
        p.activating(name)
    }

    /// Links to the build last changed, if there is one.
    pub open spec fn linking_newest(self, versions: Seq<char>) -> PlanView {
        let all = stored(self.disk, versions);
        if all.len() > 0 && path::is_plain(all[0].build.name) {
            self.activating(all[0].build.name)
        } else {
            self
        }
    }

    /// Whether what is last changed cannot be linked to, for want of a plain name.
    pub open spec fn cannot_link(self, versions: Seq<char>) -> bool {
        let all = stored(self.disk, versions);
        all.len() > 0 && !path::is_plain(all[0].build.name)
    }

    /// The plan once a build that was on its way has been taken back into the store.
    pub open spec fn with_incoming(self) -> PlanView {
        if self.disk.resolves(incoming()) {
            self.adopting(incoming()).0
        } else {
            self
        }
    }

    /// The plan once a link that leads nowhere is gone.
    pub open spec fn without_dangling_link(self) -> PlanView {
        if self.disk.is_link(bin()) && !self.disk.leads_somewhere(bin()) {
            self.step(ActView::RemoveFile(bin()), OnError::Fail)
        } else {
            self
        }
    }

    /// Repairs the layout in which versions are kept side by side.
    pub open spec fn repairing_multi(self, versions: Seq<char>) -> PlanView {
        let p = self.with_incoming();
        if p.failed {
            p
        } else if p.disk.is_dir(bin()) {
            p.adopting_bin()
        } else {
            let q = p.without_dangling_link();
            if !q.failed && !q.disk.taken(bin()) {
                q.linking_newest(versions)
            } else {
                q
            }
        }
    }

    /// Puts the active version into the place of the installation in use.
    pub open spec fn collapsing(self, active: Seq<char>) -> PlanView {
        let p = self.step(
            ActView::Rename { from: version(active), to: incoming() },
            OnError::Fail,
        );
        let q = if p.disk.is_link(bin()) {
            p.step(ActView::RemoveFile(bin()), OnError::Fail)
        } else {
            p
        };
        q.step(ActView::Rename { from: incoming(), to: bin() }, OnError::Fail)
    }

    /// Goes back to one installation.
    pub open spec fn disabling(self) -> PlanView {
        match active_version(self.disk) {
            Some(active) => self.collapsing(active),
            None => if self.disk.is_link(bin()) {
                self.step(ActView::RemoveFile(bin()), OnError::Fail)
            } else {
                self
            },
        }
    }

    /// The plan once nothing but a directory is in the way of a build that was on its
    /// way.
    pub open spec fn clearing_the_way(self) -> PlanView {
        if self.disk.resolves(incoming()) && self.disk.is_link(bin()) {
            self.step(ActView::RemoveFile(bin()), OnError::Fail)
        } else {
            self
        }
    }

    /// Whether a build that was on its way can be put in place.
    pub open spec fn can_finish(self) -> bool {
        self.disk.resolves(incoming()) && !self.disk.leads_somewhere(bin())
    }

    /// Repairs the layout with one installation.
    pub open spec fn repairing_compatible(self) -> PlanView {
        let p = self.clearing_the_way();
        if p.failed {
            p
        } else if p.can_finish() {
            p.step(ActView::Rename { from: incoming(), to: bin() }, OnError::Fail)
        } else if p.disk.is_link(bin()) && !p.disk.leads_somewhere(bin()) {
            p.without_dangling_link()
        } else if p.disk.is_link(bin()) && !p.disk.leads_somewhere(incoming()) {
            p.disabling()
        } else {
            p
        }
    }

    /// Whether the repair stops at something in the way of a build on its way.
    pub open spec fn compatible_is_blocked(self) -> bool {
        let p = self.clearing_the_way();
        !p.failed && !p.can_finish() && p.disk.is_link(bin()) && p.disk.leads_somewhere(bin())
            && p.disk.leads_somewhere(incoming())
    }
}

/// What is said where something is in the way of a build on its way.
pub open spec fn interrupted(game_dir: Seq<char>) -> Seq<char> {
    path::under(game_dir, ".bin.incoming"@)
        + " exists from an interrupted operation; run reconcile first"@
}

// ---------------------------------------------------------------------------
// Reading it
// ---------------------------------------------------------------------------

/// The version text of whatever was found.
fn version_of(landing: &Landing) -> (r: Option<String>)
    ensures
        text::opt_view(r) == version_text(landing@),
{
    match landing {
        Landing::Dir(build) => disk::copy_text(&build.version),
        _ => None,
    }
}

/// The tag of whatever was found.
fn tag_found(landing: &Landing) -> (tag: String)
    ensures
        tag@ == tag_of(landing@),
{
    match version_of(landing) {
        Some(v) => {
            let t: Vec<char> = trim(&chars_of(v.as_str()));
            if t.len() > 0 {
                text_of(&t)
            } else {
                UNKNOWN_TAG.to_owned()
            }
        },
        None => UNKNOWN_TAG.to_owned(),
    }
}

/// A build of the store, and when its directory was last changed.
struct Dated {
    modified: u64,
    bytes: u64,
    build: Installed,
}

impl View for Dated {
    type V = DatedView;

    closed spec fn view(&self) -> DatedView {
        DatedView { modified: self.modified, bytes: self.bytes, build: self.build@ }
    }
}

spec fn dated_views(v: Seq<Dated>) -> Seq<DatedView> {
    Seq::new(v.len(), |i: int| v[i]@)
}

/// Whether a name begins with a dot.
pub fn is_hidden(name: &str) -> (r: bool)
    ensures
        r == (name@.len() > 0 && name@[0] == '.'),
{
    let s: Vec<char> = chars_of(name);
    s.len() > 0 && s[0] == '.'
}

/// What an entry of the store is listed as.
fn list_entry(entry: &Entry, versions: &str) -> (r: Option<Dated>)
    ensures
        r is Some <==> listed(entry@, versions@) is Some,
        r matches Some(d) ==> listed(entry@, versions@) == Some(d@),
{
    match &entry.node {
        Node::Dir { build, modified } => {
            let name: &str = entry.place.name.as_str();
            if entry.place.folder != Folder::Versions || is_hidden(name) {
                return None;
            }
            let landing: Landing = Landing::Dir(build.clone());
            let tag: String = tag_found(&landing);
            let tag: String = if same(tag.as_str(), UNKNOWN_TAG) {
                name.to_owned()
            } else {
                tag
            };
            let modified: u64 = match modified {
                Some(t) => *t,
                None => 0,
            };
            Some(
                Dated {
                    modified,
                    bytes: build.bytes,
                    build: Installed {
                        tag,
                        name: name.to_owned(),
                        dir: join(versions, name),
                        can_launch: build.launches,
                    },
                },
            )
        },
        _ => None,
    }
}

/// Puts a build into a list, those last changed first.
fn place_dated(all: &mut Vec<Dated>, build: Dated)
    ensures
        dated_views(final(all)@) == order::placed(
            dated_views(old(all)@),
            build@,
            |a: DatedView, b: DatedView| a.modified > b.modified,
        ),
{
    let ghost s = dated_views(all@);
    let ghost before = |a: DatedView, b: DatedView| a.modified > b.modified;
    let ghost p = |i: int| before(build@, s[i]);
    let mut i: usize = 0;
    while i < all.len() && !(build.modified > all[i].modified)
        invariant
            i <= all.len(),
            s == dated_views(all@),
            before == (|a: DatedView, b: DatedView| a.modified > b.modified),
            p == (|i: int| before(build@, s[i])),
            forall|j: int| 0 <= j < i ==> !#[trigger] p(j),
        decreases all.len() - i,
    {
        i += 1;
    }
    proof {
        search::first_that_is(p, 0, s.len() as int, i as int);
    }
    let ghost view = build@;
    all.insert(i, build);
    assert(dated_views(all@) =~= s.insert(i as int, view));
}

/// The builds of the store, those last changed first.
fn list_store(d: &Disk, versions: &str) -> (out: Vec<Dated>)
    ensures
        dated_views(out@) == stored(d@, versions@),
{
    let mut out: Vec<Dated> = Vec::new();
    assert(dated_views(out@) =~= seq![]);
    if !d.has_versions() {
        return out;
    }
    let entries: &Vec<Entry> = d.entries();
    let ghost all = d@.entries;
    let ghost before = |a: DatedView, b: DatedView| a.modified > b.modified;
    let mut i: usize = 0;
    assert(all.take(0) =~= seq![]);
    while i < entries.len()
        invariant
            i <= entries.len(),
            all == disk::entry_views(entries@),
            before == (|a: DatedView, b: DatedView| a.modified > b.modified),
            dated_views(out@) == order::ordered(listing(all.take(i as int), versions@), before),
        decreases entries.len() - i,
    {
        let ghost sofar = listing(all.take(i as int), versions@);
        assert(all.take(i + 1).drop_last() =~= all.take(i as int));
        match list_entry(&entries[i], versions) {
            Some(build) => {
                assert(sofar.push(build@).drop_last() =~= sofar);
                place_dated(&mut out, build);
            },
            None => {},
        }
        i += 1;
    }
    assert(all.take(i as int) =~= all);
    out
}

/// The builds without their dates.
fn undate(all: Vec<Dated>) -> (out: Vec<Installed>)
    ensures
        builds(out@) == undated(dated_views(all@)),
{
    let mut out: Vec<Installed> = Vec::new();
    let mut i: usize = 0;
    while i < all.len()
        invariant
            i <= all.len(),
            out@.len() == i,
            forall|j: int| 0 <= j < i ==> (#[trigger] out@[j])@ == all@[j].build@,
        decreases all.len() - i,
    {
        out.push(all[i].build.clone());
        i += 1;
    }
    assert(builds(out@) =~= undated(dated_views(all@)));
    out
}

/// How much the builds take up together.
fn sum_bytes(all: &Vec<Dated>) -> (total: u64)
    ensures
        total == total_bytes(dated_views(all@)),
{
    let ghost s = dated_views(all@);
    let mut total: u64 = 0;
    let mut i: usize = 0;
    assert(s.take(0) =~= seq![]);
    while i < all.len()
        invariant
            i <= all.len(),
            s == dated_views(all@),
            total == total_bytes(s.take(i as int)),
        decreases all.len() - i,
    {
        assert(s.take(i + 1).drop_last() =~= s.take(i as int));
        total = match total.checked_add(all[i].bytes) {
            Some(sum) => sum,
            None => u64::MAX,
        };
        i += 1;
    }
    assert(s.take(i as int) =~= s);
    total
}

/// The version a link names.
fn name_in(target: &str) -> (r: Option<String>)
    ensures
        text::opt_view(r) == version_named(target@),
{
    let c: Vec<Vec<char>> = path::split(target);
    let ghost all = text::rows(c@);
    if c.len() >= 2 {
        assert(all[c@.len() - 2] == c@[c@.len() - 2]@);
        assert(all[c@.len() - 1] == c@[c@.len() - 1]@);
        if text::same_chars(&c[c.len() - 2], &chars_of("versions")) {
            return Some(text_of(&c[c.len() - 1]));
        }
    }
    None
}

/// The version the installation in use is a link to.
fn active_link(d: &Disk) -> (r: Option<String>)
    ensures
        text::opt_view(r) == active_version(d@),
{
    match d.node(&bin_place()) {
        Some(Node::Link { target, .. }) => name_in(target.as_str()),
        _ => None,
    }
}

// ---------------------------------------------------------------------------
// Names that are free
// ---------------------------------------------------------------------------

/// The `k`th name tried for `base`.
pub fn nth_candidate(base: &str, k: u128) -> (out: String)
    ensures
        out@ == candidate(base@, k as int),
{
    if k <= 1 {
        base.to_owned()
    } else {
        joined(joined(base, "-").as_str(), text_of(&to_decimal(k)).as_str())
    }
}

pub(crate) proof fn candidates_differ(base: Seq<char>, j: int, k: int)
    requires
        1 <= j < k,
    ensures
        candidate(base, j) != candidate(base, k),
{
    reveal_strlit("-");
    text_lemmas::decimal_is_read_back(j as nat);
    text_lemmas::decimal_is_read_back(k as nat);
    let a = candidate(base, j);
    let b = candidate(base, k);
    if a == b {
        if j == 1 {
            assert(a.len() == base.len());
            assert(b.len() > base.len());
        } else {
            let n = base.len() + 1;
            assert(a.skip(n as int) =~= text::decimal(j as nat));
            assert(b.skip(n as int) =~= text::decimal(k as nat));
        }
    }
}

/// There are no more taken candidates than there are entries.
pub proof fn some_candidate_is_free(d: DiskView, base: Seq<char>, n: int)
    requires
        0 <= n,
        forall|k: int| 1 <= k <= n ==> d.taken(version(#[trigger] candidate(base, k))),
    ensures
        n <= d.entries.len(),
{
    let spots = d.entries.map_values(|e: EntryView| e.spot);
    let tried = Seq::new(n as nat, |i: int| version(candidate(base, i + 1)));
    assert forall|i: int, j: int| 0 <= i < tried.len() && 0 <= j < tried.len() && i != j implies
        tried[i] != tried[j] by {
        if i < j {
            candidates_differ(base, i + 1, j + 1);
        } else {
            candidates_differ(base, j + 1, i + 1);
        }
    }
    assert(tried.no_duplicates());
    tried.unique_seq_to_set();
    assert(tried.to_set().subset_of(spots.to_set())) by {
        assert forall|spot: Spot| tried.to_set().contains(spot) implies spots.to_set().contains(
            spot,
        ) by {
            let i = choose|i: int| 0 <= i < tried.len() && tried[i] == spot;
            assert(d.taken(version(candidate(base, i + 1))));
            disk::index_is_first(d, spot);
            assert(spots[d.index(spot)] == spot);
        }
    }
    vstd::seq_lib::seq_to_set_is_finite(spots);
    spots.lemma_cardinality_of_set();
    vstd::set_lib::lemma_len_subset(tried.to_set(), spots.to_set());
}

/// The first name for `base` that nothing in the store has.
fn find_free_name(d: &Disk, base: &str) -> (out: String)
    ensures
        out@ == free_name(d@, base@),
        !d@.taken(version(out@)),
        exists|k: int| 1 <= k && out@ == #[trigger] candidate(base@, k),
{
    let ghost p = |k: int| !d@.taken(version(candidate(base@, k)));
    let ghost n = d@.entries.len() as int + 2;
    let count: usize = d.entries().len();
    assert(d@.entries.len() == count);
    let mut k: u128 = 1;
    loop
        invariant
            1 <= k < n,
            n == d@.entries.len() + 2,
            d@.entries.len() <= usize::MAX,
            p == (|k: int| !d@.taken(version(candidate(base@, k)))),
            forall|j: int| 1 <= j < k ==> !#[trigger] p(j),
        decreases n - k,
    {
        let name: String = nth_candidate(base, k);
        if !d.taken(&place(Folder::Versions, name.as_str())) {
            proof {
                assert(p(k as int));
                search::first_that_is(p, 1, n, k as int);
            }
            return name;
        }
        proof {
            assert(!p(k as int));
            assert forall|j: int| 1 <= j <= k implies d@.taken(
                version(#[trigger] candidate(base@, j)),
            ) by {
                assert(!p(j));
            }
            some_candidate_is_free(d@, base@, k as int);
        }
        k += 1;
    }
}

// ---------------------------------------------------------------------------
// The store
// ---------------------------------------------------------------------------

/// Why a version cannot be made the active one, if it cannot.
pub open spec fn activation(d: DiskView, mode: Mode, name: Seq<char>) -> Result<
    (),
    StoreErrorView,
> {
    if mode != Mode::MultiVersion {
        Err(StoreErrorView::RequiresMultiVersion)
    } else if !path::is_plain(name) {
        Err(StoreErrorView::Tag(TagError::Reserved))
    } else if !d.resolves(version(name)) {
        Err(StoreErrorView::NoSuchVersion(name))
    } else {
        Ok(())
    }
}

/// Why a version cannot be removed, if it cannot.
pub open spec fn removal(d: DiskView, mode: Mode, name: Seq<char>) -> Result<(), StoreErrorView> {
    if mode != Mode::MultiVersion {
        Err(StoreErrorView::RequiresMultiVersion)
    } else if !path::is_plain(name) {
        Err(StoreErrorView::Tag(TagError::Reserved))
    } else if active_version(d) == Some(name) {
        Err(StoreErrorView::RemoveActive)
    } else if !d.leads_somewhere(version(name)) {
        Err(StoreErrorView::NoSuchVersion(name))
    } else {
        Ok(())
    }
}

/// The builds that are installed.
pub open spec fn installations(
    d: DiskView,
    mode: Mode,
    bin_dir: Seq<char>,
    versions: Seq<char>,
) -> Seq<InstalledView> {
    match mode {
        Mode::Compatible => if d.resolves(bin()) {
            seq![described(d, bin(), bin_dir)]
        } else {
            seq![]
        },
        Mode::MultiVersion => undated(stored(d, versions)),
    }
}

/// What is reported as active: a tag where there is one installation, a name where
/// versions are kept side by side.
pub open spec fn active_in(d: DiskView, mode: Mode) -> Option<Seq<char>> {
    match mode {
        Mode::Compatible => if d.resolves(bin()) {
            Some(tag_of(d.landing(bin())))
        } else {
            None
        },
        Mode::MultiVersion => active_version(d),
    }
}

/// Rejects anything that is not exactly one ordinary path component. `activate` and
/// `remove` take a directory name that must already exist under `versions/`; a name
/// shaped like a path could retarget the operation at a directory it was never meant to
/// reach.
fn validate_name(name: &str) -> (r: Result<(), StoreError>)
    ensures
        error::store_outcome(r) == if path::is_plain(name@) {
            Ok::<(), StoreErrorView>(())
        } else {
            Err(StoreErrorView::Tag(TagError::Reserved))
        },
{
    if plain(name) {
        Ok(())
    } else {
        Err(StoreError::Tag(TagError::Reserved))
    }
}

/// The builds of one game.
#[derive(Debug)]
pub struct VersionStore {
    pub dirs: Dirs,
    pub game: GameId,
}

/// A name tried for a plain one is plain.
proof fn candidates_are_plain(base: Seq<char>, k: int)
    requires
        path::is_plain(base),
    ensures
        path::is_plain(candidate(base, k)),
{
    reveal_strlit("-");
    let name = candidate(base, k);
    if k > 1 {
        text_lemmas::decimal_is_read_back(k as nat);
        let digits = text::decimal(k as nat);
        assert(name == base + seq!['-'] + digits);
        assert(name[base.len() as int] == '-');
        if name.contains('/') {
            let i = choose|i: int| 0 <= i < name.len() && name[i] == '/';
            if i < base.len() {
                assert(base[i] == '/');
            } else if i > base.len() {
                assert(text::is_digit(digits[i - base.len() - 1]));
            }
        }
        assert(name.len() >= 3);
    }
}

proof fn store_names_are_plain(tag: Seq<char>)
    ensures
        path::is_plain(store_name(tag)),
{
    reveal_strlit("unknown");
    game::directory_names_are_plain(tag);
    if game::directory_name(tag) is Err {
        let s = "unknown"@;
        assert(s.len() == 7);
        if s.contains('/') {
            let i = choose|i: int| 0 <= i < s.len() && s[i] == '/';
            assert(s[0] == 'u' && s[1] == 'n' && s[2] == 'k' && s[3] == 'n' && s[4] == 'o' && s[5]
                == 'w' && s[6] == 'n');
        }
    }
}

/// A directory that is taken into the store is there afterwards, under a plain name
/// that was free, and is no longer where it was.
pub proof fn adopting_moves(plan: PlanView, from: Spot)
    requires
        plan.ready(),
        plan.disk.taken(from),
        from.folder == Folder::Game,
    ensures
        ({
            let (after, name) = plan.adopting(from);
            &&& after.ready()
            &&& path::is_plain(name)
            &&& !plan.disk.taken(version(name))
            &&& after.disk.node(version(name)) == plan.disk.node(from)
            &&& after.disk.node(from) is None
            &&& after.disk.has_versions
            &&& after.disk.versions_dir == plan.disk.versions_dir
            &&& forall|other: Spot|
                other != from && other != version(name) ==> #[trigger] after.disk.node(other)
                    == plan.disk.node(other)
        }),
{
    let made = plan.step(ActView::MakeFolder(Folder::Versions), OnError::Fail);
    let d = made.disk;
    assert(d.entries == plan.disk.entries);
    assert forall|spot: Spot| #[trigger] d.node(spot) == plan.disk.node(spot) by {
        disk::same_entries_same_nodes(d, plan.disk, spot);
    }
    let base = store_name(tag_of(d.landing(from)));
    let p = |k: int| !d.taken(version(candidate(base, k)));
    let n = d.entries.len() as int + 2;
    search::first_that_is_first(p, 1, n);
    let k = search::first_that(p, 1, n);
    if k == n {
        assert forall|j: int| 1 <= j <= n - 1 implies d.taken(
            version(#[trigger] candidate(base, j)),
        ) by {
            assert(!p(j));
        }
        some_candidate_is_free(d, base, n - 1);
    }
    assert(p(k));
    let name = candidate(base, k);
    store_names_are_plain(tag_of(d.landing(from)));
    candidates_are_plain(base, k);
    let node = d.node(from)->0;
    assert(!d.taken(version(name)));
    assert(d.allows(ActView::Rename { from, to: version(name) }));
    let after = d.without(from).with(version(name), node);
    disk::steps_stay_proper(
        made,
        ActView::Rename { from, to: version(name) },
        OnError::Fail,
    );
    disk::node_after_without(d, from, version(name));
    disk::node_after_with(d.without(from), version(name), node, from);
    assert forall|other: Spot|
        other != from && other != version(name) implies #[trigger] after.node(other)
        == plan.disk.node(other) by {
        disk::node_after_without(d, from, other);
        disk::node_after_with(d.without(from), version(name), node, other);
    }
}

impl VersionStore {
    pub fn new(dirs: Dirs, game: GameId) -> (s: VersionStore)
        ensures
            s.dirs == dirs,
            s.game == game,
    {
        VersionStore { dirs, game }
    }

    pub fn game(&self) -> (g: GameId)
        ensures
            g == self.game,
    {
        self.game
    }

    /// The path of the game's directory.
    pub open spec fn game_dir(self) -> Seq<char> {
        self.game.game_dir(self.dirs@)
    }

    /// The path of the installation in use.
    pub open spec fn bin_dir(self) -> Seq<char> {
        self.game.bin_dir(self.dirs@)
    }

    /// The path of the directory in which versions are kept side by side.
    pub open spec fn versions_dir(self) -> Seq<char> {
        self.game.versions_dir(self.dirs@)
    }

    pub fn bin_path(&self) -> (out: String)
        ensures
            out@ == self.bin_dir(),
    {
        self.game.bin_path(&self.dirs)
    }

    pub fn versions_path(&self) -> (out: String)
        ensures
            out@ == self.versions_dir(),
    {
        self.game.versions_path(&self.dirs)
    }

    /// The path of an entry.
    pub open spec fn spot_path(self, spot: Spot) -> Seq<char> {
        match spot.folder {
            Folder::Game => path::under(self.game_dir(), spot.name),
            Folder::Versions => path::under(self.versions_dir(), spot.name),
        }
    }

    /// The path of one of the two directories.
    pub fn folder_path(&self, folder: Folder) -> (out: String)
        ensures
            out@ == match folder {
                Folder::Game => self.game_dir(),
                Folder::Versions => self.versions_dir(),
            },
    {
        match folder {
            Folder::Game => self.game.game_path(&self.dirs),
            Folder::Versions => self.versions_path(),
        }
    }

    /// The path of an entry.
    pub fn place_path(&self, at: &Place) -> (out: String)
        ensures
            out@ == self.spot_path(at@),
    {
        join(self.folder_path(at.folder).as_str(), at.name.as_str())
    }

    /// What is said of an entry.
    fn describe(&self, d: &Disk, at: &Place) -> (r: Installed)
        ensures
            r@ == described(d@, at@, self.spot_path(at@)),
    {
        let landing: Landing = d.landing(at);
        let can_launch: bool = match &landing {
            Landing::Dir(build) => build.launches,
            _ => false,
        };
        Installed {
            tag: tag_found(&landing),
            name: at.name.clone(),
            dir: self.place_path(at),
            can_launch,
        }
    }

    /// The builds that are installed.
    pub fn installed(&self, d: &Disk, mode: Mode) -> (out: Vec<Installed>)
        ensures
            builds(out@) == installations(d@, mode, self.bin_dir(), self.versions_dir()),
    {
        match mode {
            Mode::Compatible => {
                let mut out: Vec<Installed> = Vec::new();
                if d.resolves(&bin_place()) {
                    out.push(self.describe(d, &bin_place()));
                    assert(builds(out@) =~= seq![described(d@, bin(), self.bin_dir())]);
                } else {
                    assert(builds(out@) =~= seq![]);
                }
                out
            },
            Mode::MultiVersion => undate(list_store(d, self.versions_path().as_str())),
        }
    }

    /// What is reported as active.
    pub fn active(&self, d: &Disk, mode: Mode) -> (r: Option<String>)
        ensures
            text::opt_view(r) == active_in(d@, mode),
    {
        match mode {
            Mode::Compatible => if d.resolves(&bin_place()) {
                Some(tag_found(&d.landing(&bin_place())))
            } else {
                None
            },
            Mode::MultiVersion => active_link(d),
        }
    }

    /// Makes a version the active one. `name` is its on-disk directory name under
    /// `versions/`, as `Installed::name` reports it, never the display `tag`.
    ///
    /// Activating a name that no longer exists would leave `bin` dangling, so that is
    /// refused.
    pub fn activate(&self, plan: &mut Plan, mode: Mode, name: &str) -> (r: Result<(), StoreError>)
        ensures
            error::store_outcome(r) == activation(old(plan)@.disk, mode, name@),
            final(plan)@ == if r is Ok {
                old(plan)@.activating(name@)
            } else {
                old(plan)@
            },
    {
        if mode != Mode::MultiVersion {
            return Err(StoreError::RequiresMultiVersion);
        }
        if let Err(e) = validate_name(name) {
            return Err(e);
        }
        if !plan.disk().resolves(&place(Folder::Versions, name)) {
            return Err(StoreError::NoSuchVersion(name.to_owned()));
        }
        plan.step(Act::MakeFolder(Folder::Game), OnError::Fail);
        plan.step(Act::RemoveFile(link_place()), OnError::Ignore);
        // Relative target, so the whole tree stays relocatable.
        plan.step(
            Act::Symlink { at: link_place(), target: joined("versions/", name) },
            OnError::Fail,
        );
        // Renaming onto the existing link is atomic: there is no instant at which `bin`
        // is missing or half-written.
        plan.step(Act::Rename { from: link_place(), to: bin_place() }, OnError::Fail);
        Ok(())
    }

    /// Removes a version that is not the active one. `name` is its on-disk directory
    /// name under `versions/`.
    pub fn remove(&self, plan: &mut Plan, mode: Mode, name: &str) -> (r: Result<(), StoreError>)
        ensures
            error::store_outcome(r) == removal(old(plan)@.disk, mode, name@),
            final(plan)@ == if r is Ok {
                old(plan)@.step(ActView::RemoveTree(version(name@)), OnError::Fail)
            } else {
                old(plan)@
            },
    {
        if mode != Mode::MultiVersion {
            return Err(StoreError::RequiresMultiVersion);
        }
        if let Err(e) = validate_name(name) {
            return Err(e);
        }
        match self.active(plan.disk(), mode) {
            Some(active) => {
                if same(active.as_str(), name) {
                    return Err(StoreError::RemoveActive);
                }
            },
            None => {},
        }
        let at: Place = place(Folder::Versions, name);
        if !plan.disk().leads_somewhere(&at) {
            return Err(StoreError::NoSuchVersion(name.to_owned()));
        }
        plan.step(Act::RemoveTree(at), OnError::Fail);
        Ok(())
    }

    /// Repairs whatever layout is found. Never deletes a game build.
    pub fn reconcile(&self, plan: &mut Plan, mode: Mode) -> (r: Result<(), StoreError>)
        requires
            old(plan)@.ready(),
        ensures
            error::store_outcome(r) == repair(
                old(plan)@,
                mode,
                self.game_dir(),
                self.versions_dir(),
            ).1,
            final(plan)@ == repair(old(plan)@, mode, self.game_dir(), self.versions_dir()).0,
    {
        match mode {
            Mode::MultiVersion => self.reconcile_multi(plan),
            Mode::Compatible => self.reconcile_compatible(plan),
        }
    }

    fn reconcile_multi(&self, plan: &mut Plan) -> (r: Result<(), StoreError>)
        requires
            old(plan)@.ready(),
        ensures
            error::store_outcome(r) == repair(
                old(plan)@,
                Mode::MultiVersion,
                self.game_dir(),
                self.versions_dir(),
            ).1,
            final(plan)@ == repair(
                old(plan)@,
                Mode::MultiVersion,
                self.game_dir(),
                self.versions_dir(),
            ).0,
    {
        // A collapse that was cut short after moving the active version out but before
        // putting it back in place leaves it here, invisible in the store. It is folded
        // back first, under a free name.
        if plan.disk().resolves(&incoming_place()) {
            proof {
                landed_is_taken(plan@.disk, incoming());
                adopting_moves(plan@, incoming());
            }
            let _ = self.adopt_dir(plan, &incoming_place());
        }
        if plan.disk().is_dir(&bin_place()) {
            return self.adopt_bin(plan);
        }
        if plan.disk().is_link(&bin_place()) && !plan.disk().leads_somewhere(&bin_place()) {
            let ghost before = plan@;
            plan.step(Act::RemoveFile(bin_place()), OnError::Fail);
            proof {
                disk::node_after_without(before.disk, bin(), bin());
            }
        }
        if !plan.disk().taken(&bin_place()) {
            return self.link_to_newest(plan);
        }
        Ok(())
    }

    fn reconcile_compatible(&self, plan: &mut Plan) -> (r: Result<(), StoreError>)
        requires
            old(plan)@.ready(),
        ensures
            error::store_outcome(r) == repair(
                old(plan)@,
                Mode::Compatible,
                self.game_dir(),
                self.versions_dir(),
            ).1,
            final(plan)@ == repair(
                old(plan)@,
                Mode::Compatible,
                self.game_dir(),
                self.versions_dir(),
            ).0,
    {
        // A collapse that died after moving the version out but before putting it in
        // place.
        if plan.disk().resolves(&incoming_place()) && plan.disk().is_link(&bin_place()) {
            plan.step(Act::RemoveFile(bin_place()), OnError::Fail);
        }
        if plan.disk().resolves(&incoming_place()) && !plan.disk().leads_somewhere(
            &bin_place(),
        ) {
            plan.step(Act::Rename { from: incoming_place(), to: bin_place() }, OnError::Fail);
            return Ok(());
        }
        // A dangling link: whatever it pointed at is gone, so unlinking destroys nothing.
        if plan.disk().is_link(&bin_place()) && !plan.disk().leads_somewhere(&bin_place()) {
            plan.step(Act::RemoveFile(bin_place()), OnError::Fail);
            return Ok(());
        }
        // The user turned the mode off, or a collapse never started.
        if plan.disk().is_link(&bin_place()) {
            match self.disable_multi_version(plan) {
                Ok(_) => Ok(()),
                Err(e) => Err(e),
            }
        } else {
            Ok(())
        }
    }

    /// Links to the build last changed, if there is one.
    fn link_to_newest(&self, plan: &mut Plan) -> (r: Result<(), StoreError>)
        requires
            old(plan)@.disk.is_proper(),
        ensures
            error::store_outcome(r) == if old(plan)@.cannot_link(self.versions_dir()) {
                Err::<(), StoreErrorView>(StoreErrorView::Tag(TagError::Reserved))
            } else {
                Ok(())
            },
            final(plan)@ == old(plan)@.linking_newest(self.versions_dir()),
    {
        let all: Vec<Dated> = list_store(plan.disk(), self.versions_path().as_str());
        if all.len() > 0 {
            proof {
                assert(dated_views(all@)[0] == all@[0]@);
                stored_are_directories(plan@.disk, self.versions_dir(), 0);
            }
            return self.activate(plan, Mode::MultiVersion, all[0].build.name.as_str());
        }
        Ok(())
    }

    /// Moves a real `bin/` into the store under a free name and links to it.
    fn adopt_bin(&self, plan: &mut Plan) -> (r: Result<(), StoreError>)
        requires
            old(plan)@.ready(),
            old(plan)@.disk.is_dir(bin()),
        ensures
            r is Ok,
            final(plan)@ == old(plan)@.adopting_bin(),
    {
        proof {
            adopting_moves(plan@, bin());
        }
        let name: String = self.adopt_dir(plan, &bin_place());
        self.activate(plan, Mode::MultiVersion, name.as_str())
    }

    /// Moves an entry into the store under a free name. Never overwrites: walks to the
    /// first free `<tag>`, `<tag>-2`, ... name.
    fn adopt_dir(&self, plan: &mut Plan, from: &Place) -> (name: String)
        ensures
            (final(plan)@, name@) == old(plan)@.adopting(from@),
    {
        plan.step(Act::MakeFolder(Folder::Versions), OnError::Fail);
        let tag: String = tag_found(&plan.disk().landing(from));
        let base: String = match sanitize_tag(tag.as_str()) {
            Ok(name) => name,
            Err(_) => UNKNOWN_TAG.to_owned(),
        };
        let name: String = find_free_name(plan.disk(), base.as_str());
        plan.step(
            Act::Rename { from: from.clone(), to: place(Folder::Versions, name.as_str()) },
            OnError::Fail,
        );
        name
    }

    /// Turns to keeping versions side by side: an installation becomes the first of
    /// them.
    pub fn enable_multi_version(&self, plan: &mut Plan) -> (r: Result<(), StoreError>)
        requires
            old(plan)@.ready(),
        ensures
            error::store_outcome(r) == enabling(
                old(plan)@,
                self.game_dir(),
                self.versions_dir(),
            ).1,
            final(plan)@ == enabling(old(plan)@, self.game_dir(), self.versions_dir()).0,
    {
        if plan.disk().is_dir(&bin_place()) {
            self.adopt_bin(plan)
        } else {
            self.reconcile_multi(plan)
        }
    }

    /// Collapses back to the games' own layout. The active version becomes a real `bin/`;
    /// every other version stays in `versions/` untouched.
    ///
    /// Ordered so an interruption is recoverable: move the version out to
    /// `.bin.incoming`, drop the link, then move it into place. The report is what there is
    /// to say once the steps have been taken; whether they can be is for the plan to say.
    pub fn disable_multi_version(&self, plan: &mut Plan) -> (r: Result<DisableReport, StoreError>)
        ensures
            r is Err <==> old(plan)@.disk.leads_somewhere(incoming()),
            r matches Err(e) ==> e@ == StoreErrorView::Io(interrupted(self.game_dir()))
                && final(plan)@ == old(plan)@,
            r matches Ok(report) ==> {
                let left = stored(final(plan)@.disk, self.versions_dir());
                &&& final(plan)@ == old(plan)@.disabling()
                &&& report@ == (ReportView {
                    kept: active_version(old(plan)@.disk),
                    retained: undated(left),
                    retained_bytes: total_bytes(left),
                })
            },
    {
        // Checked before anything else: if a previous collapse did not finish, this
        // holds the moved but not yet placed build. Deleting it, or reporting success
        // while it sits there, would misrepresent or destroy it.
        if plan.disk().leads_somewhere(&incoming_place()) {
            return Err(
                StoreError::Io(
                    joined(
                        self.place_path(&incoming_place()).as_str(),
                        " exists from an interrupted operation; run reconcile first",
                    ),
                ),
            );
        }
        let kept: Option<String> = active_link(plan.disk());
        match &kept {
            Some(active) => {
                plan.step(
                    Act::Rename {
                        from: place(Folder::Versions, active.as_str()),
                        to: incoming_place(),
                    },
                    OnError::Fail,
                );
                if plan.disk().is_link(&bin_place()) {
                    plan.step(Act::RemoveFile(bin_place()), OnError::Fail);
                }
                plan.step(
                    Act::Rename { from: incoming_place(), to: bin_place() },
                    OnError::Fail,
                );
            },
            None => {
                // Nothing is linked. Remove a stray link and leave the store be.
                if plan.disk().is_link(&bin_place()) {
                    plan.step(Act::RemoveFile(bin_place()), OnError::Fail);
                }
            },
        }
        let left: Vec<Dated> = list_store(plan.disk(), self.versions_path().as_str());
        let retained_bytes: u64 = sum_bytes(&left);
        Ok(DisableReport { kept, retained: undate(left), retained_bytes })
    }
}

/// What a repair makes of a plan, and how it ends.
pub open spec fn repair(
    plan: PlanView,
    mode: Mode,
    game_dir: Seq<char>,
    versions: Seq<char>,
) -> (PlanView, Result<(), StoreErrorView>) {
    match mode {
        Mode::MultiVersion => {
            let p = plan.with_incoming();
            let q = p.without_dangling_link();
            (
                plan.repairing_multi(versions),
                if !p.disk.is_dir(bin()) && !q.disk.taken(bin()) && q.cannot_link(versions) {
                    Err(StoreErrorView::Tag(TagError::Reserved))
                } else {
                    Ok(())
                },
            )
        },
        Mode::Compatible => (
            plan.repairing_compatible(),
            if plan.compatible_is_blocked() {
                Err(StoreErrorView::Io(interrupted(game_dir)))
            } else {
                Ok(())
            },
        ),
    }
}

/// What turning to versions side by side makes of a plan, and how it ends.
pub open spec fn enabling(plan: PlanView, game_dir: Seq<char>, versions: Seq<char>) -> (
    PlanView,
    Result<(), StoreErrorView>,
) {
    if plan.disk.is_dir(bin()) {
        (plan.adopting_bin(), Ok(()))
    } else {
        repair(plan, Mode::MultiVersion, game_dir, versions)
    }
}

/// What leads to a directory is there.
proof fn landed_is_taken(d: DiskView, spot: Spot)
    ensures
        d.resolves(spot) ==> d.taken(spot),
{
}

/// Whatever is listed is a directory of the store.
pub proof fn stored_are_directories(d: DiskView, versions: Seq<char>, i: int)
    requires
        d.is_proper(),
        0 <= i < stored(d, versions).len(),
    ensures
        d.is_dir(version(stored(d, versions)[i].build.name)),
{
    let before = |a: DatedView, b: DatedView| a.modified > b.modified;
    let all = listing(d.entries, versions);
    let x = stored(d, versions)[i];
    order::ordered_is_in_order(all, before);
    assert(order::ordered(all, before).to_multiset().contains(x)) by {
        broadcast use vstd::seq_lib::group_to_multiset_ensures;

        assert(order::ordered(all, before).contains(x));
    }
    assert(all.contains(x)) by {
        broadcast use vstd::seq_lib::group_to_multiset_ensures;

    }
    let j = choose|j: int| 0 <= j < all.len() && all[j] == x;
    listing_comes_from(d.entries, versions, j);
    let k = choose|k: int|
        0 <= k < d.entries.len() && listed(#[trigger] d.entries[k], versions) == Some(x);
    let spot = d.entries[k].spot;
    disk::index_is_first(d, spot);
    if d.index(spot) != k {
        assert(d.entries[d.index(spot)].spot == d.entries[k].spot);
    }
}

proof fn listing_comes_from(entries: Seq<EntryView>, versions: Seq<char>, j: int)
    requires
        0 <= j < listing(entries, versions).len(),
    ensures
        exists|k: int|
            0 <= k < entries.len() && listed(#[trigger] entries[k], versions) == Some(
                listing(entries, versions)[j],
            ),
    decreases entries.len(),
{
    let init = entries.drop_last();
    let before = listing(init, versions);
    if j < before.len() {
        listing_comes_from(init, versions, j);
        let k = choose|k: int|
            0 <= k < init.len() && listed(#[trigger] init[k], versions) == Some(before[j]);
        assert(entries[k] == init[k]);
    } else {
        assert(listed(entries[entries.len() - 1], versions) == Some(
            listing(entries, versions)[j],
        ));
    }
}

/// Whether an entry is a build that is listed: a directory among the versions whose name
/// does not begin with a dot.
pub open spec fn is_a_build() -> spec_fn(EntryView) -> bool {
    |e: EntryView|
        e.node is Dir && e.spot.folder == Folder::Versions && !(e.spot.name.len() > 0
            && e.spot.name[0] == '.')
}

/// Every build among the versions is listed, and nothing else: with the name of its
/// directory, the tag its version file gives or that name where it gives none, the path it
/// has, and whether it can be started.
pub proof fn every_build_is_listed(entries: Seq<EntryView>, versions: Seq<char>)
    ensures
        listing(entries, versions).len() == entries.filter(is_a_build()).len(),
        forall|k: int|
            #![trigger listing(entries, versions)[k]]
            0 <= k < listing(entries, versions).len() ==> {
                let entry = entries.filter(is_a_build())[k];
                let one = listing(entries, versions)[k];
                let said = text::trimmed(
                    match entry.node->build.version {
                        Some(v) => v,
                        None => seq![],
                    },
                );
                &&& one.build.name == entry.spot.name
                &&& one.build.dir == path::under(versions, entry.spot.name)
                &&& one.build.can_launch == entry.node->build.launches
                &&& one.build.tag == if said.len() > 0 && said != "unknown"@ {
                    said
                } else {
                    entry.spot.name
                }
                &&& one.bytes == entry.node->build.bytes
                &&& one.modified == match entry.node->Dir_modified {
                    Some(t) => t,
                    None => 0,
                }
            },
    decreases entries.len(),
{
    reveal(Seq::filter);
    reveal_strlit("unknown");
    if entries.len() > 0 {
        every_build_is_listed(entries.drop_last(), versions);
        let none: Seq<char> = seq![];
        assert(text::trimmed(none).len() == 0) by {
            reveal_with_fuel(text::trimmed_start, 2);
            reveal_with_fuel(text::trimmed_end, 2);
        }
    }
}

/// Builds are listed the most recently changed first, all of them.
pub proof fn builds_are_listed_by_age(d: DiskView, versions: Seq<char>, i: int, j: int)
    ensures
        d.has_versions ==> stored(d, versions).to_multiset() == listing(
            d.entries,
            versions,
        ).to_multiset() && stored(d, versions).len() == listing(d.entries, versions).len(),
        !d.has_versions ==> stored(d, versions).len() == 0,
        0 <= i < j < stored(d, versions).len() ==> stored(d, versions)[i].modified >= stored(
            d,
            versions,
        )[j].modified,
        undated(stored(d, versions)).len() == stored(d, versions).len(),
        0 <= i < stored(d, versions).len() ==> undated(stored(d, versions))[i] == stored(
            d,
            versions,
        )[i].build,
{
    if d.has_versions {
        let before = |a: DatedView, b: DatedView| a.modified > b.modified;
        order::ordered_is_in_order(listing(d.entries, versions), before);
        if 0 <= i < j < stored(d, versions).len() {
            assert(!before(stored(d, versions)[j], stored(d, versions)[i]));
        }
    }
}

/// What builds take up is the sum of what each takes up, as far as that can be held.
pub proof fn sizes_are_added(s: Seq<DatedView>, one: DatedView)
    ensures
        total_bytes(seq![]) == 0,
        total_bytes(s) + one.bytes <= u64::MAX ==> total_bytes(s.push(one)) == total_bytes(s)
            + one.bytes,
        total_bytes(s) + one.bytes > u64::MAX ==> total_bytes(s.push(one)) == u64::MAX,
{
    assert(s.push(one).drop_last() =~= s);
}

/// Where one build is kept at a time it is the one in `bin`, and it is active by its tag;
/// where builds are kept side by side all that are stored are installed, and the one the
/// link names is active.
pub proof fn what_is_installed(
    d: DiskView,
    bin_dir: Seq<char>,
    versions: Seq<char>,
    build: disk::BuildView,
)
    ensures
        installations(d, Mode::MultiVersion, bin_dir, versions) == undated(stored(d, versions)),
        active_in(d, Mode::MultiVersion) == active_version(d),
        d.landing(bin()) == LandingView::Dir(build) ==> {
            let said = text::trimmed(
                match build.version {
                    Some(v) => v,
                    None => seq![],
                },
            );
            let tag = if said.len() > 0 {
                said
            } else {
                "unknown"@
            };
            &&& installations(d, Mode::Compatible, bin_dir, versions) == seq![
                InstalledView { tag, name: "bin"@, dir: bin_dir, can_launch: build.launches },
            ]
            &&& active_in(d, Mode::Compatible) == Some(tag)
        },
        !(d.landing(bin()) is Dir) ==> installations(d, Mode::Compatible, bin_dir, versions).len()
            == 0 && active_in(d, Mode::Compatible) is None,
{
    let none: Seq<char> = seq![];
    assert(text::trimmed(none).len() == 0) by {
        reveal_with_fuel(text::trimmed_start, 2);
        reveal_with_fuel(text::trimmed_end, 2);
    }
}

/// The link names the version that stands last in its target, where that is one of the
/// directory `versions`.
pub proof fn links_name_their_version(target: Seq<char>, above: Seq<char>, name: Seq<char>)
    requires
        path::is_plain(name),
        above.len() > 0,
    ensures
        version_named("versions/"@ + name) == Some(name),
        version_named(above + seq!['/'] + "versions/"@ + name) == Some(name),
        version_named(name) is None,
{
    reveal_strlit("versions");
    reveal_strlit("versions/");
    let v = "versions"@;
    assert("versions/"@ =~= v + seq!['/']);
    assert(path::is_plain(v)) by {
        assert forall|i: int| 0 <= i < v.len() implies #[trigger] v[i] != '/' by {}
        path::plain_names(v, v, v);
    }
    path::paths_are_taken_apart(v, v);
    path::paths_are_taken_apart(v, name);
    assert("versions/"@ + name =~= v + seq!['/'] + name);
    path::paths_are_taken_apart(above, v);
    path::paths_are_taken_apart(above + seq!['/'] + v, name);
    assert(above + seq!['/'] + "versions/"@ + name =~= above + seq!['/'] + v + seq!['/'] + name);
}

/// A build is switched to where versions are kept side by side and one of that plain name
/// is there; each refusal says which of these does not hold.
pub proof fn switches_are_refused(d: DiskView, name: Seq<char>)
    ensures
        activation(d, Mode::Compatible, name) == Err::<(), StoreErrorView>(
            StoreErrorView::RequiresMultiVersion,
        ),
        !path::is_plain(name) ==> activation(d, Mode::MultiVersion, name) == Err::<
            (),
            StoreErrorView,
        >(StoreErrorView::Tag(TagError::Reserved)),
        path::is_plain(name) && !(d.landing(
            Spot { folder: Folder::Versions, name },
        ) is Dir) ==> activation(d, Mode::MultiVersion, name) == Err::<(), StoreErrorView>(
            StoreErrorView::NoSuchVersion(name),
        ),
        path::is_plain(name) && d.landing(Spot { folder: Folder::Versions, name }) is Dir
            ==> activation(d, Mode::MultiVersion, name) is Ok,
{
}

/// A build is removed where versions are kept side by side, it is there, and it is not the
/// active one; each refusal says which of these does not hold.
pub proof fn removals_are_refused(d: DiskView, name: Seq<char>)
    ensures
        removal(d, Mode::Compatible, name) == Err::<(), StoreErrorView>(
            StoreErrorView::RequiresMultiVersion,
        ),
        !path::is_plain(name) ==> removal(d, Mode::MultiVersion, name) == Err::<
            (),
            StoreErrorView,
        >(StoreErrorView::Tag(TagError::Reserved)),
        path::is_plain(name) && active_version(d) == Some(name) ==> removal(
            d,
            Mode::MultiVersion,
            name,
        ) == Err::<(), StoreErrorView>(StoreErrorView::RemoveActive),
        path::is_plain(name) && active_version(d) != Some(name) && d.landing(
            Spot { folder: Folder::Versions, name },
        ) is Nothing ==> removal(d, Mode::MultiVersion, name) == Err::<(), StoreErrorView>(
            StoreErrorView::NoSuchVersion(name),
        ),
        path::is_plain(name) && active_version(d) != Some(name) && !(d.landing(
            Spot { folder: Folder::Versions, name },
        ) is Nothing) ==> removal(d, Mode::MultiVersion, name) is Ok,
{
}

/// A directory that comes to the versions keeps its name where that is free, and else gets
/// the first number from two on with which it is.
pub proof fn taken_names_are_numbered(d: DiskView, base: Seq<char>, n: nat)
    ensures
        !d.taken(version(base)) ==> free_name(d, base) == base,
        n >= 2 && d.taken(version(base)) && (forall|k: nat|
            2 <= k < n ==> d.taken(version(#[trigger] numbered(base, k)))) && !d.taken(
            version(numbered(base, n)),
        ) ==> free_name(d, base) == numbered(base, n),
{
    let p = |k: int| !d.taken(version(candidate(base, k)));
    let end = d.entries.len() as int + 2;
    if !d.taken(version(base)) {
        assert(p(1));
        search::first_that_is(p, 1, end, 1);
    } else if n >= 2 && (forall|k: nat|
        2 <= k < n ==> d.taken(version(#[trigger] numbered(base, k)))) && !d.taken(
        version(numbered(base, n)),
    ) {
        assert forall|k: int| 1 <= k <= n - 1 implies d.taken(
            version(#[trigger] candidate(base, k)),
        ) by {
            if k >= 2 {
                assert(candidate(base, k) == numbered(base, k as nat));
            }
        }
        some_candidate_is_free(d, base, n - 1);
        assert(candidate(base, n as int) == numbered(base, n));
        assert forall|j: int| 1 <= j < n implies !#[trigger] p(j) by {
            assert(d.taken(version(candidate(base, j))));
        }
        assert(p(n as int));
        search::first_that_is(p, 1, end, n as int);
    }
}

/// A name with a number.
pub open spec fn numbered(base: Seq<char>, n: nat) -> Seq<char> {
    base + "-"@ + text::decimal(n)
}

/// What is no build is not listed, and taking it away changes nothing in the list.
pub proof fn only_builds_are_listed(entries: Seq<EntryView>, versions: Seq<char>, k: int)
    requires
        0 <= k < entries.len(),
        !(entries[k].node is Dir) || entries[k].spot.folder == Folder::Game || (
        entries[k].spot.name.len() > 0 && entries[k].spot.name[0] == '.'),
    ensures
        listing(entries.remove(k), versions) == listing(entries, versions),
    decreases entries.len(),
{
    let init = entries.drop_last();
    if k == init.len() {
        assert(entries.remove(k) =~= init);
    } else {
        only_builds_are_listed(init, versions, k);
        assert(entries.remove(k).drop_last() =~= init.remove(k));
        assert(entries.remove(k).last() == entries.last());
    }
}

} // verus!
