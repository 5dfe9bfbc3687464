//! What holds of the builds that are installed, whatever is done to them.

use vstd::prelude::*;

use crate::disk;
use crate::disk::{
    ActView, BuildView, DiskView, EntryView, Folder, LandingView, NodeView, OnError, PlanView,
    Spot, StepView,
};
use crate::error::{StoreErrorView, TagError};
use crate::game;
use crate::path;
use crate::store;
use crate::store::Mode;
use crate::text;

verus! {

broadcast use vstd::string::group_string_axioms;

// ---------------------------------------------------------------------------
// Builds are not lost
// ---------------------------------------------------------------------------

/// The build an entry is, if it is a directory.
pub open spec fn build_of(entry: EntryView) -> Option<BuildView> {
    match entry.node {
        NodeView::Dir { build, .. } => Some(build),
        _ => None,
    }
}

/// How many directories hold exactly `build`.
pub open spec fn copies(d: DiskView, build: BuildView) -> nat {
    d.entries.map_values(|e: EntryView| build_of(e)).to_multiset().count(Some(build))
}

/// Whether two directories hold the same builds, each as often.
pub open spec fn same_builds(a: DiskView, b: DiskView) -> bool {
    forall|build: BuildView| #[trigger] copies(a, build) == copies(b, build)
}

/// Whether none of the steps a plan has gained removes a directory.
pub open spec fn removes_no_tree(before: PlanView, after: PlanView) -> bool {
    &&& before.steps.len() <= after.steps.len()
    &&& forall|i: int|
        before.steps.len() <= i < after.steps.len() ==> !((
        #[trigger] after.steps[i]).act is RemoveTree)
}

proof fn copies_without(d: DiskView, spot: Spot, build: BuildView)
    requires
        !d.is_dir(spot),
    ensures
        copies(d.without(spot), build) == copies(d, build),
{
    broadcast use vstd::seq_lib::group_to_multiset_ensures;

    disk::index_is_first(d, spot);
    let i = d.index(spot);
    if i < d.entries.len() {
        let s = d.entries.map_values(|e: EntryView| build_of(e));
        let t = d.without(spot).entries.map_values(|e: EntryView| build_of(e));
        assert(t =~= s.remove(i));
        vstd::seq_lib::to_multiset_remove(s, i);
        assert(s[i] is None);
    }
}

proof fn copies_with(d: DiskView, spot: Spot, node: NodeView, build: BuildView)
    requires
        !d.is_dir(spot),
        !(node is Dir),
    ensures
        copies(d.with(spot, node), build) == copies(d, build),
{
    broadcast use vstd::seq_lib::group_to_multiset_ensures;

    disk::index_is_first(d, spot);
    let i = d.index(spot);
    let s = d.entries.map_values(|e: EntryView| build_of(e));
    let t = d.with(spot, node).entries.map_values(|e: EntryView| build_of(e));
    if i < d.entries.len() {
        assert(t =~= s.update(i, None));
        assert(s[i] is None);
        assert(t =~= s);
    } else {
        assert(t =~= s.push(None));
        vstd::seq_lib::to_multiset_build(s, None::<BuildView>);
    }
}

proof fn copies_moved(d: DiskView, from: Spot, to: Spot, build: BuildView)
    requires
        d.is_proper(),
        from != to,
        d.is_dir(from),
        !d.taken(to),
    ensures
        copies(d.without(from).with(to, d.node(from)->0), build) == copies(d, build),
{
    broadcast use vstd::seq_lib::group_to_multiset_ensures;

    disk::index_is_first(d, from);
    let i = d.index(from);
    let node = d.node(from)->0;
    let mid = d.without(from);
    let end = mid.with(to, node);
    disk::node_after_without(d, from, to);
    disk::index_is_first(mid, to);
    let s = d.entries.map_values(|e: EntryView| build_of(e));
    let t = mid.entries.map_values(|e: EntryView| build_of(e));
    let u = end.entries.map_values(|e: EntryView| build_of(e));
    assert(t =~= s.remove(i));
    vstd::seq_lib::to_multiset_remove(s, i);
    assert(u =~= t.push(s[i]));
    vstd::seq_lib::to_multiset_build(t, s[i]);
    assert(s.contains(s[i]));
    assert(s.to_multiset().contains(s[i]));
    assert(u.to_multiset() =~= s.to_multiset());
}

/// Whatever a step does, as long as it does not remove a directory, every build is
/// still there afterwards.
pub proof fn steps_keep_builds(plan: PlanView, act: ActView, on_error: OnError)
    requires
        plan.disk.is_proper(),
        !(act is RemoveTree),
    ensures
        same_builds(plan.disk, plan.step(act, on_error).disk),
{
    let d = plan.disk;
    let after = plan.step(act, on_error).disk;
    assert forall|build: BuildView| #[trigger] copies(d, build) == copies(after, build) by {
        if !plan.failed && !plan.skipping && d.allows(act) {
            match act {
                ActView::RemoveFile(spot) => copies_without(d, spot, build),
                ActView::Rename { from, to } => {
                    if from != to {
                        if d.is_dir(from) {
                            copies_moved(d, from, to, build);
                        } else {
                            copies_without(d, from, build);
                            disk::node_after_without(d, from, to);
                            copies_with(d.without(from), to, d.node(from)->0, build);
                        }
                    }
                },
                ActView::Symlink { at, target } => copies_with(
                    d,
                    at,
                    NodeView::Link { target, outside: LandingView::Nothing, modified: None },
                    build,
                ),
                ActView::Write { at, contents } => match d.node(at) {
                    Some(NodeView::Link { target, .. }) => copies_with(
                        d,
                        at,
                        NodeView::Link {
                            target,
                            outside: LandingView::File(Some(contents)),
                            modified: None,
                        },
                        build,
                    ),
                    _ => copies_with(
                        d,
                        at,
                        NodeView::File { contents: Some(contents), modified: None },
                        build,
                    ),
                },
                _ => {},
            }
        }
    }
}

/// A plan that gains steps none of which removes a directory loses no build.
pub open spec fn loses_nothing(before: PlanView, after: PlanView) -> bool {
    &&& removes_no_tree(before, after)
    &&& before.disk.is_proper() ==> after.disk.is_proper() && same_builds(before.disk, after.disk)
}

/// A step that does not remove a directory loses no build.
pub proof fn step_loses_nothing(before: PlanView, plan: PlanView, act: ActView, on_error: OnError)
    requires
        loses_nothing(before, plan),
        !(act is RemoveTree),
    ensures
        loses_nothing(before, plan.step(act, on_error)),
{
    let after = plan.step(act, on_error);
    disk::steps_stay_proper(plan, act, on_error);
    if before.disk.is_proper() {
        steps_keep_builds(plan, act, on_error);
    }
    assert forall|i: int| before.steps.len() <= i < after.steps.len() implies !((
    #[trigger] after.steps[i]).act is RemoveTree) by {
        if i < plan.steps.len() {
            assert(after.steps[i] == plan.steps[i]);
        }
    }
}

proof fn activating_loses_nothing(before: PlanView, plan: PlanView, name: Seq<char>)
    requires
        loses_nothing(before, plan),
    ensures
        loses_nothing(before, plan.activating(name)),
{
    let a = plan.step(ActView::MakeFolder(Folder::Game), OnError::Fail);
    step_loses_nothing(before, plan, ActView::MakeFolder(Folder::Game), OnError::Fail);
    let b = a.step(ActView::RemoveFile(store::link_in_progress()), OnError::Ignore);
    step_loses_nothing(before, a, ActView::RemoveFile(store::link_in_progress()), OnError::Ignore);
    let link = ActView::Symlink { at: store::link_in_progress(), target: "versions/"@ + name };
    let c = b.step(link, OnError::Fail);
    step_loses_nothing(before, b, link, OnError::Fail);
    step_loses_nothing(
        before,
        c,
        ActView::Rename { from: store::link_in_progress(), to: store::bin() },
        OnError::Fail,
    );
}

proof fn adopting_loses_nothing(before: PlanView, plan: PlanView, from: Spot)
    requires
        loses_nothing(before, plan),
    ensures
        loses_nothing(before, plan.adopting(from).0),
{
    let a = plan.step(ActView::MakeFolder(Folder::Versions), OnError::Fail);
    step_loses_nothing(before, plan, ActView::MakeFolder(Folder::Versions), OnError::Fail);
    step_loses_nothing(
        before,
        a,
        ActView::Rename { from, to: store::version(plan.adopting(from).1) },
        OnError::Fail,
    );
}

/// Making a version the active one deletes no build.
pub proof fn activating_keeps_builds(plan: PlanView, name: Seq<char>)
    ensures
        loses_nothing(plan, plan.activating(name)),
{
    activating_loses_nothing(plan, plan, name);
}

/// Going back to one installation deletes no build.
pub proof fn disabling_keeps_builds(plan: PlanView)
    ensures
        loses_nothing(plan, plan.disabling()),
{
    disabling_loses_nothing(plan, plan);
}

proof fn disabling_loses_nothing(before: PlanView, plan: PlanView)
    requires
        loses_nothing(before, plan),
    ensures
        loses_nothing(before, plan.disabling()),
{
    match store::active_version(plan.disk) {
        Some(active) => {
            let out = ActView::Rename { from: store::version(active), to: store::incoming() };
            let a = plan.step(out, OnError::Fail);
            step_loses_nothing(before, plan, out, OnError::Fail);
            step_loses_nothing(before, a, ActView::RemoveFile(store::bin()), OnError::Fail);
            let b = if a.disk.is_link(store::bin()) {
                a.step(ActView::RemoveFile(store::bin()), OnError::Fail)
            } else {
                a
            };
            step_loses_nothing(
                before,
                b,
                ActView::Rename { from: store::incoming(), to: store::bin() },
                OnError::Fail,
            );
        },
        None => step_loses_nothing(before, plan, ActView::RemoveFile(store::bin()), OnError::Fail),
    }
}

/// Repairing a layout deletes no build, whichever layout it is.
pub proof fn repairing_keeps_builds(
    plan: PlanView,
    mode: Mode,
    game_dir: Seq<char>,
    versions: Seq<char>,
)
    ensures
        loses_nothing(plan, store::repair(plan, mode, game_dir, versions).0),
{
    match mode {
        Mode::MultiVersion => {
            adopting_loses_nothing(plan, plan, store::incoming());
            let p = plan.with_incoming();
            adopting_loses_nothing(plan, p, store::bin());
            activating_loses_nothing(plan, p.adopting(store::bin()).0, p.adopting(store::bin()).1);
            step_loses_nothing(plan, p, ActView::RemoveFile(store::bin()), OnError::Fail);
            let q = p.without_dangling_link();
            let all = store::stored(q.disk, versions);
            if all.len() > 0 {
                activating_loses_nothing(plan, q, all[0].build.name);
            }
        },
        Mode::Compatible => {
            step_loses_nothing(plan, plan, ActView::RemoveFile(store::bin()), OnError::Fail);
            let p = plan.clearing_the_way();
            step_loses_nothing(
                plan,
                p,
                ActView::Rename { from: store::incoming(), to: store::bin() },
                OnError::Fail,
            );
            step_loses_nothing(plan, p, ActView::RemoveFile(store::bin()), OnError::Fail);
            disabling_loses_nothing(plan, p);
        },
    }
}

/// Turning to versions side by side deletes no build.
pub proof fn enabling_keeps_builds(plan: PlanView, game_dir: Seq<char>, versions: Seq<char>)
    ensures
        loses_nothing(plan, store::enabling(plan, game_dir, versions).0),
{
    adopting_loses_nothing(plan, plan, store::bin());
    activating_loses_nothing(plan, plan.adopting(store::bin()).0, plan.adopting(store::bin()).1);
    repairing_keeps_builds(plan, Mode::MultiVersion, game_dir, versions);
}

// ---------------------------------------------------------------------------
// The active version
// ---------------------------------------------------------------------------

proof fn own_link_is_read_back(name: Seq<char>, versions_dir: Seq<char>)
    requires
        path::is_plain(name),
    ensures
        disk::linked_version("versions/"@ + name, versions_dir) == Some(name),
        store::version_named("versions/"@ + name) == Some(name),
{
    reveal_strlit("versions/");
    reveal_strlit("versions");
    let target = "versions/"@ + name;
    assert(target.take(9) =~= "versions/"@);
    assert(target.skip(9) =~= name);
    let head = "versions"@;
    assert(target =~= head + seq!['/'] + name);
    assert(!head.contains('/')) by {
        if head.contains('/') {
            let i = choose|i: int| 0 <= i < head.len() && head[i] == '/';
            assert(head[0] == 'v' && head[1] == 'e' && head[2] == 'r' && head[3] == 's' && head[4]
                == 'i' && head[5] == 'o' && head[6] == 'n' && head[7] == 's');
        }
    }
    crate::text_lemmas::before_first_after(head, '/', name);
    assert(target.take(8) =~= head);
    assert(target.skip(9) =~= name);
    assert(target[0] == 'v');
    crate::text_lemmas::before_first_is_first(name, '/');
    assert(name.take(name.len() as int) =~= name);
    assert(path::parts(name, false) =~= seq![name]);
    assert(path::parts(target, true) =~= seq![head, name]);
}

/// Whether nothing stands in the way of making a link to a version.
pub open spec fn can_be_linked(d: DiskView) -> bool {
    !d.is_dir(store::bin()) && !d.is_dir(store::link_in_progress())
}

/// What making a version the active one does: `bin` leads to that version, the version
/// is what is reported as active, and nothing else is changed.
pub proof fn activating_activates(plan: PlanView, name: Seq<char>)
    requires
        plan.ready(),
        store::activation(plan.disk, Mode::MultiVersion, name) is Ok,
        can_be_linked(plan.disk),
    ensures
        ({
            let after = plan.activating(name);
            &&& after.ready()
            &&& store::active_in(after.disk, Mode::MultiVersion) == Some(name)
            &&& after.disk.landing(store::bin()) == plan.disk.landing(store::version(name))
            &&& after.disk.resolves(store::bin())
            &&& after.disk.is_link(store::bin())
            &&& !after.disk.taken(store::link_in_progress())
            &&& after.disk.has_versions == plan.disk.has_versions
            &&& after.disk.versions_dir == plan.disk.versions_dir
            &&& forall|other: Spot|
                other != store::bin() && other != store::link_in_progress()
                    ==> #[trigger] after.disk.node(other) == plan.disk.node(other)
        }),
{
    reveal_strlit("bin");
    reveal_strlit(".bin.tmp");
    assert("bin"@[0] != ".bin.tmp"@[0]);
    let tmp = store::link_in_progress();
    let bin = store::bin();
    assert(tmp != bin);
    let target = "versions/"@ + name;
    own_link_is_read_back(name, plan.disk.versions_dir);
    let a = plan.step(ActView::MakeFolder(Folder::Game), OnError::Fail);
    let d = a.disk;
    assert(d =~= plan.disk);
    let b = a.step(ActView::RemoveFile(tmp), OnError::Ignore);
    disk::steps_stay_proper(a, ActView::RemoveFile(tmp), OnError::Ignore);
    disk::node_after_without(d, tmp, bin);
    assert(!b.disk.taken(tmp));
    assert(b.disk.node(bin) == d.node(bin));
    let link = NodeView::Link { target, outside: LandingView::Nothing, modified: None };
    let c = b.step(ActView::Symlink { at: tmp, target }, OnError::Fail);
    disk::steps_stay_proper(b, ActView::Symlink { at: tmp, target }, OnError::Fail);
    disk::node_after_with(b.disk, tmp, link, bin);
    assert(c.disk == b.disk.with(tmp, link));
    let move_it = ActView::Rename { from: tmp, to: bin };
    let e = c.step(move_it, OnError::Fail);
    disk::steps_stay_proper(c, move_it, OnError::Fail);
    assert(c.disk.allows(move_it));
    disk::node_after_without(c.disk, tmp, bin);
    disk::node_after_with(c.disk.without(tmp), bin, link, tmp);
    assert(e.disk.node(bin) == Some(link));
    assert forall|other: Spot| other != bin && other != tmp implies #[trigger] e.disk.node(other)
        == plan.disk.node(other) by {
        disk::node_after_without(d, tmp, other);
        disk::node_after_with(b.disk, tmp, link, other);
        disk::node_after_without(c.disk, tmp, other);
        disk::node_after_with(c.disk.without(tmp), bin, link, other);
    }
    assert(e.disk.node(store::version(name)) == plan.disk.node(store::version(name)));
}

/// While a version is being made the active one there is no moment without an
/// installation in use: after every step `bin` is what it was, or leads to the version.
pub proof fn activating_never_unlinks(plan: PlanView, name: Seq<char>, steps: Seq<StepView>, k: int)
    requires
        plan.ready(),
        store::activation(plan.disk, Mode::MultiVersion, name) is Ok,
        can_be_linked(plan.disk),
        0 <= k <= 4,
        steps == plan.activating(name).steps.skip(plan.steps.len() as int),
    ensures
        ({
            let d = plan.steps(steps.take(k)).disk;
            d.node(store::bin()) == plan.disk.node(store::bin()) || d.landing(store::bin())
                == plan.disk.landing(store::version(name))
        }),
{
    reveal_strlit("bin");
    reveal_strlit(".bin.tmp");
    assert("bin"@[0] != ".bin.tmp"@[0]);
    let tmp = store::link_in_progress();
    let bin = store::bin();
    let target = "versions/"@ + name;
    let a = plan.step(ActView::MakeFolder(Folder::Game), OnError::Fail);
    let b = a.step(ActView::RemoveFile(tmp), OnError::Ignore);
    let c = b.step(ActView::Symlink { at: tmp, target }, OnError::Fail);
    let e = c.step(ActView::Rename { from: tmp, to: bin }, OnError::Fail);
    let all = seq![
        StepView { act: ActView::MakeFolder(Folder::Game), on_error: OnError::Fail },
        StepView { act: ActView::RemoveFile(tmp), on_error: OnError::Ignore },
        StepView { act: ActView::Symlink { at: tmp, target }, on_error: OnError::Fail },
        StepView { act: ActView::Rename { from: tmp, to: bin }, on_error: OnError::Fail },
    ];
    assert(steps =~= all);
    assert(plan.steps(steps.take(0)) == plan) by {
        assert(steps.take(0) =~= seq![]);
    }
    assert(steps.take(1).drop_last() =~= steps.take(0));
    assert(steps.take(2).drop_last() =~= steps.take(1));
    assert(steps.take(3).drop_last() =~= steps.take(2));
    assert(steps.take(4).drop_last() =~= steps.take(3));
    assert(plan.steps(steps.take(1)) == a);
    assert(plan.steps(steps.take(2)) == b);
    assert(plan.steps(steps.take(3)) == c);
    assert(plan.steps(steps.take(4)) == e);
    assert(a.disk =~= plan.disk);
    disk::steps_stay_proper(a, ActView::RemoveFile(tmp), OnError::Ignore);
    disk::node_after_without(a.disk, tmp, bin);
    disk::node_after_with(
        b.disk,
        tmp,
        NodeView::Link { target, outside: LandingView::Nothing, modified: None },
        bin,
    );
    activating_activates(plan, name);
}

/// What removing a version does: it is gone, and nothing else is, least of all the
/// active one.
pub proof fn removing_removes_one(plan: PlanView, name: Seq<char>)
    requires
        plan.ready(),
        store::removal(plan.disk, Mode::MultiVersion, name) is Ok,
        plan.disk.is_dir(store::version(name)) || plan.disk.is_link(store::version(name)),
    ensures
        ({
            let after = plan.step(ActView::RemoveTree(store::version(name)), OnError::Fail);
            &&& after.ready()
            &&& !after.disk.taken(store::version(name))
            &&& store::active_version(after.disk) == store::active_version(plan.disk)
            &&& store::active_version(plan.disk) != Some(name)
            &&& forall|other: Spot|
                other != store::version(name) ==> #[trigger] after.disk.node(other)
                    == plan.disk.node(other)
        }),
{
    let spot = store::version(name);
    disk::steps_stay_proper(plan, ActView::RemoveTree(spot), OnError::Fail);
    assert forall|other: Spot| other != spot implies #[trigger] plan.disk.without(spot).node(other)
        == plan.disk.node(other) by {
        disk::node_after_without(plan.disk, spot, other);
    }
    disk::node_after_without(plan.disk, spot, store::bin());
}

// ---------------------------------------------------------------------------
// Going from one layout to the other
// ---------------------------------------------------------------------------

/// Whether `bin` is a link to a version that is a directory of the store.
pub open spec fn linked_to(d: DiskView, name: Seq<char>) -> bool {
    &&& d.is_dir(store::version(name))
    &&& d.node(store::bin()) matches Some(NodeView::Link { target, .. })
        && disk::linked_version(target, d.versions_dir) == Some(name)
        && store::version_named(target) == Some(name)
}

proof fn spots_differ()
    ensures
        store::bin() != store::incoming(),
        store::bin() != store::link_in_progress(),
        store::incoming() != store::link_in_progress(),
{
    reveal_strlit("bin");
    reveal_strlit(".bin.incoming");
    reveal_strlit(".bin.tmp");
    assert("bin"@[0] != ".bin.incoming"@[0]);
    assert("bin"@[0] != ".bin.tmp"@[0]);
    assert(".bin.incoming"@.len() != ".bin.tmp"@.len());
}

/// The three steps of going back to one installation, one after the other.
proof fn collapsing_step_by_step(plan: PlanView, name: Seq<char>)
    requires
        plan.ready(),
        linked_to(plan.disk, name),
        !plan.disk.taken(store::incoming()),
    ensures
        ({
            let bin = store::bin();
            let inc = store::incoming();
            let v = store::version(name);
            let a = plan.step(ActView::Rename { from: v, to: inc }, OnError::Fail);
            let b = a.step(ActView::RemoveFile(bin), OnError::Fail);
            let c = b.step(ActView::Rename { from: inc, to: bin }, OnError::Fail);
            &&& a.ready() && b.ready() && c.ready()
            &&& plan.disabling() == c
            &&& a.disk.node(inc) == plan.disk.node(v) && !a.disk.taken(v) && a.disk.node(bin)
                == plan.disk.node(bin)
            &&& b.disk.node(inc) == plan.disk.node(v) && !b.disk.taken(v) && !b.disk.taken(bin)
            &&& c.disk.node(bin) == plan.disk.node(v) && !c.disk.taken(v) && !c.disk.taken(inc)
            &&& a.disk.versions_dir == plan.disk.versions_dir
            &&& c.disk.versions_dir == plan.disk.versions_dir
            &&& forall|other: Spot|
                other != bin && other != inc && other != v ==> #[trigger] c.disk.node(other)
                    == plan.disk.node(other)
        }),
{
    spots_differ();
    let bin = store::bin();
    let inc = store::incoming();
    let v = store::version(name);
    let d = plan.disk;
    let node = d.node(v)->0;
    let one = ActView::Rename { from: v, to: inc };
    let two = ActView::RemoveFile(bin);
    let three = ActView::Rename { from: inc, to: bin };
    let a = plan.step(one, OnError::Fail);
    disk::steps_stay_proper(plan, one, OnError::Fail);
    disk::node_after_without(d, v, inc);
    disk::node_after_without(d, v, bin);
    disk::node_after_with(d.without(v), inc, node, v);
    disk::node_after_with(d.without(v), inc, node, bin);
    let b = a.step(two, OnError::Fail);
    disk::steps_stay_proper(a, two, OnError::Fail);
    disk::node_after_without(a.disk, bin, inc);
    disk::node_after_without(a.disk, bin, v);
    let c = b.step(three, OnError::Fail);
    disk::steps_stay_proper(b, three, OnError::Fail);
    disk::node_after_without(b.disk, inc, bin);
    disk::node_after_without(b.disk, inc, v);
    disk::node_after_with(b.disk.without(inc), bin, node, inc);
    disk::node_after_with(b.disk.without(inc), bin, node, v);
    assert forall|other: Spot|
        other != bin && other != inc && other != v implies #[trigger] c.disk.node(other)
        == plan.disk.node(other) by {
        disk::node_after_without(d, v, other);
        disk::node_after_with(d.without(v), inc, node, other);
        disk::node_after_without(a.disk, bin, other);
        disk::node_after_without(b.disk, inc, other);
        disk::node_after_with(b.disk.without(inc), bin, node, other);
    }
}

/// Going back to one installation puts the active version into `bin`, and leaves every
/// other version where it was.
pub proof fn disabling_collapses(plan: PlanView, name: Seq<char>)
    requires
        plan.ready(),
        linked_to(plan.disk, name),
        !plan.disk.taken(store::incoming()),
    ensures
        ({
            let after = plan.disabling();
            &&& after.ready()
            &&& after.disk.node(store::bin()) == plan.disk.node(store::version(name))
            &&& !after.disk.taken(store::version(name))
            &&& !after.disk.taken(store::incoming())
            &&& forall|other: Spot|
                other != store::bin() && other != store::incoming() && other != store::version(
                    name,
                ) ==> #[trigger] after.disk.node(other) == plan.disk.node(other)
        }),
{
    collapsing_step_by_step(plan, name);
}

/// Going back to one installation can be cut short after any of its steps: repairing
/// the layout then finishes it, and the active version ends up in `bin` all the same.
pub proof fn interrupted_collapse_is_finished(
    plan: PlanView,
    name: Seq<char>,
    steps: Seq<StepView>,
    k: int,
)
    requires
        plan.ready(),
        linked_to(plan.disk, name),
        !plan.disk.taken(store::incoming()),
        0 <= k <= 3,
        steps == plan.disabling().steps.skip(plan.steps.len() as int),
    ensures
        ({
            let found = plan.steps(steps.take(k)).disk;
            let repaired = disk::no_steps(found).repairing_compatible();
            &&& !repaired.failed
            &&& repaired.disk.node(store::bin()) == plan.disk.node(store::version(name))
        }),
{
    spots_differ();
    collapsing_step_by_step(plan, name);
    let bin = store::bin();
    let inc = store::incoming();
    let v = store::version(name);
    let one = ActView::Rename { from: v, to: inc };
    let two = ActView::RemoveFile(bin);
    let three = ActView::Rename { from: inc, to: bin };
    let a = plan.step(one, OnError::Fail);
    let b = a.step(two, OnError::Fail);
    let c = b.step(three, OnError::Fail);
    let node = plan.disk.node(v)->0;
    let all = seq![
        StepView { act: one, on_error: OnError::Fail },
        StepView { act: two, on_error: OnError::Fail },
        StepView { act: three, on_error: OnError::Fail },
    ];
    assert(steps =~= all);
    assert(plan.steps(steps.take(0)) == plan) by {
        assert(steps.take(0) =~= seq![]);
    }
    assert(steps.take(1).drop_last() =~= steps.take(0));
    assert(steps.take(2).drop_last() =~= steps.take(1));
    assert(steps.take(3).drop_last() =~= steps.take(2));
    assert(plan.steps(steps.take(1)) == a);
    assert(plan.steps(steps.take(2)) == b);
    assert(plan.steps(steps.take(3)) == c);
    if k == 0 {
        let start = disk::no_steps(plan.disk);
        assert(start.clearing_the_way() == start);
        collapsing_step_by_step(start, name);
        assert(start.repairing_compatible() == start.disabling());
    } else if k == 1 {
        let start = disk::no_steps(a.disk);
        assert(start.disk.resolves(inc));
        let cleared = start.step(two, OnError::Fail);
        assert(start.clearing_the_way() == cleared);
        disk::steps_stay_proper(start, two, OnError::Fail);
        disk::node_after_without(a.disk, bin, inc);
        disk::node_after_without(a.disk, bin, bin);
        assert(cleared.can_finish());
        disk::node_after_without(cleared.disk, inc, bin);
        disk::node_after_with(cleared.disk.without(inc), bin, node, inc);
    } else if k == 2 {
        let start = disk::no_steps(b.disk);
        assert(start.can_finish());
        disk::node_after_without(b.disk, inc, bin);
        disk::node_after_with(b.disk.without(inc), bin, node, inc);
    } else {
        let start = disk::no_steps(c.disk);
        assert(!start.disk.is_link(bin));
        assert(start.clearing_the_way() == start);
        assert(start.repairing_compatible() == start);
    }
}

/// Turning to versions side by side makes what is installed the active version.
pub proof fn enabling_activates_what_was_there(
    plan: PlanView,
    game_dir: Seq<char>,
    versions: Seq<char>,
)
    requires
        plan.ready(),
        plan.disk.is_dir(store::bin()),
        !plan.disk.is_dir(store::link_in_progress()),
    ensures
        ({
            let after = store::enabling(plan, game_dir, versions).0;
            &&& after.ready()
            &&& after.disk.is_link(store::bin())
            &&& after.disk.landing(store::bin()) == plan.disk.landing(store::bin())
            &&& store::active_version(after.disk) is Some
        }),
{
    spots_differ();
    let (p, name) = plan.adopting(store::bin());
    store::adopting_moves(plan, store::bin());
    assert(p.disk.node(store::link_in_progress()) == plan.disk.node(store::link_in_progress()));
    activating_activates(p, name);
}

/// There and back again: after going back to one installation and turning to versions
/// side by side once more, the build that was active is active.
pub proof fn layouts_round_trip(
    plan: PlanView,
    name: Seq<char>,
    game_dir: Seq<char>,
    versions: Seq<char>,
)
    requires
        plan.ready(),
        linked_to(plan.disk, name),
        !plan.disk.taken(store::incoming()),
        !plan.disk.is_dir(store::link_in_progress()),
    ensures
        ({
            let after = store::enabling(plan.disabling(), game_dir, versions).0;
            &&& after.ready()
            &&& after.disk.landing(store::bin()) == plan.disk.landing(store::bin())
            &&& store::active_version(after.disk) is Some
        }),
{
    spots_differ();
    disabling_collapses(plan, name);
    let middle = plan.disabling();
    assert(middle.disk.node(store::link_in_progress()) == plan.disk.node(
        store::link_in_progress(),
    ));
    enabling_activates_what_was_there(middle, game_dir, versions);
}

/// A layout that was repaired needs no more repair.
pub proof fn repairs_settle(plan: PlanView, game_dir: Seq<char>, versions: Seq<char>)
    requires
        plan.ready(),
        !plan.disk.is_link(store::incoming()),
        !plan.disk.is_dir(store::link_in_progress()),
        store::repair(plan, Mode::MultiVersion, game_dir, versions).1 is Ok,
    ensures
        ({
            let once = store::repair(plan, Mode::MultiVersion, game_dir, versions).0;
            let again = disk::no_steps(once.disk);
            &&& once.ready()
            &&& store::repair(again, Mode::MultiVersion, game_dir, versions).0 == again
        }),
{
    spots_differ();
    let bin = store::bin();
    let inc = store::incoming();
    let tmp = store::link_in_progress();
    if plan.disk.resolves(inc) {
        store::adopting_moves(plan, inc);
    }
    let p = plan.with_incoming();
    assert(p.ready());
    assert(!p.disk.resolves(inc) && !p.disk.is_link(inc));
    assert(p.disk.node(tmp) == plan.disk.node(tmp));
    let once = plan.repairing_multi(versions);
    if p.disk.is_dir(bin) {
        let (moved, name) = p.adopting(bin);
        store::adopting_moves(p, bin);
        assert(moved.disk.node(tmp) == p.disk.node(tmp));
        assert(moved.disk.node(inc) == p.disk.node(inc));
        activating_activates(moved, name);
        assert(once.disk.node(inc) == moved.disk.node(inc));
    } else {
        let q = p.without_dangling_link();
        if p.disk.is_link(bin) && !p.disk.leads_somewhere(bin) {
            disk::steps_stay_proper(p, ActView::RemoveFile(bin), OnError::Fail);
            disk::node_after_without(p.disk, bin, inc);
            disk::node_after_without(p.disk, bin, tmp);
            disk::node_after_without(p.disk, bin, bin);
        }
        assert(q.ready());
        if !q.disk.taken(bin) {
            let all = store::stored(q.disk, versions);
            if all.len() > 0 {
                let name = all[0].build.name;
                store::stored_are_directories(q.disk, versions, 0);
                activating_activates(q, name);
                assert(once.disk.node(inc) == q.disk.node(inc));
            }
        }
    }
    let again = disk::no_steps(once.disk);
    assert(again.with_incoming() == again);
    assert(again.without_dangling_link() == again);
}

/// Where there is neither a build nor a link in `bin`, and none waits to be put there, the
/// build that changed last is switched to.
pub proof fn a_missing_link_goes_to_the_newest(
    plan: PlanView,
    game_dir: Seq<char>,
    versions: Seq<char>,
)
    requires
        plan.ready(),
        !plan.disk.taken(store::bin()),
        !plan.disk.taken(store::incoming()),
        !plan.disk.is_dir(store::link_in_progress()),
        store::stored(plan.disk, versions).len() > 0,
        path::is_plain(store::stored(plan.disk, versions)[0].build.name),
    ensures
        ({
            let (after, outcome) = store::repair(plan, Mode::MultiVersion, game_dir, versions);
            let newest = store::stored(plan.disk, versions)[0];
            &&& outcome is Ok
            &&& after.ready()
            &&& store::active_version(after.disk) == Some(newest.build.name)
            &&& forall|i: int|
                0 <= i < store::stored(plan.disk, versions).len() ==> (#[trigger] store::stored(
                    plan.disk,
                    versions,
                )[i]).modified <= newest.modified
        }),
{
    let all = store::stored(plan.disk, versions);
    let name = all[0].build.name;
    store::stored_are_directories(plan.disk, versions, 0);
    activating_activates(plan, name);
    assert forall|i: int| 0 <= i < all.len() implies (#[trigger] all[i]).modified
        <= all[0].modified by {
        store::builds_are_listed_by_age(plan.disk, versions, 0, i);
    }
}

/// A build that comes to the versions is named by its tag, where that names a directory
/// nobody has; one that says nothing of its tag is called unknown.
pub proof fn adopted_builds_are_named_by_their_tag(
    plan: PlanView,
    from: Spot,
    build: disk::BuildView,
    name: Seq<char>,
)
    requires
        plan.ready(),
        plan.disk.node(from) matches Some(NodeView::Dir { build: b, .. }) && b == build,
    ensures
        build.version matches Some(v) ==> (text::trimmed(v).len() > 0 && game::directory_name(
            text::trimmed(v),
        ) == Ok::<Seq<char>, TagError>(name) && !plan.disk.taken(store::version(name))
            ==> plan.adopting(from).1 == name),
        build.version is None && !plan.disk.taken(store::version("unknown"@)) ==> plan.adopting(
            from,
        ).1 == "unknown"@,
{
    reveal_strlit("unknown");
    let p = plan.step(ActView::MakeFolder(Folder::Versions), OnError::Fail);
    let u = "unknown"@;
    disk::same_entries_same_nodes(plan.disk, p.disk, from);
    disk::same_entries_same_nodes(plan.disk, p.disk, store::version(name));
    disk::same_entries_same_nodes(plan.disk, p.disk, store::version(u));
    store::taken_names_are_numbered(p.disk, name, 0);
    store::taken_names_are_numbered(p.disk, u, 0);
    game::tags_name_their_directory(u, 0);
    if build.version is None {
        assert(game::directory_name(u) is Ok);
        assert forall|i: int| 0 <= i < u.len() implies game::directory_name(u)->Ok_0[i]
            == u[i] by {
            game::tags_name_their_directory(u, i);
        }
        assert(game::directory_name(u)->Ok_0 =~= u);
    }
}

/// An operation that was cut short is said by the path of what it left.
pub proof fn unfinished_changes_are_named(game_dir: Seq<char>)
    ensures
        store::interrupted(game_dir) == path::under(game_dir, ".bin.incoming"@)
            + " exists from an interrupted operation; run reconcile first"@,
{
}

/// The places the store works in, by name.
pub proof fn the_store_has_its_places(name: Seq<char>)
    ensures
        store::bin() == (Spot { folder: Folder::Game, name: "bin"@ }),
        store::incoming() == (Spot { folder: Folder::Game, name: ".bin.incoming"@ }),
        store::link_in_progress() == (Spot { folder: Folder::Game, name: ".bin.tmp"@ }),
        store::version(name) == (Spot { folder: Folder::Versions, name }),
{
}

/// A link that leads nowhere does not stay: it is taken away, and where versions are kept
/// side by side and there is one that link goes to the newest instead.
pub proof fn links_to_nowhere_are_taken_away(
    plan: PlanView,
    game_dir: Seq<char>,
    versions: Seq<char>,
)
    requires
        plan.ready(),
        plan.disk.is_link(store::bin()),
        !plan.disk.leads_somewhere(store::bin()),
        !plan.disk.taken(store::incoming()),
    ensures
        store::repair(plan, Mode::Compatible, game_dir, versions).1 is Ok,
        !store::repair(plan, Mode::Compatible, game_dir, versions).0.disk.taken(store::bin()),
        store::repair(plan, Mode::Compatible, game_dir, versions).0.ready(),
        store::stored(plan.disk, versions).len() == 0 ==> !store::repair(
            plan,
            Mode::MultiVersion,
            game_dir,
            versions,
        ).0.disk.taken(store::bin()),
{
    let act = ActView::RemoveFile(store::bin());
    disk::steps_do_what_they_say(plan, act, OnError::Fail, store::incoming());
    disk::steps_stay_proper(plan, act, OnError::Fail);
    if store::stored(plan.disk, versions).len() == 0 {
        let q = plan.step(act, OnError::Fail);
        store::builds_are_listed_by_age(plan.disk, versions, 0, 0);
        store::builds_are_listed_by_age(q.disk, versions, 0, 0);
        if plan.disk.has_versions {
            disk::index_is_first(plan.disk, store::bin());
            store::only_builds_are_listed(
                plan.disk.entries,
                versions,
                plan.disk.index(store::bin()),
            );
        }
    }
}

/// A build in a directory of its own goes back to `bin` where one build is kept at a time,
/// and what is in `bin` already is left alone.
pub proof fn one_build_is_left_alone(plan: PlanView, game_dir: Seq<char>, versions: Seq<char>)
    requires
        plan.ready(),
        plan.disk.is_dir(store::bin()),
        !plan.disk.taken(store::incoming()),
    ensures
        store::repair(plan, Mode::Compatible, game_dir, versions).0 == plan,
        store::repair(plan, Mode::Compatible, game_dir, versions).1 is Ok,
{
}

/// A build that waits beside `bin` is put there where nothing else is.
pub proof fn a_waiting_build_is_put_in_place(
    plan: PlanView,
    game_dir: Seq<char>,
    versions: Seq<char>,
)
    requires
        plan.ready(),
        !plan.disk.taken(store::bin()),
        plan.disk.is_dir(store::incoming()),
    ensures
        ({
            let (after, outcome) = store::repair(plan, Mode::Compatible, game_dir, versions);
            &&& outcome is Ok
            &&& after.ready()
            &&& after.disk.node(store::bin()) == plan.disk.node(store::incoming())
            &&& !after.disk.taken(store::incoming())
        }),
{
    reveal_strlit("bin");
    reveal_strlit(".bin.incoming");
    assert(store::bin().name[0] != store::incoming().name[0]);
    let act = ActView::Rename { from: store::incoming(), to: store::bin() };
    disk::steps_do_what_they_say(plan, act, OnError::Fail, store::bin());
    disk::steps_stay_proper(plan, act, OnError::Fail);
}

/// Where a link is in use and a file stands where a build would wait, neither can be made
/// sense of: the repair says so and changes nothing.
pub proof fn what_makes_no_sense_is_said(plan: PlanView, game_dir: Seq<char>, versions: Seq<char>)
    requires
        plan.ready(),
        plan.disk.is_link(store::bin()),
        plan.disk.leads_somewhere(store::bin()),
        plan.disk.landing(store::incoming()) is File,
    ensures
        store::repair(plan, Mode::Compatible, game_dir, versions) == (
            plan,
            Err::<(), StoreErrorView>(
                StoreErrorView::Io(
                    path::under(game_dir, ".bin.incoming"@)
                        + " exists from an interrupted operation; run reconcile first"@,
                ),
            ),
        ),
{
}

/// Where nothing is stored there is nothing to link, which is no error and changes nothing;
/// a stored build whose name cannot be linked is refused, and changes nothing either.
pub proof fn nothing_to_link_is_no_error(plan: PlanView, game_dir: Seq<char>, versions: Seq<char>)
    requires
        plan.ready(),
        !plan.disk.taken(store::bin()),
        !plan.disk.taken(store::incoming()),
    ensures
        store::stored(plan.disk, versions).len() == 0 ==> store::repair(
            plan,
            Mode::MultiVersion,
            game_dir,
            versions,
        ) == (plan, Ok::<(), StoreErrorView>(())),
        store::stored(plan.disk, versions).len() > 0 && !path::is_plain(
            store::stored(plan.disk, versions)[0].build.name,
        ) ==> store::repair(plan, Mode::MultiVersion, game_dir, versions) == (
            plan,
            Err::<(), StoreErrorView>(StoreErrorView::Tag(TagError::Reserved)),
        ),
{
}

} // verus!
