//! What holds of installs, finished or cut short.

use vstd::prelude::*;

use crate::disk;
use crate::disk::{
    ActView, DiskView, EntryView, Folder, LandingView, NodeView, OnError, PlanView, Spot,
};
use crate::error::{CoreErrorView, TagError};
use crate::game;
use crate::install;
use crate::install::InstallView;
use crate::search;
use crate::store;
use crate::store::Mode;
use crate::store_laws;
use crate::text;

verus! {

broadcast use vstd::string::group_string_axioms;

// ---------------------------------------------------------------------------
// Names
// ---------------------------------------------------------------------------

/// Two builds never share a directory: the name a build is installed under is free, or
/// holds the same tag already.
pub proof fn versions_are_not_shared(d: DiskView, safe_tag: Seq<char>, tag: Seq<char>)
    ensures
        install::takes(d, install::version_name(d, safe_tag, tag), tag),
{
    let p = |k: int| install::takes(d, store::candidate(safe_tag, k), tag);
    let n = d.entries.len() as int + 2;
    search::first_that_is_first(p, 1, n);
    let k = search::first_that(p, 1, n);
    if k == n {
        assert forall|j: int| 1 <= j <= n - 1 implies d.taken(
            store::version(#[trigger] store::candidate(safe_tag, j)),
        ) by {
            assert(!p(j));
        }
        store::some_candidate_is_free(d, safe_tag, n - 1);
    }
    assert(p(k));
}

/// The working entries of an install, and its destination, are all different.
pub open spec fn apart(i: InstallView) -> bool {
    &&& i.to() != i.trash()
    &&& i.to() != i.marker()
    &&& i.to() != i.staging()
    &&& i.to() != i.archive()
    &&& i.trash() != i.marker()
    &&& i.trash() != i.staging()
    &&& i.marker() != i.staging()
}

/// A name that does not begin with a dot keeps the entries of an install apart.
pub proof fn installs_work_apart(i: InstallView)
    requires
        i.name.len() > 0,
        i.name[0] != '.',
    ensures
        apart(i),
{
    reveal_strlit(".trash-");
    reveal_strlit(".trashmark-");
    reveal_strlit(".staging-");
    reveal_strlit(".download-");
    reveal_strlit("bin");
    assert(i.trash().name[0] == '.' && i.trash().name[6] == '-');
    assert(i.marker().name[0] == '.' && i.marker().name[6] == 'm');
    assert(i.staging().name[0] == '.' && i.staging().name[1] == 's');
    assert(i.archive().name[0] == '.');
    assert(i.trash().name[1] == 't' && i.marker().name[1] == 't');
    assert("bin"@[0] == 'b');
}

/// The name of an install does not begin with a dot.
pub proof fn install_names_are_visible(d: DiskView, mode: Mode, tag: Seq<char>)
    ensures
        install::install_of(d, mode, tag) matches Ok(i) ==> i.name.len() > 0 && i.name[0] != '.',
{
    crate::game::directory_names_are_plain(tag);
    match crate::game::directory_name(tag) {
        Ok(safe) => {
            assert(safe.len() > 0);
            let k = search::first_that(
                |k: int| install::takes(d, store::candidate(safe, k), tag),
                1,
                d.entries.len() as int + 2,
            );
            assert(store::candidate(safe, k)[0] == safe[0]);
        },
        Err(_) => {},
    }
}

// ---------------------------------------------------------------------------
// A swap from beginning to end
// ---------------------------------------------------------------------------

/// Where a swap begins: the old build is in place, the new one is unpacked and says
/// which it is, and nothing is in the way.
pub open spec fn can_swap(d: DiskView, i: InstallView) -> bool {
    &&& apart(i)
    &&& d.has_folder(i.folder())
    &&& d.has_folder(i.to().folder)
    &&& install::is_trash_like(d, i.to())
    &&& !d.taken(i.trash())
    &&& !d.taken(i.marker())
    &&& d.node(i.staging()) matches Some(NodeView::Dir { build, .. }) && (build.version
        matches Some(v) && text::trimmed(v) == text::trimmed(i.tag))
}

/// The steps of a swap.
pub open spec fn swap_steps(i: InstallView) -> Seq<disk::StepView> {
    seq![
        disk::StepView {
            act: ActView::Write { at: i.marker(), contents: i.tag },
            on_error: OnError::Fail,
        },
        disk::StepView {
            act: ActView::Rename { from: i.to(), to: i.trash() },
            on_error: OnError::Fail,
        },
        disk::StepView {
            act: ActView::Rename { from: i.staging(), to: i.to() },
            on_error: OnError::Fail,
        },
        disk::StepView { act: ActView::RemoveTree(i.trash()), on_error: OnError::SkipNext },
        disk::StepView { act: ActView::RemoveFile(i.marker()), on_error: OnError::Ignore },
    ]
}

/// The plan after the first `k` steps of a swap.
pub open spec fn swapped(plan: PlanView, i: InstallView, k: int) -> PlanView {
    plan.steps(swap_steps(i).take(k))
}

pub(crate) proof fn swapped_one_more(plan: PlanView, i: InstallView, k: int)
    requires
        0 <= k < 5,
    ensures
        swapped(plan, i, k + 1) == swapped(plan, i, k).step(
            swap_steps(i)[k].act,
            swap_steps(i)[k].on_error,
        ),
        swapped(plan, i, 0) == plan,
{
    assert(swap_steps(i).take(k + 1).drop_last() =~= swap_steps(i).take(k));
    assert(swap_steps(i).take(0) =~= seq![]);
}

/// The swap is what making way, putting in place and cleaning up come to.
pub proof fn a_swap_is_the_whole_install(plan: PlanView, i: InstallView)
    requires
        can_swap(plan.disk, i),
    ensures
        swapped(plan, i, 3) == plan.making_way(i).placing(i),
        swapped(plan, i, 5) == plan.making_way(i).placing(i).committing(i, true),
{
    swapped_one_more(plan, i, 0);
    swapped_one_more(plan, i, 1);
    swapped_one_more(plan, i, 2);
    swapped_one_more(plan, i, 3);
    swapped_one_more(plan, i, 4);
}

/// The directory after each step of a swap.
pub(crate) proof fn swap_step_by_step(plan: PlanView, i: InstallView)
    requires
        plan.ready(),
        can_swap(plan.disk, i),
    ensures
        ({
            let d = plan.disk;
            let mark = NodeView::File { contents: Some(i.tag), modified: None };
            let a = swapped(plan, i, 1);
            let b = swapped(plan, i, 2);
            let c = swapped(plan, i, 3);
            let e = swapped(plan, i, 4);
            let f = swapped(plan, i, 5);
            &&& a.ready() && b.ready() && c.ready() && e.ready() && f.ready()
            &&& a.disk.node(i.marker()) == Some(mark) && a.disk.node(i.to()) == d.node(i.to())
                && !a.disk.taken(i.trash())
            &&& b.disk.node(i.marker()) == Some(mark) && !b.disk.taken(i.to()) && b.disk.node(
                i.trash(),
            ) == d.node(i.to())
            &&& c.disk.node(i.marker()) == Some(mark) && c.disk.node(i.to()) == d.node(i.staging())
                && c.disk.node(i.trash()) == d.node(i.to()) && !c.disk.taken(i.staging())
            &&& e.disk.node(i.marker()) == Some(mark) && e.disk.node(i.to()) == d.node(i.staging())
                && !e.disk.taken(i.trash()) && !e.disk.taken(i.staging())
            &&& !f.disk.taken(i.marker()) && f.disk.node(i.to()) == d.node(i.staging())
                && !f.disk.taken(i.trash()) && !f.disk.taken(i.staging())
            &&& b.disk.node(i.staging()) == d.node(i.staging())
            &&& b.disk.has_versions == d.has_versions
            &&& forall|other: Spot|
                other != i.to() && other != i.trash() && other != i.marker() && other
                    != i.staging() ==> #[trigger] f.disk.node(other) == d.node(other)
        }),
{
    let d = plan.disk;
    let mark = NodeView::File { contents: Some(i.tag), modified: None };
    let steps = swap_steps(i);
    let old = d.node(i.to())->0;
    let new = d.node(i.staging())->0;
    swapped_one_more(plan, i, 0);
    swapped_one_more(plan, i, 1);
    swapped_one_more(plan, i, 2);
    swapped_one_more(plan, i, 3);
    swapped_one_more(plan, i, 4);
    let a = swapped(plan, i, 1);
    assert(d.allows(steps[0].act));
    disk::steps_stay_proper(plan, steps[0].act, OnError::Fail);
    disk::node_after_with(d, i.marker(), mark, i.to());
    disk::node_after_with(d, i.marker(), mark, i.trash());
    disk::node_after_with(d, i.marker(), mark, i.staging());
    let b = swapped(plan, i, 2);
    disk::steps_stay_proper(a, steps[1].act, OnError::Fail);
    disk::node_after_without(a.disk, i.to(), i.marker());
    disk::node_after_without(a.disk, i.to(), i.trash());
    disk::node_after_without(a.disk, i.to(), i.staging());
    disk::node_after_with(a.disk.without(i.to()), i.trash(), old, i.to());
    disk::node_after_with(a.disk.without(i.to()), i.trash(), old, i.marker());
    disk::node_after_with(a.disk.without(i.to()), i.trash(), old, i.staging());
    let c = swapped(plan, i, 3);
    disk::steps_stay_proper(b, steps[2].act, OnError::Fail);
    disk::node_after_without(b.disk, i.staging(), i.marker());
    disk::node_after_without(b.disk, i.staging(), i.trash());
    disk::node_after_without(b.disk, i.staging(), i.to());
    disk::node_after_with(b.disk.without(i.staging()), i.to(), new, i.staging());
    disk::node_after_with(b.disk.without(i.staging()), i.to(), new, i.marker());
    disk::node_after_with(b.disk.without(i.staging()), i.to(), new, i.trash());
    let e = swapped(plan, i, 4);
    disk::steps_stay_proper(c, steps[3].act, OnError::SkipNext);
    disk::node_after_without(c.disk, i.trash(), i.to());
    disk::node_after_without(c.disk, i.trash(), i.marker());
    disk::node_after_without(c.disk, i.trash(), i.staging());
    let f = swapped(plan, i, 5);
    disk::steps_stay_proper(e, steps[4].act, OnError::Ignore);
    disk::node_after_without(e.disk, i.marker(), i.to());
    disk::node_after_without(e.disk, i.marker(), i.trash());
    disk::node_after_without(e.disk, i.marker(), i.staging());
    assert forall|other: Spot|
        other != i.to() && other != i.trash() && other != i.marker() && other
            != i.staging() implies #[trigger] f.disk.node(other) == d.node(other) by {
        disk::node_after_with(d, i.marker(), mark, other);
        disk::node_after_without(a.disk, i.to(), other);
        disk::node_after_with(a.disk.without(i.to()), i.trash(), old, other);
        disk::node_after_without(b.disk, i.staging(), other);
        disk::node_after_with(b.disk.without(i.staging()), i.to(), new, other);
        disk::node_after_without(c.disk, i.trash(), other);
        disk::node_after_without(e.disk, i.marker(), other);
    }
}

/// An install that is not cut short puts the new build in place, leaves none of its
/// working entries behind, and changes nothing else.
pub proof fn swaps_replace_one_build(plan: PlanView, i: InstallView)
    requires
        plan.ready(),
        can_swap(plan.disk, i),
    ensures
        ({
            let after = plan.making_way(i).placing(i).committing(i, true);
            &&& after.ready()
            &&& after.disk.node(i.to()) == plan.disk.node(i.staging())
            &&& !after.disk.taken(i.staging())
            &&& !after.disk.taken(i.trash())
            &&& !after.disk.taken(i.marker())
            &&& forall|other: Spot|
                other != i.to() && other != i.trash() && other != i.marker() && other
                    != i.staging() ==> #[trigger] after.disk.node(other) == plan.disk.node(other)
        }),
{
    a_swap_is_the_whole_install(plan, i);
    swap_step_by_step(plan, i);
}

/// Where the new build cannot be put in place, the old one is put back, and no trash and
/// no marker is left.
pub proof fn rolling_back_restores(plan: PlanView, i: InstallView)
    requires
        plan.ready(),
        can_swap(plan.disk, i),
    ensures
        ({
            let after = plan.making_way(i).rolling_back(i, true);
            &&& after.ready()
            &&& after.disk.node(i.to()) == plan.disk.node(i.to())
            &&& !after.disk.taken(i.trash())
            &&& !after.disk.taken(i.marker())
        }),
{
    swap_step_by_step(plan, i);
    swapped_one_more(plan, i, 0);
    swapped_one_more(plan, i, 1);
    let b = swapped(plan, i, 2);
    assert(b == plan.making_way(i));
    let old = plan.disk.node(i.to())->0;
    let back = ActView::Rename { from: i.trash(), to: i.to() };
    let c = b.step(back, OnError::SkipNext);
    disk::steps_stay_proper(b, back, OnError::SkipNext);
    disk::node_after_without(b.disk, i.trash(), i.to());
    disk::node_after_without(b.disk, i.trash(), i.marker());
    disk::node_after_with(b.disk.without(i.trash()), i.to(), old, i.trash());
    disk::node_after_with(b.disk.without(i.trash()), i.to(), old, i.marker());
    disk::steps_stay_proper(c, ActView::RemoveFile(i.marker()), OnError::Ignore);
    disk::node_after_without(c.disk, i.marker(), i.to());
    disk::node_after_without(c.disk, i.marker(), i.trash());
}

/// The destination is touched by renames alone.
pub proof fn the_destination_is_only_renamed(i: InstallView, k: int)
    requires
        apart(i),
        0 <= k < 5,
    ensures
        match swap_steps(i)[k].act {
            ActView::Rename { .. } => true,
            ActView::RemoveFile(spot) => spot != i.to(),
            ActView::RemoveTree(spot) => spot != i.to(),
            ActView::Symlink { at, .. } => at != i.to(),
            ActView::Write { at, .. } => at != i.to(),
            ActView::MakeFolder(_) => true,
        },
{
}

// ---------------------------------------------------------------------------
// Nothing is overlooked, and nothing is deleted on a guess
// ---------------------------------------------------------------------------

/// Every name that trash or a marker belongs to is looked at, and no other.
pub proof fn debris_is_complete(entries: Seq<EntryView>, folder: Folder, name: Seq<char>)
    ensures
        install::debris(entries, folder).contains(name) <==> exists|k: int|
            0 <= k < entries.len() && #[trigger] install::debris_name(entries[k], folder) == Some(
                name,
            ),
    decreases entries.len(),
{
    if entries.len() > 0 {
        let init = entries.drop_last();
        let last = entries.last();
        let before = install::debris(init, folder);
        let after = install::debris(entries, folder);
        debris_is_complete(init, folder, name);
        match install::debris_name(last, folder) {
            Some(x) => {
                if before.contains(x) {
                    assert(after == before);
                } else {
                    let less = |a: Seq<char>, b: Seq<char>| install::comes_before(a, b);
                    let p = |i: int| less(x, before[i]);
                    search::first_that_is_first(p, 0, before.len() as int);
                    let at = search::first_that(p, 0, before.len() as int);
                    assert(after =~= before.insert(at, x));
                    assert(after[at] == x);
                    if before.contains(name) {
                        let i = choose|i: int| 0 <= i < before.len() && before[i] == name;
                        if i < at {
                            assert(after[i] == name);
                        } else {
                            assert(after[i + 1] == name);
                        }
                    }
                    if after.contains(name) && name != x {
                        let i = choose|i: int| 0 <= i < after.len() && after[i] == name;
                        if i < at {
                            assert(before[i] == name);
                        } else {
                            assert(before[i - 1] == name);
                        }
                    }
                }
                assert(install::debris_name(entries[entries.len() - 1], folder) == Some(x));
            },
            None => {},
        }
        if before.contains(name) {
            let k = choose|k: int|
                0 <= k < init.len() && #[trigger] install::debris_name(init[k], folder) == Some(
                    name,
                );
            assert(install::debris_name(entries[k], folder) == Some(name));
        }
        if exists|k: int|
            0 <= k < entries.len() && #[trigger] install::debris_name(entries[k], folder) == Some(
                name,
            ) {
            let k = choose|k: int|
                0 <= k < entries.len() && #[trigger] install::debris_name(entries[k], folder)
                    == Some(name);
            if k < init.len() {
                assert(install::debris_name(init[k], folder) == Some(name));
            }
        }
    }
}

proof fn restoring_loses_nothing(before: PlanView, plan: PlanView, from: Spot, to: Spot)
    requires
        store_laws::loses_nothing(before, plan),
    ensures
        store_laws::loses_nothing(before, plan.restoring(from, to)),
{
    let clear = ActView::RemoveFile(to);
    let back = ActView::Rename { from, to };
    store_laws::step_loses_nothing(before, plan, clear, OnError::Ignore);
    store_laws::step_loses_nothing(before, plan.step(clear, OnError::Ignore), back, OnError::Ignore);
    store_laws::step_loses_nothing(before, plan, back, OnError::Ignore);
}

/// Healing deletes a build in one case only: a marker is there, the destination leads to
/// a directory, and the marker confirms that it is the build that was installed. Trash
/// without a marker is never deleted.
pub proof fn unconfirmed_trash_is_kept(plan: PlanView, folder: Folder, name: Seq<char>, to: Spot)
    requires
        !(install::is_marker(plan.disk, install::marker(folder, name)) && plan.disk.resolves(to)
            && install::confirms(plan.disk, to, install::marker(folder, name))),
    ensures
        store_laws::loses_nothing(plan, plan.recovering_one(folder, name, to)),
{
    let unmark = ActView::RemoveFile(install::marker(folder, name));
    store_laws::step_loses_nothing(plan, plan, unmark, OnError::Ignore);
    restoring_loses_nothing(plan, plan, install::trash(folder, name), to);
    let restored = plan.restoring(install::trash(folder, name), to);
    store_laws::step_loses_nothing(plan, restored, unmark, OnError::Ignore);
}

/// Where the one destination that all installs share does not lead to a directory,
/// healing deletes no build at all.
pub proof fn shared_trash_is_kept(plan: PlanView, names: Seq<Seq<char>>)
    requires
        !plan.disk.resolves(store::bin()),
    ensures
        store_laws::loses_nothing(plan, plan.recovering_shared(names)),
{
    sorting_out_loses_nothing(plan, names);
    let (p, found) = plan.sorting_out(names);
    if found.len() > 0 {
        let winner = install::newest(found);
        demoting_loses_nothing(plan, p, found, winner, found.len() as int);
        let q = p.demoting(found, winner, found.len() as int);
        let from = install::trash(Folder::Game, found[winner].1);
        restoring_loses_nothing(plan, q, from, store::bin());
        store_laws::step_loses_nothing(
            plan,
            q.restoring(from, store::bin()),
            ActView::RemoveFile(install::marker(Folder::Game, found[winner].1)),
            OnError::Ignore,
        );
    }
}

proof fn sorting_out_loses_nothing(plan: PlanView, names: Seq<Seq<char>>)
    ensures
        store_laws::loses_nothing(plan, plan.sorting_out(names).0),
    decreases names.len(),
{
    if names.len() > 0 {
        sorting_out_loses_nothing(plan, names.drop_last());
        store_laws::step_loses_nothing(
            plan,
            plan.sorting_out(names.drop_last()).0,
            ActView::RemoveFile(install::marker(Folder::Game, names.last())),
            OnError::Ignore,
        );
    }
}

proof fn demoting_loses_nothing(
    before: PlanView,
    plan: PlanView,
    found: Seq<(u64, Seq<char>)>,
    winner: int,
    n: int,
)
    requires
        store_laws::loses_nothing(before, plan),
    ensures
        store_laws::loses_nothing(before, plan.demoting(found, winner, n)),
    decreases n,
{
    if n > 0 {
        demoting_loses_nothing(before, plan, found, winner, n - 1);
        store_laws::step_loses_nothing(
            before,
            plan.demoting(found, winner, n - 1),
            ActView::RemoveFile(install::marker(Folder::Game, found[n - 1].1)),
            OnError::Ignore,
        );
    }
}

/// What is swept away is nothing but staging directories and partial downloads that were
/// left alone for an hour.
pub proof fn sweeps_take_working_files_only(
    entries: Seq<EntryView>,
    folder: Folder,
    now: u64,
    k: int,
)
    requires
        0 <= k < install::sweeps(entries, folder, now).len(),
    ensures
        ({
            let spot = match install::sweeps(entries, folder, now)[k] {
                ActView::RemoveTree(spot) => spot,
                ActView::RemoveFile(spot) => spot,
                _ => Spot { folder, name: seq![] },
            };
            &&& spot.folder == folder
            &&& text::begins(spot.name, ".staging-"@) || text::begins(spot.name, ".download-"@)
            &&& exists|j: int|
                0 <= j < entries.len() && (#[trigger] entries[j]).spot == spot && (
                entries[j].node matches NodeView::Dir { modified, .. } ==> install::is_stale(
                    modified,
                    now,
                )) && (entries[j].node matches NodeView::File { modified, .. }
                    ==> install::is_stale(modified, now))
        }),
    decreases entries.len(),
{
    let init = entries.drop_last();
    let before = install::sweeps(init, folder, now);
    let act = install::sweeps(entries, folder, now)[k];
    let spot = match act {
        ActView::RemoveTree(spot) => spot,
        ActView::RemoveFile(spot) => spot,
        _ => Spot { folder, name: seq![] },
    };
    if k < before.len() {
        assert(before[k] == act);
        sweeps_take_working_files_only(init, folder, now, k);
        let j = choose|j: int|
            0 <= j < init.len() && (#[trigger] init[j]).spot == spot && (
            init[j].node matches NodeView::Dir { modified, .. } ==> install::is_stale(
                modified,
                now,
            )) && (init[j].node matches NodeView::File { modified, .. } ==> install::is_stale(
                modified,
                now,
            ));
        assert(entries[j] == init[j]);
    } else {
        assert(entries[entries.len() - 1].spot == spot);
    }
}

/// Whether an entry is one an install left behind an hour ago or more: what it unpacked
/// into, or what it downloaded.
pub open spec fn is_left_over(entry: EntryView, folder: Folder, now: u64) -> bool {
    &&& entry.spot.folder == folder
    &&& text::begins(entry.spot.name, ".staging-"@) || text::begins(
        entry.spot.name,
        ".download-"@,
    )
    &&& match entry.node {
        NodeView::Dir { modified: Some(t), .. } => t + 3_600_000_000_000 <= now,
        NodeView::File { modified: Some(t), .. } => t + 3_600_000_000_000 <= now,
        _ => false,
    }
}

/// Everything an install left behind is swept away, once it is old enough: a directory with
/// all that is in it, a file by itself.
pub proof fn sweeps_take_all_that_is_left(
    entries: Seq<EntryView>,
    folder: Folder,
    now: u64,
    k: int,
)
    requires
        0 <= k < entries.len(),
        is_left_over(entries[k], folder, now),
    ensures
        entries[k].node is Dir ==> install::sweeps(entries, folder, now).contains(
            ActView::RemoveTree(entries[k].spot),
        ),
        entries[k].node is File ==> install::sweeps(entries, folder, now).contains(
            ActView::RemoveFile(entries[k].spot),
        ),
    decreases entries.len(),
{
    let init = entries.drop_last();
    let before = install::sweeps(init, folder, now);
    let all = install::sweeps(entries, folder, now);
    let act = if entries[k].node is Dir {
        ActView::RemoveTree(entries[k].spot)
    } else {
        ActView::RemoveFile(entries[k].spot)
    };
    if k < init.len() {
        sweeps_take_all_that_is_left(init, folder, now, k);
        let j = before.index_of(act);
        assert(all[j] == act);
    } else {
        assert(all.last() == act);
        assert(all[all.len() - 1] == act);
    }
}

/// A build that is installed again takes the place of the one with its tag, wherever among
/// the numbered names that is, unless an earlier name is free; one that is new takes the
/// first name that is free.
pub proof fn builds_keep_to_their_name(d: DiskView, safe: Seq<char>, tag: Seq<char>)
    ensures
        !d.taken(store::version(safe)) ==> install::version_name(d, safe, tag) == safe,
        d.landing(store::version(safe)) matches LandingView::Dir(build) ==> (build.version matches Some(
            found,
        ) ==> (text::trimmed(found) == tag ==> install::version_name(d, safe, tag) == safe)),
{
    let p = |k: int| install::takes(d, store::candidate(safe, k), tag);
    if install::takes(d, safe, tag) {
        assert(p(1));
        search::first_that_is(p, 1, d.entries.len() as int + 2, 1);
    }
}

/// Where an install works: among the versions where they are kept side by side, beside
/// `bin` where they are not, and always under names that begin with a dot.
pub proof fn installs_work_where_they_should(tag: Seq<char>, name: Seq<char>)
    ensures
        ({
            let i = InstallView { mode: Mode::MultiVersion, tag, name };
            let folder = Folder::Versions;
            &&& i.to() == (Spot { folder, name })
            &&& i.staging() == (Spot { folder, name: ".staging-"@ + name })
            &&& i.archive() == (Spot { folder, name: ".download-"@ + name })
            &&& i.trash() == (Spot { folder, name: ".trash-"@ + name })
            &&& i.marker() == (Spot { folder, name: ".trashmark-"@ + name })
        }),
        ({
            let i = InstallView { mode: Mode::Compatible, tag, name };
            let folder = Folder::Game;
            &&& i.to() == (Spot { folder, name: "bin"@ })
            &&& i.staging() == (Spot { folder, name: ".staging-"@ + name })
            &&& i.archive() == (Spot { folder, name: ".download-"@ + name })
            &&& i.trash() == (Spot { folder, name: ".trash-"@ + name })
            &&& i.marker() == (Spot { folder, name: ".trashmark-"@ + name })
        }),
{
}

/// An install is of the tag that is asked for, under the directory name the tag gives; a
/// tag that gives none is refused.
pub proof fn installs_are_of_their_tag(d: DiskView, mode: Mode, tag: Seq<char>)
    ensures
        install::install_of(d, mode, tag) is Ok <==> game::directory_name(tag) is Ok,
        install::install_of(d, mode, tag) matches Ok(i) ==> i.tag == tag && i.mode == mode,
        install::install_of(d, Mode::Compatible, tag) matches Ok(i) ==> Ok::<Seq<char>, TagError>(
            i.name,
        ) == game::directory_name(tag),
        game::directory_name(tag) matches Err(e) ==> install::install_of(d, mode, tag) == Err::<
            InstallView,
            CoreErrorView,
        >(CoreErrorView::Tag(e)),
{
}

/// Of what was put aside, what changed last is the newest, and of those that changed at
/// once the last that was found.
pub proof fn the_newest_changed_last(found: Seq<(u64, Seq<char>)>, i: int)
    requires
        found.len() > 0,
    ensures
        0 <= install::newest(found) < found.len(),
        0 <= i < found.len() ==> found[i].0 <= found[install::newest(found)].0,
        install::newest(found) < i < found.len() ==> found[i].0 < found[install::newest(found)].0,
    decreases found.len(),
{
    if found.len() > 1 {
        let init = found.drop_last();
        if i < init.len() {
            the_newest_changed_last(init, i);
        } else {
            the_newest_changed_last(init, 0);
        }
    }
}

/// What was put aside is done with where the build in its place says that it is of the tag
/// that was written down, white space aside; where either cannot be read it is not.
pub proof fn replacements_are_confirmed_by_tag(
    d: DiskView,
    to: Spot,
    mark: Spot,
    tag: Seq<char>,
    found: Seq<char>,
    build: disk::BuildView,
)
    ensures
        d.landing(mark) == LandingView::File(Some(tag)) && d.landing(to) == LandingView::Dir(build)
            && build.version == Some(found) ==> install::confirms(d, to, mark) == (text::trimmed(
            tag,
        ) == text::trimmed(found)),
        !(d.landing(to) is Dir) ==> !install::confirms(d, to, mark),
        !(d.landing(mark) is File) ==> !install::confirms(d, to, mark),
        d.landing(mark) == LandingView::File(None) ==> !install::confirms(d, to, mark),
        d.landing(to) == LandingView::Dir(build) && build.version is None ==> !install::confirms(
            d,
            to,
            mark,
        ),
{
}

/// Tidying takes the downloaded file away, and what was unpacked where the install failed.
pub proof fn tidying_takes_the_working_files(plan: PlanView, i: InstallView, failed: bool)
    requires
        plan.ready(),
        !plan.disk.is_dir(i.archive()),
        plan.disk.is_dir(i.staging()) || !plan.disk.taken(i.staging()),
    ensures
        ({
            let after = plan.tidying(i, failed);
            &&& after.ready()
            &&& !after.disk.taken(i.archive())
            &&& failed ==> !after.disk.taken(i.staging())
            &&& !failed ==> after.disk.node(i.staging()) == plan.disk.node(i.staging())
        }),
{
    reveal_strlit(".staging-");
    reveal_strlit(".download-");
    assert(i.archive().name[1] == 'd' && i.staging().name[1] == 's');
    let file = ActView::RemoveFile(i.archive());
    let tree = ActView::RemoveTree(i.staging());
    disk::steps_stay_proper(plan, file, OnError::Ignore);
    let p = plan.step(file, OnError::Ignore);
    if plan.disk.allows(file) {
        disk::steps_do_what_they_say(plan, file, OnError::Ignore, i.staging());
    }
    if failed {
        disk::steps_stay_proper(p, tree, OnError::Ignore);
        if p.disk.allows(tree) {
            disk::steps_do_what_they_say(p, tree, OnError::Ignore, i.archive());
        }
    }
}

/// An install begins with nothing where it will unpack.
pub proof fn installs_begin_with_an_empty_place(plan: PlanView, i: InstallView)
    requires
        plan.ready(),
        !i.is_blocked(plan.disk),
        plan.disk.is_dir(i.staging()) || !plan.disk.taken(i.staging()),
    ensures
        plan.preparing(i).ready(),
        !plan.preparing(i).disk.taken(i.staging()),
        plan.preparing(i).disk.has_folder(i.folder()),
        plan.preparing(i).disk.node(i.to()) == plan.disk.node(i.to()),
{
    reveal_strlit(".staging-");
    reveal_strlit("bin");
    let make = ActView::MakeFolder(i.folder());
    let tree = ActView::RemoveTree(i.staging());
    let p = plan.step(make, OnError::Fail);
    disk::steps_do_what_they_say(plan, make, OnError::Fail, i.to());
    disk::steps_do_what_they_say(plan, make, OnError::Fail, i.trash());
    disk::steps_do_what_they_say(plan, make, OnError::Fail, i.staging());
    disk::steps_stay_proper(plan, make, OnError::Fail);
    disk::steps_stay_proper(p, tree, OnError::Ignore);
    if i.to() == i.staging() {
        assert(i.mode == Mode::MultiVersion ==> i.to().name.len() < i.staging().name.len());
        assert(i.mode == Mode::Compatible ==> i.to().name[0] != i.staging().name[0]);
    }
    if p.disk.allows(tree) {
        disk::steps_do_what_they_say(p, tree, OnError::Ignore, i.to());
    }
}

/// What an earlier install left is settled by what there is of it. A mark without anything
/// put aside goes; what was put aside goes back where its place is empty, and goes for good
/// where the build in its place is the one that was written down; anything else stays.
pub proof fn left_behind_is_settled(plan: PlanView, folder: Folder, name: Seq<char>, to: Spot)
    requires
        plan.ready(),
    ensures
        ({
            let d = plan.disk;
            let mark = Spot { folder, name: ".trashmark-"@ + name };
            let trash = Spot { folder, name: ".trash-"@ + name };
            let marked = d.landing(mark) is File;
            let aside = d.node(trash) is Some && !(d.node(trash)->0 is File);
            let after = plan.recovering_one(folder, name, to);
            &&& marked && !aside && d.node(mark) is Some && d.node(mark)->0 is File
                ==> after.disk.node(mark) is None && after.disk.node(trash) == d.node(trash)
            &&& aside && d.landing(to) is Dir && !marked ==> after == plan
            &&& aside && d.landing(to) is Dir && marked && !install::confirms(d, to, mark) ==> after
                == plan
            &&& aside && d.landing(to) is Dir && marked && install::confirms(d, to, mark)
                ==> after.disk.node(trash) is None
            &&& !marked && !aside ==> after == plan
        }),
{
    reveal_strlit(".trash-");
    reveal_strlit(".trashmark-");
    let mark = Spot { folder, name: ".trashmark-"@ + name };
    let trash = Spot { folder, name: ".trash-"@ + name };
    assert(mark.name.len() != trash.name.len());
    assert(mark == install::marker(folder, name) && trash == install::trash(folder, name));
    let d = plan.disk;
    let unmark = ActView::RemoveFile(mark);
    let clear = ActView::RemoveTree(trash);
    if d.allows(unmark) {
        disk::steps_do_what_they_say(plan, unmark, OnError::Ignore, trash);
    }
    if d.allows(clear) {
        let p = plan.step(clear, OnError::SkipNext);
        disk::steps_do_what_they_say(plan, clear, OnError::SkipNext, mark);
        disk::steps_stay_proper(plan, clear, OnError::SkipNext);
        if p.disk.allows(unmark) {
            disk::steps_do_what_they_say(p, unmark, OnError::Ignore, trash);
        }
    }
}

/// Beside one build at a time, marks without anything put aside go, and what was put aside
/// goes for good where the build in place is the one that was written down.
pub proof fn marks_are_settled(plan: PlanView, name: Seq<char>, to: Spot)
    requires
        plan.ready(),
    ensures
        ({
            let d = plan.disk;
            let folder = Folder::Game;
            let mark = Spot { folder, name: ".trashmark-"@ + name };
            let trash = Spot { folder, name: ".trash-"@ + name };
            let marked = d.landing(mark) is File;
            let aside = d.node(trash) is Some && !(d.node(trash)->0 is File);
            let after = plan.settling_one(name, to);
            &&& !marked ==> after == plan
            &&& marked && !aside && d.node(mark) is Some && d.node(mark)->0 is File
                ==> after.disk.node(mark) is None
            &&& marked && aside && install::confirms(d, to, mark) ==> after.disk.node(trash) is None
            &&& marked && aside && !install::confirms(d, to, mark) ==> after == plan
        }),
{
    reveal_strlit(".trash-");
    reveal_strlit(".trashmark-");
    let folder = Folder::Game;
    let mark = Spot { folder, name: ".trashmark-"@ + name };
    let trash = Spot { folder, name: ".trash-"@ + name };
    assert(mark.name.len() != trash.name.len());
    assert(mark == install::marker(folder, name) && trash == install::trash(folder, name));
    let d = plan.disk;
    let unmark = ActView::RemoveFile(mark);
    let clear = ActView::RemoveTree(trash);
    if d.allows(unmark) {
        disk::steps_do_what_they_say(plan, unmark, OnError::Ignore, trash);
    }
    if d.allows(clear) {
        let p = plan.step(clear, OnError::SkipNext);
        disk::steps_do_what_they_say(plan, clear, OnError::SkipNext, mark);
        disk::steps_stay_proper(plan, clear, OnError::SkipNext);
        if p.disk.allows(unmark) {
            disk::steps_do_what_they_say(p, unmark, OnError::Ignore, trash);
        }
    }
}

/// No other build is overwritten: the name an install gets is free, or is that of a build
/// whose version file says the same tag.
pub proof fn no_other_build_is_overwritten(d: DiskView, safe: Seq<char>, tag: Seq<char>)
    ensures
        ({
            let spot = Spot {
                folder: Folder::Versions,
                name: install::version_name(d, safe, tag),
            };
            ||| d.node(spot) is None
            ||| d.landing(spot) matches LandingView::Dir(build) && build.version matches Some(v)
                && text::trimmed(v) == tag
        }),
{
    versions_are_not_shared(d, safe, tag);
}

/// Taking marks away takes away nothing else, and leaves no mark of those it is about.
proof fn one_mark_less(plan: PlanView, name: Seq<char>)
    requires
        plan.ready(),
    ensures
        ({
            let after = plan.unmarking(Folder::Game, name);
            let mark = install::marker(Folder::Game, name);
            &&& after.ready()
            &&& forall|other: Spot|
                other != mark ==> #[trigger] after.disk.node(other) == plan.disk.node(other)
            &&& !plan.disk.is_dir(mark) ==> after.disk.node(mark) is None
            &&& after.disk.node(mark) is None || after.disk.node(mark) == plan.disk.node(mark)
        }),
{
    let mark = install::marker(Folder::Game, name);
    let act = ActView::RemoveFile(mark);
    disk::steps_stay_proper(plan, act, OnError::Ignore);
    let after = plan.unmarking(Folder::Game, name);
    assert forall|other: Spot| other != mark implies #[trigger] after.disk.node(other)
        == plan.disk.node(other) by {
        if plan.disk.allows(act) {
            disk::steps_do_what_they_say(plan, act, OnError::Ignore, other);
        }
    }
    if plan.disk.allows(act) {
        disk::steps_do_what_they_say(plan, act, OnError::Ignore, mark);
    }
}

/// Of what was put aside, all but what is put back lose their marks, and keep everything
/// else.
pub proof fn the_others_lose_their_marks(
    plan: PlanView,
    found: Seq<(u64, Seq<char>)>,
    winner: int,
    n: int,
    j: int,
    other: Spot,
)
    requires
        plan.ready(),
        0 <= n <= found.len(),
        other.folder == Folder::Game,
        !text::begins(other.name, ".trashmark-"@),
    ensures
        ({
            let after = plan.demoting(found, winner, n);
            let mark = |k: int| Spot { folder: Folder::Game, name: ".trashmark-"@ + found[k].1 };
            &&& after.ready()
            &&& after.disk.node(other) == plan.disk.node(other)
            &&& 0 <= j < found.len() && !plan.disk.is_dir(mark(j)) ==> !after.disk.is_dir(mark(j))
            &&& 0 <= j < n && j != winner && !plan.disk.is_dir(mark(j)) ==> after.disk.node(mark(j))
                is None
        }),
    decreases n,
{
    if n > 0 {
        the_others_lose_their_marks(plan, found, winner, n - 1, j, other);
        if n - 1 != winner {
            let p = plan.demoting(found, winner, n - 1);
            let name = found[n - 1].1;
            one_mark_less(p, name);
            let m = ".trashmark-"@;
            assert((m + name).take(m.len() as int) =~= m);
        }
    }
}

} // verus!
