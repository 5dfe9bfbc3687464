//! What holds of recovering from an install that was cut short.

use vstd::prelude::*;

use crate::disk;
use crate::disk::{ActView, DiskView, Folder, NodeView, OnError, PlanView, Spot};
use crate::install;
use crate::install::InstallView;
use crate::install_laws;
use crate::store;
use crate::store::Mode;
use crate::text;

verus! {

broadcast use vstd::string::group_string_axioms;

// ---------------------------------------------------------------------------
// What a step leaves alone
// ---------------------------------------------------------------------------

/// Whether something that is done has nothing to do with an entry.
pub open spec fn spares(act: ActView, spot: Spot) -> bool {
    match act {
        ActView::MakeFolder(_) => true,
        ActView::RemoveFile(at) => at != spot,
        ActView::RemoveTree(at) => at != spot,
        ActView::Rename { from, to } => from != spot && to != spot,
        ActView::Symlink { at, .. } => at != spot,
        ActView::Write { at, .. } => at != spot,
    }
}

/// A step changes no entry that it has nothing to do with, and takes no directory away.
pub proof fn steps_spare_the_rest(plan: PlanView, act: ActView, on_error: OnError, spot: Spot)
    requires
        plan.disk.is_proper(),
        spares(act, spot),
    ensures
        plan.step(act, on_error).disk.node(spot) == plan.disk.node(spot),
        plan.step(act, on_error).disk.is_proper(),
        plan.disk.has_versions ==> plan.step(act, on_error).disk.has_versions,
        plan.step(act, on_error).disk.versions_dir == plan.disk.versions_dir,
{
    let d = plan.disk;
    disk::steps_stay_proper(plan, act, on_error);
    match act {
        ActView::MakeFolder(_) => {
            disk::same_entries_same_nodes(d, d.after(act), spot);
        },
        ActView::RemoveFile(at) => disk::node_after_without(d, at, spot),
        ActView::RemoveTree(at) => disk::node_after_without(d, at, spot),
        ActView::Rename { from, to } => {
            disk::node_after_without(d, from, spot);
            disk::node_after_with(d.without(from), to, d.node(from)->0, spot);
        },
        ActView::Symlink { at, target } => disk::node_after_with(
            d,
            at,
            NodeView::Link { target, outside: disk::LandingView::Nothing, modified: None },
            spot,
        ),
        ActView::Write { at, contents } => {
            disk::node_after_with(
                d,
                at,
                NodeView::File { contents: Some(contents), modified: None },
                spot,
            );
            match d.node(at) {
                Some(NodeView::Link { target, .. }) => disk::node_after_with(
                    d,
                    at,
                    NodeView::Link {
                        target,
                        outside: disk::LandingView::File(Some(contents)),
                        modified: None,
                    },
                    spot,
                ),
                _ => {},
            }
        },
    }
}

/// What moving an entry to a free name comes to.
pub(crate) proof fn moved(plan: PlanView, from: Spot, to: Spot, on_error: OnError)
    requires
        plan.ready(),
        from != to,
        plan.disk.taken(from),
        !plan.disk.taken(to),
        plan.disk.has_folder(to.folder),
    ensures
        ({
            let after = plan.step(ActView::Rename { from, to }, on_error);
            &&& after.ready()
            &&& after.disk.node(to) == plan.disk.node(from)
            &&& !after.disk.taken(from)
        }),
{
    let d = plan.disk;
    disk::steps_stay_proper(plan, ActView::Rename { from, to }, on_error);
    disk::node_after_without(d, from, to);
    disk::node_after_with(d.without(from), to, d.node(from)->0, from);
}

// ---------------------------------------------------------------------------
// Names
// ---------------------------------------------------------------------------

/// Trash and markers of one name are not those of another, and neither is the other.
pub(crate) proof fn working_names_differ(folder: Folder, a: Seq<char>, b: Seq<char>)
    ensures
        install::trash(folder, a) != install::marker(folder, b),
        a != b ==> install::trash(folder, a) != install::trash(folder, b),
        a != b ==> install::marker(folder, a) != install::marker(folder, b),
        install::trash(folder, a).name[0] == '.',
        install::marker(folder, a).name[0] == '.',
        install::trash(folder, a).name.len() == 7 + a.len(),
        install::marker(folder, a).name.len() == 11 + a.len(),
{
    reveal_strlit(".trash-");
    reveal_strlit(".trashmark-");
    assert(install::trash(folder, a).name[6] == '-');
    assert(install::marker(folder, b).name[6] == 'm');
    assert(install::trash(folder, a).name.skip(7) =~= a);
    assert(install::trash(folder, b).name.skip(7) =~= b);
    assert(install::marker(folder, a).name.skip(11) =~= a);
    assert(install::marker(folder, b).name.skip(11) =~= b);
}

/// A name is looked at where, and only where, its trash or its marker is there.
pub(crate) proof fn debris_is_there(d: DiskView, folder: Folder, name: Seq<char>)
    ensures
        install::debris(d.entries, folder).contains(name) <==> d.taken(
            install::trash(folder, name),
        ) || d.taken(install::marker(folder, name)),
{
    reveal_strlit(".trash-");
    reveal_strlit(".trashmark-");
    let trash = install::trash(folder, name);
    let marker = install::marker(folder, name);
    install_laws::debris_is_complete(d.entries, folder, name);
    disk::index_is_first(d, trash);
    disk::index_is_first(d, marker);
    assert(trash.name.take(7) =~= ".trash-"@);
    assert(trash.name.skip(7) =~= name);
    assert(trash.name[6] == '-');
    assert(trash.name.len() >= 11 ==> trash.name.take(11)[6] != ".trashmark-"@[6]);
    assert(marker.name.take(11) =~= ".trashmark-"@);
    assert(marker.name.skip(11) =~= name);
    if d.taken(trash) {
        assert(install::debris_name(d.entries[d.index(trash)], folder) == Some(name));
    }
    if d.taken(marker) {
        assert(install::debris_name(d.entries[d.index(marker)], folder) == Some(name));
    }
    if install::debris(d.entries, folder).contains(name) {
        let k = choose|k: int|
            0 <= k < d.entries.len() && #[trigger] install::debris_name(d.entries[k], folder)
                == Some(name);
        let spot = d.entries[k].spot;
        if text::begins(spot.name, ".trashmark-"@) {
            assert(spot.name =~= ".trashmark-"@ + spot.name.skip(11));
            assert(spot == marker);
        } else {
            assert(spot.name =~= ".trash-"@ + spot.name.skip(7));
            assert(spot == trash);
        }
    }
}

// ---------------------------------------------------------------------------
// A swap cut short
// ---------------------------------------------------------------------------

/// What a swap has nothing to do with it leaves alone, however far it got.
proof fn swaps_spare_the_rest(plan: PlanView, i: InstallView, k: int, spot: Spot)
    requires
        plan.disk.is_proper(),
        0 <= k <= 5,
        spot != i.to(),
        spot != i.trash(),
        spot != i.marker(),
        spot != i.staging(),
    ensures
        install_laws::swapped(plan, i, k).disk.node(spot) == plan.disk.node(spot),
        install_laws::swapped(plan, i, k).disk.is_proper(),
        plan.disk.has_versions ==> install_laws::swapped(plan, i, k).disk.has_versions,
        install_laws::swapped(plan, i, k).disk.versions_dir == plan.disk.versions_dir,
    decreases k,
{
    if k == 0 {
        install_laws::swapped_one_more(plan, i, 0);
    } else {
        swaps_spare_the_rest(plan, i, k - 1, spot);
        install_laws::swapped_one_more(plan, i, k - 1);
        let step = install_laws::swap_steps(i)[k - 1];
        assert(spares(step.act, spot));
        steps_spare_the_rest(
            install_laws::swapped(plan, i, k - 1),
            step.act,
            step.on_error,
            spot,
        );
    }
}

/// What healing one name has nothing to do with it leaves alone.
pub(crate) proof fn healing_spares_the_rest(p: PlanView, n: Seq<char>, spot: Spot)
    requires
        p.ready(),
        spot != install::trash(Folder::Versions, n),
        spot != install::marker(Folder::Versions, n),
        spot != store::version(n) || p.disk.resolves(spot),
    ensures
        ({
            let after = p.recovering_one(Folder::Versions, n, store::version(n));
            &&& after.ready()
            &&& after.disk.node(spot) == p.disk.node(spot)
            &&& p.disk.has_versions ==> after.disk.has_versions
        }),
{
    let to = store::version(n);
    let trash = install::trash(Folder::Versions, n);
    let marker = install::marker(Folder::Versions, n);
    let unmark = ActView::RemoveFile(marker);
    steps_spare_the_rest(p, unmark, OnError::Ignore, spot);
    let gone = ActView::RemoveTree(trash);
    let discarded = p.step(gone, OnError::SkipNext);
    steps_spare_the_rest(p, gone, OnError::SkipNext, spot);
    steps_spare_the_rest(discarded, unmark, OnError::Ignore, spot);
    if !p.disk.resolves(to) {
        let clear = ActView::RemoveFile(to);
        let back = ActView::Rename { from: trash, to };
        let cleared = p.step(clear, OnError::Ignore);
        steps_spare_the_rest(p, clear, OnError::Ignore, spot);
        steps_spare_the_rest(cleared, back, OnError::Ignore, spot);
        steps_spare_the_rest(p, back, OnError::Ignore, spot);
        let restored = p.restoring(trash, to);
        steps_spare_the_rest(restored, unmark, OnError::Ignore, spot);
    }
}

/// A build that leads to a directory stays where it is, whatever is healed.
pub(crate) proof fn healing_keeps_what_resolves(p: PlanView, names: Seq<Seq<char>>, spot: Spot)
    requires
        p.ready(),
        p.disk.resolves(spot),
        spot.folder == Folder::Versions,
        spot.name.len() > 0 ==> spot.name[0] != '.',
    ensures
        p.recovering_each(names).ready(),
        p.recovering_each(names).disk.node(spot) == p.disk.node(spot),
        p.disk.has_versions ==> p.recovering_each(names).disk.has_versions,
    decreases names.len(),
{
    if names.len() > 0 {
        healing_keeps_what_resolves(p, names.drop_last(), spot);
        working_names_differ(Folder::Versions, names.last(), names.last());
        healing_spares_the_rest(p.recovering_each(names.drop_last()), names.last(), spot);
    }
}

/// Healing a name that has no trash changes nothing but its marker.
proof fn healing_without_trash(p: PlanView, n: Seq<char>, spot: Spot)
    requires
        p.ready(),
        !install::is_trash_like(p.disk, install::trash(Folder::Versions, n)),
        spot != install::marker(Folder::Versions, n),
    ensures
        ({
            let after = p.recovering_one(Folder::Versions, n, store::version(n));
            &&& after.ready()
            &&& after.disk.node(spot) == p.disk.node(spot)
            &&& p.disk.has_versions ==> after.disk.has_versions
        }),
{
    let unmark = ActView::RemoveFile(install::marker(Folder::Versions, n));
    steps_spare_the_rest(p, unmark, OnError::Ignore, spot);
}

/// The name that trash gets which is itself trash, and so on: `depth` times put aside.
pub open spec fn put_aside(name: Seq<char>, depth: nat) -> Seq<char>
    decreases depth,
{
    if depth == 0 {
        name
    } else {
        ".trash-"@ + put_aside(name, (depth - 1) as nat)
    }
}

/// Whether trash of a name was put aside in its turn, once or more often. No install does
/// that: the names it works with do not begin with a dot.
pub open spec fn is_buried(d: DiskView, name: Seq<char>) -> bool {
    exists|depth: nat|
        depth >= 2 && install::is_trash_like(d, store::version(#[trigger] put_aside(name, depth)))
}

pub(crate) proof fn put_aside_names(name: Seq<char>, depth: nat)
    ensures
        put_aside(name, depth).len() == name.len() + 7 * depth,
        depth > 0 ==> put_aside(name, depth)[0] == '.' && put_aside(name, depth)[1] == 't'
            && put_aside(name, depth)[6] == '-',
        install::trash(Folder::Versions, put_aside(name, depth)) == store::version(
            put_aside(name, depth + 1),
        ),
        put_aside(name, 0) == name,
    decreases depth,
{
    reveal_strlit(".trash-");
    if depth > 0 {
        put_aside_names(name, (depth - 1) as nat);
    }
}

/// Healing puts nothing aside, and so buries nothing.
proof fn healing_buries_nothing(p: PlanView, name: Seq<char>, n: Seq<char>)
    requires
        p.ready(),
        !is_buried(p.disk, name),
    ensures
        !is_buried(p.recovering_one(Folder::Versions, n, store::version(n)).disk, name),
{
    let after = p.recovering_one(Folder::Versions, n, store::version(n));
    let marker = install::marker(Folder::Versions, n);
    reveal_strlit(".trashmark-");
    assert(marker.name[6] == 'm');
    assert forall|depth: nat| depth >= 2 implies !install::is_trash_like(
        after.disk,
        store::version(#[trigger] put_aside(name, depth)),
    ) by {
        let spot = store::version(put_aside(name, depth));
        put_aside_names(name, depth);
        assert(!install::is_trash_like(p.disk, spot));
        assert(!install::is_trash_like(p.disk, store::version(put_aside(name, depth + 1))));
        if spot == store::version(n) || spot == install::trash(Folder::Versions, n) {
            healing_without_trash(p, n, spot);
        } else {
            healing_spares_the_rest(p, n, spot);
        }
    }
}

/// Whether there is nothing to put in a destination's place: it leads to a directory, or
/// there is no trash that could be, now or later.
pub open spec fn needs_nothing(d: DiskView, name: Seq<char>) -> bool {
    d.resolves(store::version(name)) || !install::is_trash_like(
        d,
        install::trash(Folder::Versions, name),
    ) && !is_buried(d, name)
}

/// Whether a destination is what it is and in no need of healing.
spec fn is_settled(p: PlanView, name: Seq<char>, node: Option<NodeView>) -> bool {
    &&& p.ready()
    &&& p.disk.node(store::version(name)) == node
    &&& needs_nothing(p.disk, name)
}

/// Healing leaves alone what is in no need of it.
proof fn settled_stays(p: PlanView, name: Seq<char>, node: Option<NodeView>, n: Seq<char>)
    requires
        is_settled(p, name, node),
        name.len() > 0,
        name[0] != '.',
    ensures
        is_settled(p.recovering_one(Folder::Versions, n, store::version(n)), name, node),
{
    let to = store::version(name);
    let trash = install::trash(Folder::Versions, name);
    working_names_differ(Folder::Versions, n, name);
    working_names_differ(Folder::Versions, name, n);
    put_aside_names(name, 0);
    put_aside_names(name, 1);
    if p.disk.resolves(to) {
        healing_spares_the_rest(p, n, to);
    } else {
        healing_buries_nothing(p, name, n);
        if n == name {
            healing_without_trash(p, n, to);
            healing_without_trash(p, n, trash);
        } else if n == trash.name {
            assert(!install::is_trash_like(p.disk, store::version(put_aside(name, 2))));
            healing_without_trash(p, n, to);
            healing_without_trash(p, n, trash);
        } else {
            healing_spares_the_rest(p, n, to);
            healing_spares_the_rest(p, n, trash);
        }
    }
}

/// What is in no need of healing stays what it is, whatever is healed.
pub(crate) proof fn settled_stays_throughout(
    p: PlanView,
    name: Seq<char>,
    names: Seq<Seq<char>>,
)
    requires
        p.ready(),
        needs_nothing(p.disk, name),
        name.len() > 0,
        name[0] != '.',
    ensures
        p.recovering_each(names).ready(),
        needs_nothing(p.recovering_each(names).disk, name),
        p.recovering_each(names).disk.node(store::version(name)) == p.disk.node(
            store::version(name),
        ),
    decreases names.len(),
{
    if names.len() > 0 {
        let init = names.drop_last();
        settled_stays_throughout(p, name, init);
        settled_stays(
            p.recovering_each(init),
            name,
            p.disk.node(store::version(name)),
            names.last(),
        );
    }
}

/// Putting trash back where no directory is: the trash is what is there then.
proof fn put_back(p: PlanView, name: Seq<char>)
    requires
        p.ready(),
        p.disk.has_versions,
        name.len() > 0,
        name[0] != '.',
        install::is_trash_like(p.disk, install::trash(Folder::Versions, name)),
        !p.disk.resolves(store::version(name)),
    ensures
        ({
            let after = p.recovering_one(Folder::Versions, name, store::version(name));
            let trash = install::trash(Folder::Versions, name);
            &&& after.ready()
            &&& after.disk.has_versions
            &&& after.disk.node(store::version(name)) == p.disk.node(trash)
            &&& !after.disk.taken(trash)
        }),
{
    let to = store::version(name);
    let trash = install::trash(Folder::Versions, name);
    let unmark = ActView::RemoveFile(install::marker(Folder::Versions, name));
    let clear = ActView::RemoveFile(to);
    working_names_differ(Folder::Versions, name, name);
    keeps_versions(p, name);
    if p.disk.taken(to) {
        let cleared = p.step(clear, OnError::Ignore);
        steps_spare_the_rest(p, clear, OnError::Ignore, trash);
        disk::node_after_without(p.disk, to, trash);
        moved(cleared, trash, to, OnError::Ignore);
    } else {
        moved(p, trash, to, OnError::Ignore);
    }
    let restored = p.restoring(trash, to);
    steps_spare_the_rest(restored, unmark, OnError::Ignore, to);
    steps_spare_the_rest(restored, unmark, OnError::Ignore, trash);
}

/// A build that was put aside, and nothing put in its place, is put back when its name
/// comes up, and then stays.
proof fn put_back_when_it_comes_up(
    p: PlanView,
    name: Seq<char>,
    node: NodeView,
    names: Seq<Seq<char>>,
)
    requires
        p.ready(),
        p.disk.has_versions,
        name.len() > 0,
        name[0] != '.',
        !p.disk.taken(store::version(name)),
        p.disk.node(install::trash(Folder::Versions, name)) == Some(node),
        !(node is File),
        p.disk.resolves(install::trash(Folder::Versions, name)) || !is_buried(p.disk, name),
    ensures
        ({
            let after = p.recovering_each(names);
            &&& after.ready()
            &&& after.disk.has_versions
            &&& names.contains(name) ==> is_settled(after, name, Some(node))
            &&& !names.contains(name) ==> !after.disk.taken(store::version(name))
                && after.disk.node(install::trash(Folder::Versions, name)) == Some(node) && (
            after.disk.resolves(install::trash(Folder::Versions, name)) || !is_buried(
                after.disk,
                name,
            ))
        }),
    decreases names.len(),
{
    let to = store::version(name);
    let trash = install::trash(Folder::Versions, name);
    if names.len() > 0 {
        let init = names.drop_last();
        let n = names.last();
        assert(names[names.len() - 1] == n);
        assert forall|x: Seq<char>| init.contains(x) implies names.contains(x) by {
            let j = init.index_of(x);
            assert(names[j] == x);
        }
        assert forall|x: Seq<char>| names.contains(x) && x != n implies init.contains(x) by {
            let j = names.index_of(x);
            assert(init[j] == x);
        }
        put_back_when_it_comes_up(p, name, node, init);
        let before = p.recovering_each(init);
        working_names_differ(Folder::Versions, n, name);
        working_names_differ(Folder::Versions, name, n);
        put_aside_names(name, 0);
        put_aside_names(name, 1);
        keeps_versions(before, n);
        if init.contains(name) {
            settled_stays(before, name, Some(node), n);
        } else {
            if !is_buried(before.disk, name) {
                healing_buries_nothing(before, name, n);
            }
            if n == name {
                put_back(before, name);
            } else if n == trash.name && !before.disk.resolves(trash) {
                assert(!install::is_trash_like(before.disk, store::version(put_aside(name, 2))));
                healing_without_trash(before, n, to);
                healing_without_trash(before, n, trash);
            } else {
                healing_spares_the_rest(before, n, to);
                healing_spares_the_rest(before, n, trash);
            }
        }
    }
}

proof fn keeps_versions(p: PlanView, n: Seq<char>)
    requires
        p.ready(),
        p.disk.has_versions,
    ensures
        p.recovering_one(Folder::Versions, n, store::version(n)).disk.has_versions,
{
    working_names_differ(Folder::Versions, n, n);
    let elsewhere = Spot { folder: Folder::Game, name: n };
    healing_spares_the_rest(p, n, elsewhere);
}

/// Once a name has come up, its destination is in no need of healing any more.
proof fn settled_when_it_comes_up(p: PlanView, name: Seq<char>, names: Seq<Seq<char>>)
    requires
        p.ready(),
        p.disk.has_versions,
        name.len() > 0,
        name[0] != '.',
        p.disk.resolves(store::version(name)) || !is_buried(p.disk, name),
        names.contains(name) || needs_nothing(p.disk, name),
    ensures
        p.recovering_each(names).ready(),
        needs_nothing(p.recovering_each(names).disk, name),
    decreases names.len(),
{
    if needs_nothing(p.disk, name) {
        settled_stays_throughout(p, name, names);
    } else {
        let init = names.drop_last();
        let n = names.last();
        if init.contains(name) {
            settled_when_it_comes_up(p, name, init);
            let before = p.recovering_each(init);
            settled_stays(before, name, before.disk.node(store::version(name)), n);
        } else {
            let k = names.index_of(name);
            if k < init.len() {
                assert(init[k] == name);
            }
            assert(n == name);
            waiting(p, name, init);
            let before = p.recovering_each(init);
            if needs_nothing(before.disk, name) {
                settled_stays(before, name, before.disk.node(store::version(name)), n);
            } else {
                put_back(before, name);
                healing_buries_nothing(before, name, n);
            }
        }
    }
}

/// As long as a name has not come up, nothing is buried under it.
proof fn waiting(p: PlanView, name: Seq<char>, names: Seq<Seq<char>>)
    requires
        p.ready(),
        p.disk.has_versions,
        !is_buried(p.disk, name),
    ensures
        p.recovering_each(names).ready(),
        p.recovering_each(names).disk.has_versions,
        !is_buried(p.recovering_each(names).disk, name),
    decreases names.len(),
{
    if names.len() > 0 {
        waiting(p, name, names.drop_last());
        let before = p.recovering_each(names.drop_last());
        let n = names.last();
        keeps_versions(before, n);
        healing_buries_nothing(before, name, n);
        working_names_differ(Folder::Versions, n, n);
        healing_spares_the_rest(before, n, Spot { folder: Folder::Game, name: n });
    }
}

/// What recovery could put back it has put back: afterwards no destination is in need of
/// it, and recovering again changes none. Left out is where trash was itself put aside,
/// and lies under a name that leads to no directory.
pub proof fn recovering_again_changes_nothing(d: DiskView, name: Seq<char>)
    requires
        d.is_proper(),
        d.has_versions,
        name.len() > 0,
        name[0] != '.',
        d.resolves(store::version(name)) || !is_buried(d, name),
    ensures
        ({
            let once = disk::no_steps(d).recovering(Mode::MultiVersion).disk;
            let twice = disk::no_steps(once).recovering(Mode::MultiVersion).disk;
            &&& needs_nothing(once, name)
            &&& twice.node(store::version(name)) == once.node(store::version(name))
        }),
{
    let start = disk::no_steps(d);
    let names = install::debris(d.entries, Folder::Versions);
    debris_is_there(d, Folder::Versions, name);
    settled_when_it_comes_up(start, name, names);
    let once = start.recovering(Mode::MultiVersion).disk;
    settled_stays_throughout(
        disk::no_steps(once),
        name,
        install::debris(once.entries, Folder::Versions),
    );
}

/// An install where versions are kept side by side can be cut short after any of its
/// steps, whatever else is in the store: recovery finds what it left behind, and leaves
/// the destination with the old build or the new one, whole.
///
/// The one thing left out is a destination that leads to no directory while trash lies
/// under the very name of the install's own trash: that is put back first, and then taken
/// for the build that was there.
pub proof fn interrupted_installs_are_recovered(plan: PlanView, i: InstallView, k: int)
    requires
        plan.ready(),
        install_laws::can_swap(plan.disk, i),
        i.mode == Mode::MultiVersion,
        i.name.len() > 0,
        i.name[0] != '.',
        0 <= k <= 5,
        plan.disk.resolves(i.to()) || !is_buried(plan.disk, i.name),
    ensures
        ({
            let found = disk::no_steps(install_laws::swapped(plan, i, k).disk);
            let healed = found.recovering(Mode::MultiVersion);
            &&& !healed.failed
            &&& healed.disk.node(i.to()) == if k <= 2 {
                plan.disk.node(i.to())
            } else {
                plan.disk.node(i.staging())
            }
        }),
{
    install_laws::swap_step_by_step(plan, i);
    install_laws::swapped_one_more(plan, i, 0);
    let left = install_laws::swapped(plan, i, k).disk;
    let found = disk::no_steps(left);
    let names = install::debris(left.entries, Folder::Versions);
    reveal_strlit(".staging-");
    reveal_strlit(".trashmark-");
    assert(i.staging().name[1] == 's');
    assert(i.marker().name[6] == 'm');
    put_aside_names(i.name, 0);
    if !is_buried(plan.disk, i.name) {
        assert forall|depth: nat| depth >= 2 implies !install::is_trash_like(
            left,
            store::version(#[trigger] put_aside(i.name, depth)),
        ) by {
            put_aside_names(i.name, depth);
            put_aside_names(i.name, 1);
            swaps_spare_the_rest(plan, i, k, store::version(put_aside(i.name, depth)));
        }
        assert(!is_buried(left, i.name));
    }
    if k == 2 {
        debris_is_there(left, Folder::Versions, i.name);
        put_back_when_it_comes_up(found, i.name, plan.disk.node(i.to())->0, names);
    } else {
        settled_stays_throughout(found, i.name, names);
    }
}

// ---------------------------------------------------------------------------
// A swap cut short where all installs share `bin`
// ---------------------------------------------------------------------------

/// When an entry was last changed.
pub open spec fn changed(node: NodeView) -> u64 {
    match node {
        NodeView::Dir { modified, .. } => store::when(modified),
        NodeView::Link { modified, .. } => store::when(modified),
        NodeView::File { modified, .. } => store::when(modified),
    }
}

/// Where the shared destination holds something real, healing leaves it alone.
proof fn settling_spares_the_rest(p: PlanView, names: Seq<Seq<char>>, to: Spot, spot: Spot)
    requires
        p.ready(),
        forall|n: Seq<char>| spot != #[trigger] install::trash(Folder::Game, n),
        forall|n: Seq<char>| spot != #[trigger] install::marker(Folder::Game, n),
    ensures
        p.settling_each(names, to).ready(),
        p.settling_each(names, to).disk.node(spot) == p.disk.node(spot),
    decreases names.len(),
{
    if names.len() > 0 {
        settling_spares_the_rest(p, names.drop_last(), to, spot);
        let before = p.settling_each(names.drop_last(), to);
        let n = names.last();
        let unmark = ActView::RemoveFile(install::marker(Folder::Game, n));
        let gone = ActView::RemoveTree(install::trash(Folder::Game, n));
        steps_spare_the_rest(before, unmark, OnError::Ignore, spot);
        steps_spare_the_rest(before, gone, OnError::SkipNext, spot);
        steps_spare_the_rest(before.step(gone, OnError::SkipNext), unmark, OnError::Ignore, spot);
    }
}

/// Which names have trash that can be put back, and that finding out changes nothing but
/// markers.
proof fn sorted_out(p: PlanView, names: Seq<Seq<char>>, spot: Spot)
    requires
        p.ready(),
        forall|n: Seq<char>| spot != #[trigger] install::marker(Folder::Game, n),
    ensures
        ({
            let (q, found) = p.sorting_out(names);
            &&& q.ready()
            &&& q.disk.node(spot) == p.disk.node(spot)
            &&& forall|j: int|
                0 <= j < found.len() ==> install::is_trash_like(
                    p.disk,
                    install::trash(Folder::Game, (#[trigger] found[j]).1),
                ) && found[j].0 == changed(
                    p.disk.node(install::trash(Folder::Game, found[j].1))->0,
                )
            &&& forall|n: Seq<char>|
                names.contains(n) && install::is_trash_like(
                    p.disk,
                    #[trigger] install::trash(Folder::Game, n),
                ) ==> exists|j: int| 0 <= j < found.len() && (#[trigger] found[j]).1 == n
        }),
    decreases names.len(),
{
    if names.len() > 0 {
        let init = names.drop_last();
        let name = names.last();
        let trash = install::trash(Folder::Game, name);
        let (q, found) = p.sorting_out(init);
        let (after, all) = p.sorting_out(names);
        sorted_out(p, init, spot);
        assert forall|n: Seq<char>| trash != #[trigger] install::marker(Folder::Game, n) by {
            working_names_differ(Folder::Game, name, n);
        }
        sorted_out(p, init, trash);
        steps_spare_the_rest(
            q,
            ActView::RemoveFile(install::marker(Folder::Game, name)),
            OnError::Ignore,
            spot,
        );
        assert forall|j: int| 0 <= j < all.len() implies install::is_trash_like(
            p.disk,
            install::trash(Folder::Game, (#[trigger] all[j]).1),
        ) && all[j].0 == changed(p.disk.node(install::trash(Folder::Game, all[j].1))->0) by {
            if j < found.len() {
                assert(all[j] == found[j]);
            }
        }
        assert forall|n: Seq<char>|
            names.contains(n) && install::is_trash_like(
                p.disk,
                #[trigger] install::trash(Folder::Game, n),
            ) implies exists|j: int| 0 <= j < all.len() && (#[trigger] all[j]).1 == n by {
            if n == name {
                assert(all[all.len() - 1].1 == n);
            } else {
                let k = names.index_of(n);
                assert(init[k] == n);
                let j = choose|j: int| 0 <= j < found.len() && (#[trigger] found[j]).1 == n;
                assert(all[j].1 == n);
            }
        }
    }
}

proof fn newest_is_newest(found: Seq<(u64, Seq<char>)>)
    requires
        found.len() > 0,
    ensures
        0 <= install::newest(found) < found.len(),
        forall|j: int|
            0 <= j < found.len() ==> (#[trigger] found[j]).0 <= found[install::newest(found)].0,
    decreases found.len(),
{
    if found.len() > 1 {
        let init = found.drop_last();
        newest_is_newest(init);
        let best = install::newest(init);
        assert forall|j: int| 0 <= j < found.len() implies (#[trigger] found[j]).0
            <= found[install::newest(found)].0 by {
            assert(init[best] == found[best]);
            if j < init.len() {
                assert(init[j].0 <= init[best].0);
            }
        }
    }
}

proof fn demoting_spares_the_rest(
    p: PlanView,
    found: Seq<(u64, Seq<char>)>,
    winner: int,
    n: int,
    spot: Spot,
)
    requires
        p.ready(),
        forall|m: Seq<char>| spot != #[trigger] install::marker(Folder::Game, m),
    ensures
        p.demoting(found, winner, n).ready(),
        p.demoting(found, winner, n).disk.node(spot) == p.disk.node(spot),
    decreases n,
{
    if n > 0 {
        demoting_spares_the_rest(p, found, winner, n - 1, spot);
        steps_spare_the_rest(
            p.demoting(found, winner, n - 1),
            ActView::RemoveFile(install::marker(Folder::Game, found[n - 1].1)),
            OnError::Ignore,
            spot,
        );
    }
}

/// The same where all installs share `bin`, whatever others left behind. What is left out
/// is where another build could be the one to put back: trash of another install while
/// `bin` leads to no directory, or trash that was changed no earlier than the build that
/// was put aside.
pub proof fn interrupted_shared_installs_are_recovered(plan: PlanView, i: InstallView, k: int)
    requires
        plan.ready(),
        install_laws::can_swap(plan.disk, i),
        i.mode == Mode::Compatible,
        0 <= k <= 5,
        k <= 1 && !plan.disk.resolves(i.to()) ==> forall|n: Seq<char>|
            !install::is_trash_like(plan.disk, #[trigger] install::trash(Folder::Game, n)),
        k == 2 ==> forall|n: Seq<char>|
            install::is_trash_like(plan.disk, #[trigger] install::trash(Folder::Game, n))
                ==> changed(plan.disk.node(install::trash(Folder::Game, n))->0) < changed(
                plan.disk.node(i.to())->0,
            ),
    ensures
        ({
            let found = disk::no_steps(install_laws::swapped(plan, i, k).disk);
            let healed = found.recovering(Mode::Compatible);
            &&& !healed.failed
            &&& healed.disk.node(i.to()) == if k <= 2 {
                plan.disk.node(i.to())
            } else {
                plan.disk.node(i.staging())
            }
        }),
{
    install_laws::swap_step_by_step(plan, i);
    install_laws::swapped_one_more(plan, i, 0);
    let d = plan.disk;
    let left = install_laws::swapped(plan, i, k).disk;
    let start = disk::no_steps(left);
    let names = install::debris(left.entries, Folder::Game);
    let to = i.to();
    reveal_strlit("bin");
    reveal_strlit(".staging-");
    reveal_strlit(".trash-");
    assert("bin"@[0] == 'b');
    assert forall|n: Seq<char>| to != #[trigger] install::marker(Folder::Game, n) by {
        working_names_differ(Folder::Game, n, n);
    }
    assert forall|n: Seq<char>| to != #[trigger] install::trash(Folder::Game, n) by {
        working_names_differ(Folder::Game, n, n);
    }
    assert forall|n: Seq<char>| i.trash() != #[trigger] install::marker(Folder::Game, n) by {
        working_names_differ(Folder::Game, i.name, n);
    }
    assert forall|n: Seq<char>| n != i.name implies left.node(
        #[trigger] install::trash(Folder::Game, n),
    ) == d.node(install::trash(Folder::Game, n)) by {
        working_names_differ(Folder::Game, n, i.name);
        assert(i.staging().name[1] == 's' && install::trash(Folder::Game, n).name[1] == 't');
        swaps_spare_the_rest(plan, i, k, install::trash(Folder::Game, n));
    }
    sorted_out(start, names, to);
    let (p, found) = start.sorting_out(names);
    if left.resolves(to) {
        settling_spares_the_rest(start, names, to, to);
    } else if k == 2 {
        debris_is_there(left, Folder::Game, i.name);
        assert(install::is_trash_like(left, install::trash(Folder::Game, i.name)));
        let mine = choose|j: int| 0 <= j < found.len() && (#[trigger] found[j]).1 == i.name;
        newest_is_newest(found);
        let winner = install::newest(found);
        assert(found[mine].0 <= found[winner].0);
        if found[winner].1 != i.name {
            assert(install::is_trash_like(d, install::trash(Folder::Game, found[winner].1)));
        }
        sorted_out(start, names, i.trash());
        let n = found.len() as int;
        demoting_spares_the_rest(p, found, winner, n, to);
        demoting_spares_the_rest(p, found, winner, n, i.trash());
        let q = p.demoting(found, winner, n);
        moved(q, i.trash(), to, OnError::Ignore);
        steps_spare_the_rest(
            q.restoring(i.trash(), to),
            ActView::RemoveFile(i.marker()),
            OnError::Ignore,
            to,
        );
    } else if k <= 1 {
        same_landing(plan, i, k);
        if found.len() > 0 {
            assert(install::is_trash_like(left, install::trash(Folder::Game, found[0].1)));
            assert(install::is_trash_like(d, install::trash(Folder::Game, found[0].1)));
        }
    }
}

/// Whether the trash of a name is the one last changed, of all that could be put back
/// in the shared destination.
pub open spec fn is_newest_trash(d: DiskView, name: Seq<char>) -> bool {
    &&& install::is_trash_like(d, install::trash(Folder::Game, name))
    &&& forall|other: Seq<char>|
        install::is_trash_like(d, #[trigger] install::trash(Folder::Game, other)) ==> changed(
            d.node(install::trash(Folder::Game, other))->0,
        ) <= changed(d.node(install::trash(Folder::Game, name))->0)
}

/// Where `bin` leads to no directory and anything was put aside, recovery puts the trash
/// that was last changed in its place, whoever put it aside.
pub proof fn an_empty_place_gets_the_newest_trash(d: DiskView)
    requires
        d.is_proper(),
        !d.resolves(store::bin()),
        exists|n: Seq<char>|
            install::is_trash_like(d, #[trigger] install::trash(Folder::Game, n)),
    ensures
        ({
            let healed = disk::no_steps(d).recovering(Mode::Compatible);
            &&& !healed.failed
            &&& exists|n: Seq<char>| #[trigger]
                is_newest_trash(d, n) && healed.disk.node(store::bin()) == d.node(
                    install::trash(Folder::Game, n),
                )
        }),
{
    let start = disk::no_steps(d);
    let to = store::bin();
    let names = install::debris(d.entries, Folder::Game);
    reveal_strlit("bin");
    assert("bin"@[0] == 'b');
    assert forall|n: Seq<char>| to != #[trigger] install::marker(Folder::Game, n) by {
        working_names_differ(Folder::Game, n, n);
    }
    sorted_out(start, names, to);
    let (p, found) = start.sorting_out(names);
    let some = choose|n: Seq<char>|
        install::is_trash_like(d, #[trigger] install::trash(Folder::Game, n));
    debris_is_there(d, Folder::Game, some);
    let mine = choose|j: int| 0 <= j < found.len() && (#[trigger] found[j]).1 == some;
    newest_is_newest(found);
    let winner = install::newest(found);
    let name = found[winner].1;
    let trash = install::trash(Folder::Game, name);
    assert(is_newest_trash(d, name)) by {
        assert forall|other: Seq<char>|
            install::is_trash_like(
                d,
                #[trigger] install::trash(Folder::Game, other),
            ) implies changed(d.node(install::trash(Folder::Game, other))->0) <= changed(
            d.node(trash)->0,
        ) by {
            debris_is_there(d, Folder::Game, other);
            let j = choose|j: int| 0 <= j < found.len() && (#[trigger] found[j]).1 == other;
            assert(found[j].0 <= found[winner].0);
        }
    }
    assert forall|n: Seq<char>| trash != #[trigger] install::marker(Folder::Game, n) by {
        working_names_differ(Folder::Game, name, n);
    }
    working_names_differ(Folder::Game, name, name);
    sorted_out(start, names, trash);
    let n = found.len() as int;
    demoting_spares_the_rest(p, found, winner, n, to);
    demoting_spares_the_rest(p, found, winner, n, trash);
    let q = p.demoting(found, winner, n);
    if q.disk.taken(to) {
        let clear = ActView::RemoveFile(to);
        let cleared = q.step(clear, OnError::Ignore);
        assert(!q.disk.is_dir(to));
        steps_spare_the_rest(q, clear, OnError::Ignore, trash);
        disk::node_after_without(q.disk, to, trash);
        moved(cleared, trash, to, OnError::Ignore);
    } else {
        moved(q, trash, to, OnError::Ignore);
    }
    steps_spare_the_rest(
        q.restoring(trash, to),
        ActView::RemoveFile(install::marker(Folder::Game, name)),
        OnError::Ignore,
        to,
    );
}

/// Whatever others left behind, an install that shares `bin` and is cut short does not
/// leave one without a game. Where `bin` leads to a directory when it is cut short,
/// recovery leaves that alone: the old build, or the new one. Where it does not, it gets
/// the newest trash; between the two renames the old build is among that.
pub proof fn a_cut_short_install_leaves_a_game(plan: PlanView, i: InstallView, k: int)
    requires
        plan.ready(),
        install_laws::can_swap(plan.disk, i),
        i.mode == Mode::Compatible,
        0 <= k <= 5,
    ensures
        ({
            let left = install_laws::swapped(plan, i, k).disk;
            let healed = disk::no_steps(left).recovering(Mode::Compatible);
            let now = healed.disk.node(i.to());
            &&& !healed.failed
            &&& k >= 3 ==> now == plan.disk.node(i.staging())
            &&& k <= 1 && plan.disk.resolves(i.to()) ==> now == plan.disk.node(i.to())
            &&& k <= 1 && (forall|n: Seq<char>|
                !install::is_trash_like(plan.disk, #[trigger] install::trash(Folder::Game, n)))
                ==> now == plan.disk.node(i.to())
            &&& k == 2 ==> left.node(i.trash()) == plan.disk.node(i.to())
            &&& k == 2 || k <= 1 && !plan.disk.resolves(i.to()) && (exists|n: Seq<char>|
                install::is_trash_like(plan.disk, #[trigger] install::trash(Folder::Game, n)))
                ==> exists|n: Seq<char>| #[trigger]
                is_newest_trash(left, n) && now == left.node(install::trash(Folder::Game, n))
        }),
{
    install_laws::swap_step_by_step(plan, i);
    install_laws::swapped_one_more(plan, i, 0);
    let d = plan.disk;
    let left = install_laws::swapped(plan, i, k).disk;
    let to = i.to();
    reveal_strlit(".staging-");
    reveal_strlit(".trash-");
    let quiet = forall|n: Seq<char>|
        !install::is_trash_like(d, #[trigger] install::trash(Folder::Game, n));
    if k >= 3 || k <= 1 && (d.resolves(to) || quiet) {
        interrupted_shared_installs_are_recovered(plan, i, k);
    } else {
        assert(!left.resolves(to)) by {
            if k <= 1 {
                same_landing(plan, i, k);
            }
        }
        if k == 2 {
            assert(install::is_trash_like(left, install::trash(Folder::Game, i.name)));
        } else {
            let n = choose|n: Seq<char>|
                install::is_trash_like(d, #[trigger] install::trash(Folder::Game, n));
            working_names_differ(Folder::Game, n, i.name);
            working_names_differ(Folder::Game, n, n);
            assert(n != i.name);
            reveal_strlit("bin");
            assert("bin"@[0] == 'b');
            assert(i.staging().name[1] == 's' && install::trash(Folder::Game, n).name[1] == 't');
            swaps_spare_the_rest(plan, i, k, install::trash(Folder::Game, n));
            assert(install::is_trash_like(left, install::trash(Folder::Game, n)));
        }
        an_empty_place_gets_the_newest_trash(left);
    }
}

/// As long as `bin` has not been renamed it leads where it did.
proof fn same_landing(plan: PlanView, i: InstallView, k: int)
    requires
        plan.ready(),
        install_laws::can_swap(plan.disk, i),
        i.mode == Mode::Compatible,
        0 <= k <= 1,
    ensures
        install_laws::swapped(plan, i, k).disk.landing(i.to()) == plan.disk.landing(i.to()),
{
    install_laws::swap_step_by_step(plan, i);
    install_laws::swapped_one_more(plan, i, 0);
    let d = plan.disk;
    match d.node(i.to()) {
        Some(NodeView::Link { target, .. }) => match disk::linked_version(
            target,
            d.versions_dir,
        ) {
            Some(name) => swaps_spare_the_rest(plan, i, k, store::version(name)),
            None => {},
        },
        _ => {},
    }
    swaps_spare_the_rest(plan, i, k, store::version(seq![]));
}

/// A build that is in place stays there: where a destination leads to a directory,
/// recovery does not touch it, whatever lies beside it.
pub proof fn recovery_leaves_builds_in_place(d: DiskView, mode: Mode, name: Seq<char>)
    requires
        d.is_proper(),
        name.len() > 0,
        name[0] != '.',
        d.resolves(install::destination(mode, name)),
    ensures
        ({
            let healed = disk::no_steps(d).recovering(mode);
            let to = install::destination(mode, name);
            !healed.failed && healed.disk.node(to) == d.node(to)
        }),
{
    let start = disk::no_steps(d);
    let to = install::destination(mode, name);
    let names = install::debris(d.entries, install::workplace(mode));
    match mode {
        Mode::MultiVersion => healing_keeps_what_resolves(start, names, to),
        Mode::Compatible => {
            reveal_strlit("bin");
            assert("bin"@[0] == 'b');
            assert forall|n: Seq<char>| to != #[trigger] install::marker(Folder::Game, n) by {
                working_names_differ(Folder::Game, n, n);
            }
            assert forall|n: Seq<char>| to != #[trigger] install::trash(Folder::Game, n) by {
                working_names_differ(Folder::Game, n, n);
            }
            settling_spares_the_rest(start, names, to, to);
        },
    }
}

} // verus!
