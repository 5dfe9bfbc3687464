//! What holds of one install after another where versions are kept side by side.

use vstd::prelude::*;

use crate::disk;
use crate::disk::{ActView, DiskView, EntryView, Folder, NodeView, OnError, PlanView, Spot};
use crate::error::CoreErrorView;
use crate::game;
use crate::install;
use crate::install::InstallView;
use crate::install_laws;
use crate::order;
use crate::path;
use crate::recovery_laws;
use crate::search;
use crate::store;
use crate::store::{DatedView, InstalledView, Mode};
use crate::text;

verus! {

broadcast use vstd::string::group_string_axioms;

// ---------------------------------------------------------------------------
// An install from beginning to end
// ---------------------------------------------------------------------------

/// The directory an install begins with: whatever was left behind is healed.
pub open spec fn healed(d: DiskView) -> DiskView {
    disk::no_steps(d).recovering(Mode::MultiVersion).disk
}

/// The install of `tag`.
pub open spec fn begun(d: DiskView, tag: Seq<char>) -> Result<InstallView, CoreErrorView> {
    install::install_of(healed(d), Mode::MultiVersion, tag)
}

/// The directory once the archive has been downloaded, and unpacked.
pub open spec fn unpacked(d: DiskView, i: InstallView, new: NodeView) -> DiskView {
    disk::no_steps(healed(d)).preparing(i).disk.with(
        i.archive(),
        NodeView::File { contents: None, modified: None },
    ).with(i.staging(), new)
}

/// What is then done with it.
pub open spec fn finishing(d: DiskView, i: InstallView, new: NodeView) -> PlanView {
    let staged = unpacked(d, i, new);
    disk::no_steps(staged).making_way(i).placing(i).committing(
        i,
        staged.taken(i.to()),
    ).tidying(i, false)
}

/// Whether an install of `tag` succeeds: it can begin, and nothing fails.
pub open spec fn succeeds(d: DiskView, tag: Seq<char>, new: NodeView) -> bool {
    &&& begun(d, tag) is Ok
    &&& !finishing(d, begun(d, tag)->Ok_0, new).failed
    &&& new matches NodeView::Dir { build, .. } && build.version == Some(tag)
}

/// The directory after an install that succeeds.
pub open spec fn installed(d: DiskView, tag: Seq<char>, new: NodeView) -> DiskView {
    finishing(d, begun(d, tag)->Ok_0, new).disk
}

proof fn recovering_stays_ready(p: PlanView, names: Seq<Seq<char>>)
    requires
        p.ready(),
    ensures
        p.recovering_each(names).ready(),
    decreases names.len(),
{
    if names.len() > 0 {
        recovering_stays_ready(p, names.drop_last());
        let n = names.last();
        recovery_laws::working_names_differ(Folder::Versions, n, n);
        recovery_laws::healing_spares_the_rest(
            p.recovering_each(names.drop_last()),
            n,
            Spot { folder: Folder::Game, name: n },
        );
    }
}

/// Whether an entry is neither the destination of an install nor one it works with.
pub open spec fn is_elsewhere(i: InstallView, spot: Spot) -> bool {
    &&& spot != i.to()
    &&& spot != i.trash()
    &&& spot != i.marker()
    &&& spot != i.staging()
    &&& spot != i.archive()
}

/// A name that does not begin with a dot is none that an install works with.
proof fn visible_is_elsewhere(i: InstallView, name: Seq<char>)
    requires
        name != i.name,
        name.len() > 0,
        name[0] != '.',
        i.mode == Mode::MultiVersion,
    ensures
        is_elsewhere(i, store::version(name)),
{
    reveal_strlit(".trash-");
    reveal_strlit(".trashmark-");
    reveal_strlit(".staging-");
    reveal_strlit(".download-");
    assert(i.trash().name[0] == '.' && i.marker().name[0] == '.' && i.staging().name[0] == '.'
        && i.archive().name[0] == '.');
}

/// An install that succeeds puts its build in place, and has nothing to do with any
/// entry but the destination and its own working entries.
pub proof fn an_install_places_its_build(d: DiskView, tag: Seq<char>, new: NodeView, spot: Spot)
    requires
        d.is_proper(),
        succeeds(d, tag, new),
    ensures
        ({
            let i = begun(d, tag)->Ok_0;
            let after = installed(d, tag, new);
            &&& after.is_proper()
            &&& after.has_versions
            &&& i.name.len() > 0 && i.name[0] != '.'
            &&& after.node(i.to()) == Some(new)
            &&& is_elsewhere(i, spot) ==> after.node(spot) == healed(d).node(spot)
        }),
{
    let h = healed(d);
    let i = begun(d, tag)->Ok_0;
    let to = i.to();
    recovering_stays_ready(
        disk::no_steps(d),
        install::debris(d.entries, Folder::Versions),
    );
    install_laws::install_names_are_visible(h, Mode::MultiVersion, tag);
    install_laws::installs_work_apart(i);
    reveal_strlit(".trash-");
    reveal_strlit(".trashmark-");
    reveal_strlit(".staging-");
    reveal_strlit(".download-");
    assert(i.trash().name[0] == '.' && i.marker().name[0] == '.' && i.staging().name[0] == '.'
        && i.archive().name[0] == '.');
    assert(i.staging().name[1] == 's' && i.archive().name[1] == 'd');
    let elsewhere = if is_elsewhere(i, spot) {
        spot
    } else {
        Spot { folder: Folder::Game, name: seq!['x'] }
    };

    // Making room.
    let p = disk::no_steps(h);
    let make = ActView::MakeFolder(i.folder());
    let made = p.step(make, OnError::Fail);
    recovery_laws::steps_spare_the_rest(p, make, OnError::Fail, elsewhere);
    let clear = ActView::RemoveTree(i.staging());
    recovery_laws::steps_spare_the_rest(made, clear, OnError::Ignore, elsewhere);
    let prepared = p.preparing(i).disk;
    assert(prepared.is_proper() && prepared.has_versions);

    // Unpacking.
    let file = NodeView::File { contents: None, modified: None };
    let archived = prepared.with(i.archive(), file);
    let staged = unpacked(d, i, new);
    disk::node_after_with(prepared, i.archive(), file, elsewhere);
    disk::node_after_with(archived, i.staging(), new, elsewhere);
    disk::with_is_proper(prepared, i.archive(), file);
    disk::with_is_proper(archived, i.staging(), new);

    // Making way.
    let q = disk::no_steps(staged);
    let write = ActView::Write { at: i.marker(), contents: i.tag };
    let aside = ActView::Rename { from: to, to: i.trash() };
    let written = q.step(write, OnError::Fail);
    recovery_laws::steps_spare_the_rest(q, write, OnError::Fail, elsewhere);
    recovery_laws::steps_spare_the_rest(q, write, OnError::Fail, i.staging());
    recovery_laws::steps_spare_the_rest(written, aside, OnError::Fail, elsewhere);
    recovery_laws::steps_spare_the_rest(written, aside, OnError::Fail, i.staging());
    let way = q.making_way(i);
    assert(way.disk.node(i.staging()) == Some(new));

    // Putting it in place.
    let put = ActView::Rename { from: i.staging(), to };
    let placed = way.placing(i);
    recovery_laws::steps_spare_the_rest(way, put, OnError::Fail, elsewhere);
    let had = staged.taken(to);
    let committed = placed.committing(i, had);
    let gone = ActView::RemoveTree(i.trash());
    let unmark = ActView::RemoveFile(i.marker());
    let tidy = ActView::RemoveFile(i.archive());
    assert(!placed.failed);
    assert(!way.failed && !way.skipping);
    recovery_laws::moved(way, i.staging(), to, OnError::Fail);

    // Cleaning up.
    let discarded = placed.step(gone, OnError::SkipNext);
    recovery_laws::steps_spare_the_rest(placed, gone, OnError::SkipNext, to);
    recovery_laws::steps_spare_the_rest(placed, gone, OnError::SkipNext, elsewhere);
    recovery_laws::steps_spare_the_rest(discarded, unmark, OnError::Ignore, to);
    recovery_laws::steps_spare_the_rest(discarded, unmark, OnError::Ignore, elsewhere);
    recovery_laws::steps_spare_the_rest(committed, tidy, OnError::Ignore, to);
    recovery_laws::steps_spare_the_rest(committed, tidy, OnError::Ignore, elsewhere);
}

// ---------------------------------------------------------------------------
// What is listed
// ---------------------------------------------------------------------------

/// Whether a build has a name.
pub open spec fn is_named(name: Seq<char>) -> spec_fn(InstalledView) -> bool {
    |b: InstalledView| b.name == name
}

spec fn is_dated_named(name: Seq<char>) -> spec_fn(DatedView) -> bool {
    |b: DatedView| b.build.name == name
}

/// What a build of `tag` is listed as under `name`. One whose tag says that it is unknown
/// goes by its name.
pub open spec fn shown(
    name: Seq<char>,
    tag: Seq<char>,
    new: NodeView,
    versions: Seq<char>,
) -> InstalledView {
    InstalledView {
        tag: if tag == "unknown"@ {
            name
        } else {
            tag
        },
        name,
        dir: path::under(versions, name),
        can_launch: new matches NodeView::Dir { build, .. } && build.launches,
    }
}

proof fn listing_of_a_name(entries: Seq<EntryView>, versions: Seq<char>, name: Seq<char>, k: int)
    requires
        0 <= k <= entries.len(),
        forall|j: int|
            0 <= j < entries.len() && j != k ==> (#[trigger] entries[j]).spot != store::version(
                name,
            ),
        k < entries.len() ==> entries[k].spot == store::version(name) && store::listed(
            entries[k],
            versions,
        ) is Some,
    ensures
        store::listing(entries, versions).filter(is_dated_named(name)) == if k < entries.len() {
            seq![store::listed(entries[k], versions)->0]
        } else {
            seq![]
        },
    decreases entries.len(),
{
    reveal(Seq::filter);
    if entries.len() > 0 {
        let init = entries.drop_last();
        let last = entries.last();
        let n = entries.len() - 1;
        assert(entries[n] == last);
        listing_of_a_name(
            init,
            versions,
            name,
            if k < n {
                k
            } else {
                n
            },
        );
        let before = store::listing(init, versions);
        match store::listed(last, versions) {
            Some(build) => {
                assert(before.push(build).drop_last() =~= before);
                if k == n {
                    assert(seq![].push(build) =~= seq![build]);
                } else {
                    assert(build.build.name == last.spot.name);
                    assert(last.spot.folder == Folder::Versions);
                    assert(last.spot != store::version(name));
                    assert(build.build.name != name);
                }
            },
            None => {},
        }
    }
}

proof fn undated_with_a_name(s: Seq<DatedView>, name: Seq<char>)
    ensures
        store::undated(s).filter(is_named(name)) == store::undated(
            s.filter(is_dated_named(name)),
        ),
    decreases s.len(),
{
    reveal(Seq::filter);
    if s.len() > 0 {
        let init = s.drop_last();
        undated_with_a_name(init, name);
        assert(store::undated(s).drop_last() =~= store::undated(init));
        assert(store::undated(init.filter(is_dated_named(name)).push(s.last())) =~= store::undated(
            init.filter(is_dated_named(name)),
        ).push(s.last().build));
    } else {
        assert(store::undated(s) =~= seq![]);
        assert(store::undated(s.filter(is_dated_named(name))) =~= seq![]);
    }
}

/// A build that is in the store is listed, and once.
pub proof fn what_is_there_is_listed_once(
    d: DiskView,
    name: Seq<char>,
    tag: Seq<char>,
    new: NodeView,
    bin_dir: Seq<char>,
    versions: Seq<char>,
)
    requires
        d.is_proper(),
        d.has_versions,
        name.len() > 0,
        name[0] != '.',
        d.node(store::version(name)) == Some(new),
        new matches NodeView::Dir { build, .. } && build.version == Some(tag),
        text::trimmed(tag) == tag,
        tag.len() > 0,
    ensures
        store::installations(d, Mode::MultiVersion, bin_dir, versions).filter(is_named(name))
            == seq![shown(name, tag, new, versions)],
{
    let spot = store::version(name);
    let k = d.index(spot);
    disk::index_is_first(d, spot);
    assert forall|j: int| 0 <= j < d.entries.len() && j != k implies (
    #[trigger] d.entries[j]).spot != spot by {
        if j < k {
        } else {
            assert(d.entries[k].spot != d.entries[j].spot);
        }
    }
    listing_of_a_name(d.entries, versions, name, k);
    let all = store::listing(d.entries, versions);
    let before = |a: DatedView, b: DatedView| a.modified > b.modified;
    let one = store::listed(d.entries[k], versions)->0;
    order::ordering_keeps_what_is_alone(all, before, is_dated_named(name));
    undated_with_a_name(store::stored(d, versions), name);
    assert(store::undated(seq![one]) =~= seq![one.build]);
    assert(one.build == shown(name, tag, new, versions));
}

// ---------------------------------------------------------------------------
// One install after another
// ---------------------------------------------------------------------------

proof fn healing_keeps_a_build(d: DiskView, name: Seq<char>)
    requires
        d.is_proper(),
        name.len() > 0,
        name[0] != '.',
        d.resolves(store::version(name)),
    ensures
        healed(d).node(store::version(name)) == d.node(store::version(name)),
{
    recovery_laws::healing_keeps_what_resolves(
        disk::no_steps(d),
        install::debris(d.entries, Folder::Versions),
        store::version(name),
    );
}

/// Builds of two tags are never in each other's way, though their names be alike: after
/// both were installed both are listed, under different names, each with its own tag
/// written down in it.
pub proof fn two_tags_are_both_listed(
    d: DiskView,
    a: Seq<char>,
    b: Seq<char>,
    first: NodeView,
    second: NodeView,
    bin_dir: Seq<char>,
    versions: Seq<char>,
)
    requires
        d.is_proper(),
        a != b,
        text::trimmed(a) == a,
        text::trimmed(b) == b,
        succeeds(d, a, first),
        succeeds(installed(d, a, first), b, second),
    ensures
        ({
            let between = installed(d, a, first);
            let after = installed(between, b, second);
            let x = begun(d, a)->Ok_0.name;
            let y = begun(between, b)->Ok_0.name;
            let all = store::installations(after, Mode::MultiVersion, bin_dir, versions);
            &&& x != y
            &&& after.node(store::version(x)) == Some(first)
            &&& after.node(store::version(y)) == Some(second)
            &&& all.filter(is_named(x)) == seq![shown(x, a, first, versions)]
            &&& all.filter(is_named(y)) == seq![shown(y, b, second, versions)]
        }),
{
    let between = installed(d, a, first);
    let after = installed(between, b, second);
    let x = begun(d, a)->Ok_0.name;
    let y = begun(between, b)->Ok_0.name;
    an_install_places_its_build(d, a, first, store::version(x));
    an_install_places_its_build(between, b, second, store::version(x));
    healing_keeps_a_build(between, x);
    install_laws::versions_are_not_shared(
        healed(between),
        game::directory_name(b)->Ok_0,
        b,
    );
    assert(x != y);
    visible_is_elsewhere(begun(between, b)->Ok_0, x);
    what_is_there_is_listed_once(after, x, a, first, bin_dir, versions);
    what_is_there_is_listed_once(after, y, b, second, bin_dir, versions);
}

/// Whether the store is one that can be: where there is no directory for it, nothing is
/// in it.
pub open spec fn is_possible(d: DiskView) -> bool {
    d.has_versions || forall|name: Seq<char>| !d.taken(#[trigger] store::version(name))
}

/// What recovery leaves alone after an install it left alone before it.
proof fn an_install_settles_no_other(d: DiskView, tag: Seq<char>, new: NodeView, name: Seq<char>)
    requires
        d.is_proper(),
        succeeds(d, tag, new),
        name.len() > 0,
        name[0] != '.',
        name != begun(d, tag)->Ok_0.name,
        recovery_laws::needs_nothing(healed(d), name),
    ensures
        ({
            let between = installed(d, tag, new);
            let there = store::version(name);
            &&& between.node(there) == healed(d).node(there)
            &&& healed(between).node(there) == healed(d).node(there)
        }),
{
    let h = healed(d);
    let i = begun(d, tag)->Ok_0;
    let between = installed(d, tag, new);
    let there = store::version(name);
    let trash = install::trash(Folder::Versions, name);
    reveal_strlit(".trashmark-");
    reveal_strlit(".staging-");
    reveal_strlit(".download-");
    assert(i.marker().name[6] == 'm' && i.staging().name[1] == 's' && i.archive().name[1] == 'd');
    visible_is_elsewhere(i, name);
    an_install_places_its_build(d, tag, new, there);
    assert forall|depth: nat| depth >= 1 implies between.node(
        store::version(#[trigger] recovery_laws::put_aside(name, depth)),
    ) == h.node(store::version(recovery_laws::put_aside(name, depth))) by {
        let spot = store::version(recovery_laws::put_aside(name, depth));
        let under = recovery_laws::put_aside(name, (depth - 1) as nat);
        recovery_laws::put_aside_names(name, depth);
        recovery_laws::put_aside_names(name, (depth - 1) as nat);
        recovery_laws::working_names_differ(Folder::Versions, under, i.name);
        assert(under != i.name);
        assert(is_elsewhere(i, spot));
        an_install_places_its_build(d, tag, new, spot);
    }
    recovery_laws::put_aside_names(name, 0);
    recovery_laws::put_aside_names(name, 1);
    assert(between.node(store::version(recovery_laws::put_aside(name, 1))) == h.node(trash));
    assert(recovery_laws::needs_nothing(between, name)) by {
        if !between.resolves(there) {
            assert forall|depth: nat| depth >= 2 implies !install::is_trash_like(
                between,
                store::version(#[trigger] recovery_laws::put_aside(name, depth)),
            ) by {
                assert(!install::is_trash_like(
                    h,
                    store::version(recovery_laws::put_aside(name, depth)),
                ));
            }
        }
    }
    recovery_laws::settled_stays_throughout(
        disk::no_steps(between),
        name,
        install::debris(between.entries, Folder::Versions),
    );
}

/// Where the store is not even there, recovery has nothing to do.
proof fn nothing_to_recover(d: DiskView)
    requires
        is_possible(d),
        !d.has_versions,
    ensures
        healed(d) == d,
{
    let names = install::debris(d.entries, Folder::Versions);
    if names.len() > 0 {
        let n = names[0];
        recovery_laws::debris_is_there(d, Folder::Versions, n);
        assert(names.contains(n));
        let trash = install::trash(Folder::Versions, n);
        let marker = install::marker(Folder::Versions, n);
        assert(trash == store::version(trash.name) && marker == store::version(marker.name));
    }
}

/// Installing a tag again replaces its build in place: the name is the same, and it is
/// listed once, with the second build.
///
/// Left out is only where trash was itself put aside, and lies under a name that the tag
/// could be installed under and that leads to no directory. It takes two recoveries to put
/// that back, so the second install finds a build where the first found none.
pub proof fn a_tag_installed_again_is_listed_once(
    d: DiskView,
    tag: Seq<char>,
    first: NodeView,
    second: NodeView,
    bin_dir: Seq<char>,
    versions: Seq<char>,
)
    requires
        d.is_proper(),
        text::trimmed(tag) == tag,
        succeeds(d, tag, first),
        succeeds(installed(d, tag, first), tag, second),
        is_possible(d),
        forall|k: int|
            1 <= k ==> {
                let name = #[trigger] store::candidate(game::directory_name(tag)->Ok_0, k);
                d.resolves(store::version(name)) || !recovery_laws::is_buried(d, name)
            },
    ensures
        ({
            let between = installed(d, tag, first);
            let after = installed(between, tag, second);
            let x = begun(d, tag)->Ok_0.name;
            let all = store::installations(after, Mode::MultiVersion, bin_dir, versions);
            &&& begun(between, tag)->Ok_0.name == x
            &&& after.node(store::version(x)) == Some(second)
            &&& all.filter(is_named(x)) == seq![shown(x, tag, second, versions)]
        }),
{
    let h = healed(d);
    let between = installed(d, tag, first);
    let after = installed(between, tag, second);
    let again = healed(between);
    let safe = game::directory_name(tag)->Ok_0;
    let x = begun(d, tag)->Ok_0.name;
    an_install_places_its_build(d, tag, first, store::version(x));
    game::directory_names_are_plain(tag);
    healing_keeps_a_build(between, x);

    let p = |k: int| install::takes(h, store::candidate(safe, k), tag);
    let q = |k: int| install::takes(again, store::candidate(safe, k), tag);
    let n = h.entries.len() as int + 2;
    let m = again.entries.len() as int + 2;
    search::first_that_is_first(p, 1, n);
    let at = search::first_that(p, 1, n);
    assert(x == store::candidate(safe, at));
    assert(q(at));
    assert forall|k: int| 1 <= k < at implies !#[trigger] q(k) by {
        let name = store::candidate(safe, k);
        assert(!p(k));
        store::candidates_differ(safe, k, at);
        assert(name.len() > 0 && name[0] == safe[0]);
        let there = store::version(name);
        if d.has_versions {
            recovery_laws::recovering_again_changes_nothing(d, name);
            an_install_settles_no_other(d, tag, first, name);
        } else {
            nothing_to_recover(d);
            assert(!d.taken(there));
        }
        assert(again.node(there) == h.node(there));
    }
    if at >= m {
        assert forall|k: int| 1 <= k <= m - 1 implies again.taken(
            store::version(#[trigger] store::candidate(safe, k)),
        ) by {
            if k < at {
                assert(!q(k));
            }
        }
        store::some_candidate_is_free(again, safe, m - 1);
    }
    search::first_that_is(q, 1, m, at);
    an_install_places_its_build(between, tag, second, store::version(x));
    what_is_there_is_listed_once(after, x, tag, second, bin_dir, versions);
}

} // verus!
