//! Unpacking a downloaded archive.

use vstd::prelude::*;

use crate::error;
use crate::error::{CoreError, CoreErrorView};
use crate::path;
use crate::path::join;
use crate::text;
use crate::text::{chars_of, ends_with, find_from, joined, lowercase, part, same, text_of, trim};
use crate::text_lemmas;

verus! {

broadcast use vstd::string::group_string_axioms;

/// A program to run, with its arguments.
#[derive(Debug, PartialEq, Eq)]
pub struct Command {
    pub program: String,
    pub args: Vec<String>,
}

/// A program to run.
pub struct CommandView {
    pub program: Seq<char>,
    pub args: Seq<Seq<char>>,
}

impl View for Command {
    type V = CommandView;

    open spec fn view(&self) -> CommandView {
        CommandView { program: self.program@, args: text::views(self.args@) }
    }
}

/// What an archive is unpacked with.
#[derive(Debug, Clone, Copy, PartialEq, Eq, Structural)]
pub enum ArchiveKind {
    Zip,
    Tarball,
}

/// What kind of archive a URL's path names, by how it ends, in whatever case.
pub open spec fn kind_of(url_path: Seq<char>) -> Option<ArchiveKind> {
    let lower = text::lowercased(url_path);
    if text::finishes(lower, ".zip"@) {
        Some(ArchiveKind::Zip)
    } else if text::finishes(lower, ".tar.gz"@) || text::finishes(lower, ".tgz"@) {
        Some(ArchiveKind::Tarball)
    } else {
        None
    }
}

/// What unpacks `archive` into `into`. Zips go through `ditto`, which preserves the
/// extended attributes and code signatures inside a `.app`: a bundle extracted without
/// them is one Gatekeeper refuses to launch.
pub open spec fn command_for(kind: ArchiveKind, archive: Seq<char>, into: Seq<char>) -> CommandView {
    match kind {
        ArchiveKind::Zip => CommandView {
            program: "/usr/bin/ditto"@,
            args: seq!["-x"@, "-k"@, archive, into],
        },
        ArchiveKind::Tarball => CommandView {
            program: "tar"@,
            args: seq!["-C"@, into, "-xf"@, archive],
        },
    }
}

/// The part of a URL before its query.
pub open spec fn before_query(url: Seq<char>) -> Seq<char> {
    url.take(text::before_first(url, '?') as int)
}

/// The part of a URL before its query.
pub fn url_path(url: &str) -> (out: String)
    ensures
        out@ == before_query(url@),
{
    let s: Vec<char> = chars_of(url);
    assert(s@.skip(0) =~= s@);
    let end: usize = find_from(&s, '?', 0);
    assert(s@.subrange(0, end as int) =~= s@.take(end as int));
    text_of(&part(&s, 0, end))
}

/// What kind of archive a URL's path names.
pub fn archive_kind(url_path: &str) -> (r: Option<ArchiveKind>)
    ensures
        r == kind_of(url_path@),
{
    let lower: Vec<char> = lowercase(&chars_of(url_path));
    if ends_with(&lower, &chars_of(".zip")) {
        Some(ArchiveKind::Zip)
    } else if ends_with(&lower, &chars_of(".tar.gz")) || ends_with(&lower, &chars_of(".tgz")) {
        Some(ArchiveKind::Tarball)
    } else {
        None
    }
}

/// How to extract `archive` into `into`. What it is goes by `url_path`, not by the
/// archive's own filename, because the downloaded file is a temporary name with no
/// extension.
pub fn extract(archive: &str, url_path: &str, into: &str) -> (r: Result<
    (ArchiveKind, Command),
    CoreError,
>)
    ensures
        match kind_of(url_path@) {
            None => r is Err && r->Err_0@ == CoreErrorView::UnknownArchiveFormat,
            Some(kind) => r is Ok && r->Ok_0.0 == kind && r->Ok_0.1@ == command_for(
                kind,
                archive@,
                into@,
            ),
        },
{
    let mut args: Vec<String> = Vec::new();
    match archive_kind(url_path) {
        Some(ArchiveKind::Zip) => {
            args.push("-x".to_owned());
            args.push("-k".to_owned());
            args.push(archive.to_owned());
            args.push(into.to_owned());
            assert(text::views(args@) =~= seq!["-x"@, "-k"@, archive@, into@]);
            Ok((ArchiveKind::Zip, Command { program: "/usr/bin/ditto".to_owned(), args }))
        },
        Some(ArchiveKind::Tarball) => {
            args.push("-C".to_owned());
            args.push(into.to_owned());
            args.push("-xf".to_owned());
            args.push(archive.to_owned());
            assert(text::views(args@) =~= seq!["-C"@, into@, "-xf"@, archive@]);
            Ok((ArchiveKind::Tarball, Command { program: "tar".to_owned(), args }))
        },
        None => Err(CoreError::UnknownArchiveFormat),
    }
}

/// How running a program came out.
#[derive(Debug)]
pub enum Ran {
    /// It could not be started.
    NotStarted(String),
    /// It ended: whether well, how its status is said, and what it complained of.
    Ended { success: bool, status: String, stderr: String },
}

/// What running `program` comes to.
pub open spec fn ran(program: Seq<char>, outcome: Ran) -> Result<(), CoreErrorView> {
    match outcome {
        Ran::NotStarted(m) => Err(
            CoreErrorView::ExtractionFailed("could not run "@ + program + ": "@ + m@),
        ),
        Ran::Ended { success, status, stderr } => if success {
            Ok(())
        } else {
            Err(
                CoreErrorView::ExtractionFailed(
                    program + " exited with "@ + status@ + ": "@ + text::trimmed(stderr@),
                ),
            )
        },
    }
}

/// What running a program comes to.
pub fn run(program: &str, outcome: Ran) -> (r: Result<(), CoreError>)
    ensures
        error::core_outcome(r) == ran(program@, outcome),
{
    match outcome {
        Ran::NotStarted(m) => {
            let a: String = joined("could not run ", program);
            let b: String = joined(a.as_str(), ": ");
            Err(CoreError::ExtractionFailed(joined(b.as_str(), m.as_str())))
        },
        Ran::Ended { success, status, stderr } => if success {
            Ok(())
        } else {
            let a: String = joined(program, " exited with ");
            let b: String = joined(a.as_str(), status.as_str());
            let c: String = joined(b.as_str(), ": ");
            let said: String = text_of(&trim(&chars_of(stderr.as_str())));
            Err(CoreError::ExtractionFailed(joined(c.as_str(), said.as_str())))
        },
    }
}

/// An entry of an unpacked archive.
#[derive(Debug, PartialEq, Eq)]
pub struct Unpacked {
    pub name: String,
    pub is_dir: bool,
}

/// The directory whose contents belong one level up: a tarball that holds exactly one
/// directory is flattened, so the game sits directly in the destination, matching what
/// the zips do.
pub fn flatten_single_directory(entries: &Vec<Unpacked>) -> (r: Option<&String>)
    ensures
        r is Some <==> entries@.len() == 1 && entries@[0].is_dir,
        r matches Some(name) ==> name@ == entries@[0].name@,
{
    if entries.len() == 1 && entries[0].is_dir {
        Some(&entries[0].name)
    } else {
        None
    }
}

/// Something to move.
#[derive(Debug, PartialEq, Eq)]
pub struct Move {
    pub from: String,
    pub to: String,
}

/// Something to move.
pub struct MoveView {
    pub from: Seq<char>,
    pub to: Seq<char>,
}

impl View for Move {
    type V = MoveView;

    open spec fn view(&self) -> MoveView {
        MoveView { from: self.from@, to: self.to@ }
    }
}

/// What each move is.
pub open spec fn moves_of(v: Seq<Move>) -> Seq<MoveView> {
    Seq::new(v.len(), |i: int| v[i]@)
}

/// How a directory is flattened: the moves, one after the other, and the directory that
/// they leave empty and that is removed last.
#[derive(Debug, PartialEq, Eq)]
pub struct Flattening {
    pub moves: Vec<Move>,
    pub emptied: String,
}

/// How many names are at least `n` characters long.
pub open spec fn longer(names: Seq<Seq<char>>, n: nat) -> nat
    decreases names.len(),
{
    if names.len() == 0 {
        0
    } else {
        longer(names.drop_last(), n) + if names.last().len() >= n {
            1nat
        } else {
            0nat
        }
    }
}

proof fn longer_is_monotone(names: Seq<Seq<char>>, n: nat)
    ensures
        longer(names, n + 1) <= longer(names, n),
    decreases names.len(),
{
    if names.len() > 0 {
        longer_is_monotone(names.drop_last(), n);
    }
}

/// Fewer names are longer than one of them than are as long as it.
pub proof fn longer_decreases(names: Seq<Seq<char>>, name: Seq<char>)
    requires
        names.contains(name),
    ensures
        longer(names, name.len() + 1) < longer(names, name.len()),
    decreases names.len(),
{
    let init = names.drop_last();
    if names.last() == name {
        longer_is_monotone(init, name.len());
    } else {
        let i = names.index_of(name);
        assert(init[i] == name);
        longer_decreases(init, name);
    }
}

/// A name that none of `names` is: `name` itself where that will do, and otherwise with
/// as many tildes behind it as it takes.
pub open spec fn free_name(name: Seq<char>, names: Seq<Seq<char>>) -> Seq<char>
    decreases longer(names, name.len()),
{
    if names.contains(name) {
        proof {
            longer_decreases(names, name);
        }
        free_name(name.push('~'), names)
    } else {
        name
    }
}

proof fn free_names_are_free(name: Seq<char>, names: Seq<Seq<char>>)
    ensures
        !names.contains(free_name(name, names)),
        free_name(name, names).len() >= name.len(),
        names.contains(name) ==> free_name(name, names).len() > name.len(),
    decreases longer(names, name.len()),
{
    if names.contains(name) {
        longer_decreases(names, name);
        free_names_are_free(name.push('~'), names);
    }
}

/// A move within the directory that is flattened, by the names in it.
pub enum Shift {
    /// A directory gets another name.
    Aside { from: Seq<char>, to: Seq<char> },
    /// An entry of a directory goes one level up.
    Up { holder: Seq<char>, name: Seq<char> },
}

/// The moves that flatten the directory `wrapper`, which holds `names`. Where one of
/// those is its own name, it first makes way.
pub open spec fn shifts(wrapper: Seq<char>, names: Seq<Seq<char>>) -> Seq<Shift> {
    let holder = free_name(wrapper, names);
    let aside = if holder == wrapper {
        seq![]
    } else {
        seq![Shift::Aside { from: wrapper, to: holder }]
    };
    aside + Seq::new(names.len(), |i: int| Shift::Up { holder, name: names[i] })
}

/// A move as paths below `into`.
pub open spec fn as_paths(into: Seq<char>, shift: Shift) -> MoveView {
    match shift {
        Shift::Aside { from, to } => MoveView {
            from: path::under(into, from),
            to: path::under(into, to),
        },
        Shift::Up { holder, name } => MoveView {
            from: path::under(path::under(into, holder), name),
            to: path::under(into, name),
        },
    }
}

/// What stands under a name: something that is moved as a whole, or a directory out of
/// which entries are moved.
pub enum Item<T> {
    Whole(T),
    Holding(Map<Seq<char>, T>),
}

/// What a directory holds after a move. A move of what is not there, or to a name that
/// is taken, is none.
pub open spec fn shifted<T>(folder: Map<Seq<char>, Item<T>>, shift: Shift) -> Option<
    Map<Seq<char>, Item<T>>,
> {
    match shift {
        Shift::Aside { from, to } => if folder.dom().contains(from) && !folder.dom().contains(to) {
            Some(folder.remove(from).insert(to, folder[from]))
        } else {
            None
        },
        Shift::Up { holder, name } => if folder.dom().contains(holder)
            && !folder.dom().contains(name) {
            match folder[holder] {
                Item::Holding(inside) => if inside.dom().contains(name) {
                    Some(
                        folder.insert(holder, Item::Holding(inside.remove(name))).insert(
                            name,
                            Item::Whole(inside[name]),
                        ),
                    )
                } else {
                    None
                },
                Item::Whole(_) => None,
            }
        } else {
            None
        },
    }
}

/// What a directory holds after moves, one after the other.
pub open spec fn all_shifted<T>(
    folder: Map<Seq<char>, Item<T>>,
    moves: Seq<Shift>,
) -> Option<Map<Seq<char>, Item<T>>>
    decreases moves.len(),
{
    if moves.len() == 0 {
        Some(folder)
    } else {
        match all_shifted(folder, moves.drop_last()) {
            Some(before) => shifted(before, moves.last()),
            None => None,
        }
    }
}

/// What a directory holds once an empty directory in it is removed. One that is not
/// empty is not removed.
pub open spec fn cleared<T>(folder: Map<Seq<char>, Item<T>>, name: Seq<char>) -> Option<
    Map<Seq<char>, Item<T>>,
> {
    if folder.dom().contains(name) && folder[name] == Item::Holding(Map::<Seq<char>, T>::empty()) {
        Some(folder.remove(name))
    } else {
        None
    }
}

/// What a directory holds that was flattened: `moves`, and then the removal of what they
/// emptied.
pub open spec fn flattened<T>(
    folder: Map<Seq<char>, Item<T>>,
    moves: Seq<Shift>,
    emptied: Seq<char>,
) -> Option<Map<Seq<char>, Item<T>>> {
    match all_shifted(folder, moves) {
        Some(after) => cleared(after, emptied),
        None => None,
    }
}

/// Flattening a lone directory succeeds whatever the names in it are: every entry of it
/// ends directly in the destination, under its own name and as it was, and nothing else
/// is there.
pub proof fn flattening_lifts_everything<T>(
    wrapper: Seq<char>,
    names: Seq<Seq<char>>,
    inside: Map<Seq<char>, T>,
)
    requires
        names.no_duplicates(),
        forall|n: Seq<char>| #[trigger] names.contains(n) <==> inside.dom().contains(n),
    ensures
        flattened(
            Map::<Seq<char>, Item<T>>::empty().insert(wrapper, Item::Holding(inside)),
            shifts(wrapper, names),
            free_name(wrapper, names),
        ) == Some(inside.map_values(|t: T| Item::Whole(t))),
{
    let start = Map::<Seq<char>, Item<T>>::empty().insert(wrapper, Item::Holding(inside));
    let holder = free_name(wrapper, names);
    let all = shifts(wrapper, names);
    let first: int = all.len() - names.len();
    free_names_are_free(wrapper, names);
    let ready = Map::<Seq<char>, Item<T>>::empty().insert(holder, Item::Holding(inside));
    if holder == wrapper {
        assert(all.take(first) =~= seq![]);
    } else {
        let aside = Shift::Aside { from: wrapper, to: holder };
        assert(all.take(first) =~= seq![aside]);
        assert(seq![aside].drop_last() =~= seq![]);
        assert(all_shifted(start, seq![aside].drop_last()) == Some(start));
        assert(start.remove(wrapper).insert(holder, start[wrapper]) =~= ready);
    }
    assert(all_shifted(start, all.take(first)) == Some(ready));
    lifting(wrapper, names, inside, names.len() as int);
    assert(all.take(all.len() as int) =~= all);
    let left = inside.remove_keys(names.to_set());
    assert(names.take(names.len() as int) =~= names);
    assert(left =~= Map::empty());
    let after = partly(holder, names, inside, names.len() as int);
    assert(all_shifted(start, all) == Some(after));
    assert(after.remove(holder) =~= inside.map_values(|t: T| Item::Whole(t)));
}

/// What stands there when the first `k` entries have been moved.
spec fn partly<T>(
    holder: Seq<char>,
    names: Seq<Seq<char>>,
    inside: Map<Seq<char>, T>,
    k: int,
) -> Map<Seq<char>, Item<T>> {
    let gone = names.take(k).to_set();
    inside.restrict(gone).map_values(|t: T| Item::Whole(t)).insert(
        holder,
        Item::Holding(inside.remove_keys(gone)),
    )
}

proof fn lifting<T>(
    wrapper: Seq<char>,
    names: Seq<Seq<char>>,
    inside: Map<Seq<char>, T>,
    k: int,
)
    requires
        names.no_duplicates(),
        0 <= k <= names.len(),
        forall|n: Seq<char>| #[trigger] names.contains(n) <==> inside.dom().contains(n),
        ({
            let all = shifts(wrapper, names);
            all_shifted(
                Map::<Seq<char>, Item<T>>::empty().insert(wrapper, Item::Holding(inside)),
                all.take(all.len() - names.len()),
            ) == Some(
                Map::<Seq<char>, Item<T>>::empty().insert(
                    free_name(wrapper, names),
                    Item::Holding(inside),
                ),
            )
        }),
    ensures
        ({
            let all = shifts(wrapper, names);
            all_shifted(
                Map::<Seq<char>, Item<T>>::empty().insert(wrapper, Item::Holding(inside)),
                all.take(all.len() - names.len() + k),
            ) == Some(partly(free_name(wrapper, names), names, inside, k))
        }),
    decreases k,
{
    let start = Map::<Seq<char>, Item<T>>::empty().insert(wrapper, Item::Holding(inside));
    let holder = free_name(wrapper, names);
    let all = shifts(wrapper, names);
    let first: int = all.len() - names.len();
    free_names_are_free(wrapper, names);
    if k == 0 {
        assert(names.take(0).to_set() =~= Set::empty());
        assert(inside.remove_keys(names.take(0).to_set()) =~= inside);
        assert(partly(holder, names, inside, 0) =~= Map::<Seq<char>, Item<T>>::empty().insert(
            holder,
            Item::Holding(inside),
        ));
    } else {
        lifting(wrapper, names, inside, k - 1);
        let moves = all.take(first + k);
        let name = names[k - 1];
        assert(moves.drop_last() =~= all.take(first + k - 1));
        assert(moves.last() == Shift::Up { holder, name });
        assert(names.contains(name));
        let gone = names.take(k - 1).to_set();
        let now = names.take(k).to_set();
        assert(names.take(k) =~= names.take(k - 1).push(name));
        assert(now =~= gone.insert(name)) by {
            assert forall|n: Seq<char>| now.contains(n) implies gone.insert(name).contains(n) by {
                let i = names.take(k).index_of(n);
                if i < k - 1 {
                    assert(names.take(k - 1)[i] == n);
                }
            }
            assert forall|n: Seq<char>| gone.insert(name).contains(n) implies now.contains(n) by {
                if n == name {
                    assert(names.take(k)[k - 1] == n);
                } else {
                    let i = names.take(k - 1).index_of(n);
                    assert(names.take(k)[i] == n);
                }
            }
        }
        if gone.contains(name) {
            let i = names.take(k - 1).index_of(name);
            assert(names[i] == names[k - 1]);
        }
        let before = partly(holder, names, inside, k - 1);
        let rest = inside.remove_keys(gone);
        assert(before[holder] == Item::Holding(rest));
        assert(rest.remove(name) =~= inside.remove_keys(now));
        assert(before.insert(holder, Item::Holding(rest.remove(name))).insert(
            name,
            Item::Whole(rest[name]),
        ) =~= partly(holder, names, inside, k));
    }
}

/// Entries that are told apart by their names.
pub open spec fn named(names: Seq<Seq<char>>) -> Map<Seq<char>, Seq<char>> {
    Map::new(|n: Seq<char>| names.contains(n), |n: Seq<char>| n)
}

fn is_among(name: &str, names: &Vec<String>) -> (r: bool)
    ensures
        r == text::views(names@).contains(name@),
{
    let ghost all = text::views(names@);
    let mut i: usize = 0;
    while i < names.len()
        invariant
            i <= names.len(),
            all == text::views(names@),
            forall|j: int| 0 <= j < i ==> #[trigger] all[j] != name@,
        decreases names.len() - i,
    {
        if same(names[i].as_str(), name) {
            assert(all[i as int] == name@);
            return true;
        }
        i += 1;
    }
    false
}

/// How the directory `wrapper` in `into` is flattened: where each of its entries, called
/// `names`, goes one level up, so that it ends directly in `into`. A directory that holds
/// an entry of its own name first gets another.
pub fn flattening(into: &str, wrapper: &str, names: &Vec<String>) -> (out: Flattening)
    ensures
        ({
            let all = text::views(names@);
            let moves = shifts(wrapper@, all);
            &&& moves_of(out.moves@) == Seq::new(
                moves.len(),
                |i: int| as_paths(into@, moves[i]),
            )
            &&& out.emptied@ == path::under(into@, free_name(wrapper@, all))
            &&& all.no_duplicates() ==> flattened(
                Map::<Seq<char>, Item<Seq<char>>>::empty().insert(
                    wrapper@,
                    Item::Holding(named(all)),
                ),
                moves,
                free_name(wrapper@, all),
            ) == Some(named(all).map_values(|n: Seq<char>| Item::Whole(n)))
        }),
{
    let ghost all = text::views(names@);
    let mut holder: String = wrapper.to_owned();
    while is_among(holder.as_str(), names)
        invariant
            all == text::views(names@),
            free_name(holder@, all) == free_name(wrapper@, all),
            holder@.len() >= wrapper@.len(),
            holder@.len() == wrapper@.len() ==> holder@ == wrapper@,
        decreases longer(all, holder@.len()),
    {
        proof {
            longer_decreases(all, holder@);
        }
        holder.push('~');
    }
    let ghost expected = shifts(wrapper@, all);
    let ghost first: int = expected.len() - all.len();
    let ghost as_moves = Seq::new(expected.len(), |i: int| as_paths(into@, expected[i]));
    let emptied: String = join(into, holder.as_str());
    let mut moves: Vec<Move> = Vec::new();
    if !same(holder.as_str(), wrapper) {
        moves.push(Move { from: join(into, wrapper), to: join(into, holder.as_str()) });
    }
    assert(moves_of(moves@) =~= as_moves.take(first));
    let mut i: usize = 0;
    while i < names.len()
        invariant
            i <= names.len(),
            all == text::views(names@),
            emptied@ == path::under(into@, holder@),
            holder@ == free_name(wrapper@, all),
            expected == shifts(wrapper@, all),
            first == expected.len() - all.len(),
            as_moves == Seq::new(expected.len(), |i: int| as_paths(into@, expected[i])),
            moves_of(moves@) == as_moves.take(first + i),
        decreases names.len() - i,
    {
        let ghost before = moves_of(moves@);
        let step = Move {
            from: join(emptied.as_str(), names[i].as_str()),
            to: join(into, names[i].as_str()),
        };
        let ghost view = step@;
        moves.push(step);
        proof {
            assert(expected[first + i] == Shift::Up { holder: holder@, name: all[i as int] });
            assert(moves_of(moves@) =~= before.push(view));
            assert(as_moves.take(first + i + 1) =~= as_moves.take(first + i).push(view));
        }
        i += 1;
    }
    proof {
        assert(as_moves.take(first + i) =~= as_moves);
        if all.no_duplicates() {
            flattening_lifts_everything(wrapper@, all, named(all));
        }
    }
    Flattening { moves, emptied }
}

/// The path of an address is what stands before the question mark, or all of it where
/// there is none.
pub proof fn queries_are_left_out(url: Seq<char>, query: Seq<char>)
    requires
        forall|i: int| 0 <= i < url.len() ==> #[trigger] url[i] != '?',
    ensures
        before_query(url + seq!['?'] + query) == url,
        before_query(url) == url,
{
    let whole = url + seq!['?'] + query;
    assert(!url.contains('?'));
    text_lemmas::before_first_after(url, '?', query);
    assert(whole.take(url.len() as int) =~= url);
    text_lemmas::before_first_is_first(url, '?');
    assert(url.take(url.len() as int) =~= url);
}

/// What lies in a directory goes one level up, under the name it has; a directory that has
/// to make way gets its new name where it is.
pub proof fn moves_go_up(into: Seq<char>, holder: Seq<char>, name: Seq<char>, to: Seq<char>)
    ensures
        as_paths(into, Shift::Up { holder, name }) == (MoveView {
            from: path::under(path::under(into, holder), name),
            to: path::under(into, name),
        }),
        as_paths(into, Shift::Aside { from: name, to }) == (MoveView {
            from: path::under(into, name),
            to: path::under(into, to),
        }),
{
}

/// Only a directory that has become empty is taken away, and with it nothing else.
pub proof fn only_empty_directories_go<T>(folder: Map<Seq<char>, Item<T>>, name: Seq<char>)
    ensures
        cleared(folder, name) matches Some(after) ==> folder.dom().contains(name) && folder[name]
            == Item::Holding(Map::<Seq<char>, T>::empty()) && after == folder.remove(name),
        folder.dom().contains(name) && folder[name] == Item::Holding(
            Map::<Seq<char>, T>::empty(),
        ) ==> cleared(folder, name) == Some(folder.remove(name)),
{
}

} // verus!
