//! How much a directory takes up, counted one directory at a time.

use vstd::prelude::*;

verus! {

broadcast use vstd::string::group_string_axioms;

/// What is found in a directory. A link is told apart from what it leads to.
#[derive(Debug, PartialEq, Eq)]
pub enum Found {
    Link,
    /// A directory, by its path.
    Dir(String),
    File { bytes: u64 },
    /// Something of which it could not be told what it is, or how large.
    Unknown,
}

/// What is found in a directory.
pub enum FoundView {
    Link,
    Dir(Seq<char>),
    File { bytes: nat },
    Unknown,
}

impl View for Found {
    type V = FoundView;

    open spec fn view(&self) -> FoundView {
        match *self {
            Found::Link => FoundView::Link,
            Found::Dir(path) => FoundView::Dir(path@),
            Found::File { bytes } => FoundView::File { bytes: bytes as nat },
            Found::Unknown => FoundView::Unknown,
        }
    }
}

/// What was found.
pub open spec fn finds(v: Seq<Found>) -> Seq<FoundView> {
    Seq::new(v.len(), |i: int| v[i]@)
}

/// The directories among what was found.
pub open spec fn dirs_in(s: Seq<FoundView>) -> Seq<Seq<char>>
    decreases s.len(),
{
    if s.len() == 0 {
        seq![]
    } else {
        match s.last() {
            FoundView::Dir(path) => dirs_in(s.drop_last()).push(path),
            _ => dirs_in(s.drop_last()),
        }
    }
}

/// How much the files among what was found take up.
pub open spec fn bytes_in(s: Seq<FoundView>) -> nat
    decreases s.len(),
{
    if s.len() == 0 {
        0
    } else {
        bytes_in(s.drop_last()) + match s.last() {
            FoundView::File { bytes } => bytes,
            _ => 0,
        }
    }
}

/// As much of an amount as can be counted.
pub open spec fn counted(n: nat) -> u64 {
    if n > u64::MAX {
        u64::MAX
    } else {
        n as u64
    }
}

/// A count of what a directory takes up, under way. No link is followed: bundles
/// routinely contain links within themselves, so following them would count bytes twice,
/// and a link that points upward would keep the count from ever ending.
#[derive(Debug)]
pub struct SizeWalk {
    waiting: Vec<String>,
    total: u64,
}

impl SizeWalk {
    /// The directories that have not been looked into yet.
    pub closed spec fn left(&self) -> Seq<Seq<char>> {
        crate::text::views(self.waiting@)
    }

    /// How much has been counted so far.
    pub closed spec fn so_far(&self) -> u64 {
        self.total
    }

    /// A count of what `path` takes up, with nothing looked into yet.
    pub fn begin(path: &str) -> (w: SizeWalk)
        ensures
            w.left() == seq![path@],
            w.so_far() == 0,
    {
        let mut waiting: Vec<String> = Vec::new();
        waiting.push(path.to_owned());
        assert(crate::text::views(waiting@) =~= seq![path@]);
        SizeWalk { waiting, total: 0 }
    }

    /// The next directory to look into.
    pub fn next_dir(&mut self) -> (r: Option<String>)
        ensures
            r is Some <==> old(self).left().len() > 0,
            r matches Some(path) ==> path@ == old(self).left().last() && final(self).left()
                == old(self).left().drop_last(),
            r is None ==> final(self).left() == old(self).left(),
            final(self).so_far() == old(self).so_far(),
    {
        let ghost before = self.left();
        let r: Option<String> = self.waiting.pop();
        assert(r is Some ==> self.left() =~= before.drop_last());
        r
    }

    /// Counts what was found in a directory. One that could not be read holds nothing.
    pub fn saw(&mut self, found: &Vec<Found>)
        ensures
            final(self).left() == old(self).left() + dirs_in(finds(found@)),
            final(self).so_far() == counted(old(self).so_far() as nat + bytes_in(finds(found@))),
    {
        let ghost all = finds(found@);
        let ghost before = self.left();
        let ghost start = self.total as nat;
        let mut i: usize = 0;
        assert(all.take(0) =~= seq![]);
        assert(before + dirs_in(all.take(0)) =~= before);
        while i < found.len()
            invariant
                i <= found@.len(),
                all == finds(found@),
                self.left() == before + dirs_in(all.take(i as int)),
                self.total == counted(start + bytes_in(all.take(i as int))),
            decreases found@.len() - i,
        {
            let ghost front = all.take(i as int + 1);
            assert(front.drop_last() =~= all.take(i as int));
            assert(front.last() == found@[i as int]@);
            let ghost then = self.left();
            match &found[i] {
                Found::Dir(path) => {
                    self.waiting.push(path.clone());
                    assert(self.left() =~= then.push(path@));
                    assert(self.left() =~= before + dirs_in(front));
                },
                Found::File { bytes } => {
                    self.total = if u64::MAX - self.total < *bytes {
                        u64::MAX
                    } else {
                        self.total + *bytes
                    };
                },
                _ => {},
            }
            i += 1;
        }
        assert(all.take(i as int) =~= all);
    }

    /// How much has been counted.
    pub fn total(&self) -> (n: u64)
        ensures
            n == self.so_far(),
    {
        self.total
    }
}

// ---------------------------------------------------------------------------
// What follows
// ---------------------------------------------------------------------------

/// A directory's contents, as they really are.
pub enum Tree {
    Link,
    Dir { path: Seq<char>, inside: Seq<Tree> },
    File { bytes: nat },
    Unknown,
}

/// How much the files of a tree take up, each counted once and nothing for a link.
pub open spec fn size_of(tree: Tree) -> nat
    decreases tree, 0nat,
{
    match tree {
        Tree::Dir { inside, .. } => sizes_of(inside),
        Tree::File { bytes } => bytes,
        _ => 0,
    }
}

/// How much the files of some trees take up.
pub open spec fn sizes_of(trees: Seq<Tree>) -> nat
    decreases trees, trees.len(),
{
    if trees.len() == 0 {
        0
    } else {
        sizes_of(trees.drop_last()) + size_of(trees.last())
    }
}

/// What is seen of a tree from the directory it is in.
pub open spec fn seen(tree: Tree) -> FoundView {
    match tree {
        Tree::Link => FoundView::Link,
        Tree::Dir { path, .. } => FoundView::Dir(path),
        Tree::File { bytes } => FoundView::File { bytes },
        Tree::Unknown => FoundView::Unknown,
    }
}

/// The directories among some trees.
pub open spec fn subdirs(trees: Seq<Tree>) -> Seq<Tree>
    decreases trees.len(),
{
    if trees.len() == 0 {
        seq![]
    } else if trees.last() is Dir {
        subdirs(trees.drop_last()).push(trees.last())
    } else {
        subdirs(trees.drop_last())
    }
}

/// Looking into a directory neither loses nor doubles anything: what its files take up
/// is counted, and what is in its directories is what they are left to be looked into
/// for.
pub proof fn looking_in_keeps_the_sum(trees: Seq<Tree>)
    ensures
        bytes_in(trees.map_values(|t: Tree| seen(t))) + sizes_of(subdirs(trees)) == sizes_of(
            trees,
        ),
        dirs_in(trees.map_values(|t: Tree| seen(t))) == subdirs(trees).map_values(
            |t: Tree| t->path,
        ),
    decreases trees.len(),
{
    reveal_with_fuel(sizes_of, 2);
    reveal_with_fuel(size_of, 2);
    let all = trees.map_values(|t: Tree| seen(t));
    if trees.len() > 0 {
        let init = trees.drop_last();
        looking_in_keeps_the_sum(init);
        assert(all.drop_last() =~= init.map_values(|t: Tree| seen(t)));
        assert(all.last() == seen(trees.last()));
        if trees.last() is Dir {
            assert(subdirs(trees).drop_last() =~= subdirs(init));
            assert(subdirs(trees).map_values(|t: Tree| t->path) =~= subdirs(init).map_values(
                |t: Tree| t->path,
            ).push(trees.last()->path));
        }
    } else {
        assert(all =~= seq![]);
        assert(subdirs(trees).map_values(|t: Tree| t->path) =~= seq![]);
    }
}

proof fn sizes_add_up(a: Seq<Tree>, b: Seq<Tree>)
    ensures
        sizes_of(a + b) == sizes_of(a) + sizes_of(b),
    decreases b.len(),
{
    reveal_with_fuel(sizes_of, 2);
    if b.len() == 0 {
        assert(a + b =~= a);
    } else {
        assert((a + b).drop_last() =~= a + b.drop_last());
        sizes_add_up(a, b.drop_last());
    }
}

/// Whatever order directories are looked into, what has been counted and what is left to
/// be looked into come to the same: so once nothing is left, what has been counted is
/// what the directory takes up.
pub proof fn every_file_is_counted_once(waiting: Seq<Tree>, total: nat)
    requires
        waiting.len() > 0,
        waiting.last() is Dir,
    ensures
        ({
            let inside = waiting.last()->inside;
            let left = waiting.drop_last() + subdirs(inside);
            let counted = total + bytes_in(inside.map_values(|t: Tree| seen(t)));
            counted + sizes_of(left) == total + sizes_of(waiting)
        }),
{
    reveal_with_fuel(sizes_of, 2);
    reveal_with_fuel(size_of, 2);
    let inside = waiting.last()->inside;
    looking_in_keeps_the_sum(inside);
    sizes_add_up(waiting.drop_last(), subdirs(inside));
    assert(size_of(waiting.last()) == sizes_of(inside));
}

/// Looking at one more entry adds a file's size, or another directory to look into; links
/// and what cannot be told are left alone.
pub proof fn each_entry_counts_once(s: Seq<FoundView>, one: FoundView)
    ensures
        one matches FoundView::File { bytes } ==> bytes_in(s.push(one)) == bytes_in(s) + bytes,
        !(one is File) ==> bytes_in(s.push(one)) == bytes_in(s),
        one matches FoundView::Dir(path) ==> dirs_in(s.push(one)) == dirs_in(s).push(path),
        !(one is Dir) ==> dirs_in(s.push(one)) == dirs_in(s),
        bytes_in(seq![]) == 0,
        dirs_in(seq![]).len() == 0,
{
    assert(s.push(one).drop_last() =~= s);
}

/// A size that is too large to be held is held as the largest that is not.
pub proof fn sizes_are_counted(n: nat)
    ensures
        n <= u64::MAX ==> counted(n) == n,
        n > u64::MAX ==> counted(n) == u64::MAX,
{
}

} // verus!
