//! Paths as text: parts with slashes between them.

use vstd::prelude::*;

use crate::text;
use crate::text::{chars_of, extend, text_of};
use crate::text_lemmas;

verus! {

broadcast use vstd::string::group_string_axioms;

/// `part` under `base`. A part that is absolute stands for itself.
pub open spec fn under(base: Seq<char>, part: Seq<char>) -> Seq<char> {
    if part.len() > 0 && part[0] == '/' {
        part
    } else if base.len() == 0 || base.last() == '/' {
        base + part
    } else {
        base + seq!['/'] + part
    }
}

/// `part` under `base`.
pub fn join(base: &str, part: &str) -> (out: String)
    ensures
        out@ == under(base@, part@),
{
    let p: Vec<char> = chars_of(part);
    if p.len() > 0 && p[0] == '/' {
        return text_of(&p);
    }
    let mut b: Vec<char> = chars_of(base);
    if b.len() > 0 && b[b.len() - 1] != '/' {
        b.push('/');
    }
    extend(&mut b, &p);
    text_of(&b)
}

/// Whether a name is exactly one ordinary path component.
pub open spec fn is_plain(name: Seq<char>) -> bool {
    name.len() > 0 && !name.contains('/') && name != seq!['.'] && name != seq!['.', '.']
}

/// Whether `name` is exactly one ordinary path component.
pub fn plain(name: &str) -> (r: bool)
    ensures
        r == is_plain(name@),
{
    let s: Vec<char> = chars_of(name);
    if s.len() == 0 {
        return false;
    }
    let mut i: usize = 0;
    while i < s.len()
        invariant
            i <= s.len(),
            s@ == name@,
            forall|j: int| 0 <= j < i ==> s@[j] != '/',
        decreases s.len() - i,
    {
        if s[i] == '/' {
            assert(s@.contains(s@[i as int]));
            return false;
        }
        i += 1;
    }
    assert(!s@.contains('/'));
    if s.len() == 1 && s[0] == '.' {
        assert(s@ =~= seq!['.']);
        return false;
    }
    if s.len() == 2 && s[0] == '.' && s[1] == '.' {
        assert(s@ =~= seq!['.', '.']);
        return false;
    }
    true
}

/// A plain name put under a directory that is not the root stays directly inside it.
pub proof fn plain_names_stay_inside(base: Seq<char>, name: Seq<char>)
    requires
        is_plain(name),
        base.len() > 0,
        base.last() != '/',
    ensures
        under(base, name) == base + seq!['/'] + name,
{
    if name[0] == '/' {
        assert(name.contains(name[0]));
    }
}

/// The parts of a path between its slashes. Empty parts do not count, and neither does
/// a dot, unless the path begins with it.
pub open spec fn parts(s: Seq<char>, first: bool) -> Seq<Seq<char>>
    decreases s.len(),
{
    if s.len() == 0 {
        seq![]
    } else {
        let i = text::before_first(s, '/') as int;
        let head = s.take(i);
        let rest = if i < s.len() {
            parts(s.skip(i + 1), false)
        } else {
            seq![]
        };
        if head.len() == 0 || (head == seq!['.'] && !first) {
            rest
        } else {
            seq![head] + rest
        }
    }
}

/// The components of a path, the root among them.
pub open spec fn components(s: Seq<char>) -> Seq<Seq<char>> {
    if s.len() > 0 && s[0] == '/' {
        seq![seq!['/']] + parts(s, false)
    } else {
        parts(s, true)
    }
}

/// Takes a path apart.
pub fn split(path: &str) -> (out: Vec<Vec<char>>)
    ensures
        text::rows(out@) == components(path@),
{
    let s: Vec<char> = chars_of(path);
    let mut out: Vec<Vec<char>> = Vec::new();
    let mut first: bool = true;
    if s.len() > 0 && s[0] == '/' {
        out.push(vec!['/']);
        first = false;
    }
    let ghost root = text::rows(out@);
    let ghost relative = first;
    proof {
        if !relative {
            assert(out@[0]@ =~= seq!['/']);
            assert(root =~= seq![seq!['/']]);
        } else {
            assert(root =~= seq![]);
        }
        assert(s@.skip(0) =~= s@);
        assert(root + parts(s@, relative) =~= components(s@));
    }
    let mut at: usize = 0;
    while at < s.len()
        invariant
            at <= s.len(),
            text::rows(out@) + parts(s@.skip(at as int), first) == root + parts(s@, relative),
            at == 0 ==> first == relative,
            at > 0 ==> !first,
        decreases s.len() - at,
    {
        let ghost rest = s@.skip(at as int);
        let ghost before = text::rows(out@);
        let end: usize = text::find_from(&s, '/', at);
        let head: Vec<char> = text::part(&s, at, end);
        let ghost more = if end < s@.len() {
            parts(s@.skip(end + 1), false)
        } else {
            seq![]
        };
        proof {
            assert(head@ =~= rest.take(end - at));
            if end < s@.len() {
                assert(rest.skip(end - at + 1) =~= s@.skip(end + 1));
            }
        }
        let dot: bool = head.len() == 1 && head[0] == '.';
        assert(dot == (head@ == seq!['.'])) by {
            if dot {
                assert(head@ =~= seq!['.']);
            }
        }
        if head.len() > 0 && !(dot && !first) {
            out.push(head);
            proof {
                assert(text::rows(out@) =~= before.push(head@));
                assert(before.push(head@) + more =~= before + (seq![head@] + more));
            }
        }
        first = false;
        if end < s.len() {
            at = end + 1;
        } else {
            at = s.len();
            assert(s@.skip(at as int).len() == 0);
        }
    }
    assert(s@.skip(at as int).len() == 0);
    assert(text::rows(out@) + parts(s@.skip(at as int), first) =~= text::rows(out@));
    out
}

/// What is named by its whole path stays where it is; what is not is named below the
/// directory, with one slash between.
pub proof fn names_go_below(base: Seq<char>, part: Seq<char>)
    ensures
        part.len() > 0 && part[0] == '/' ==> under(base, part) == part,
        (part.len() == 0 || part[0] != '/') && base.len() > 0 && base.last() != '/' ==> under(
            base,
            part,
        ) == base + seq!['/'] + part,
        (part.len() == 0 || part[0] != '/') && base.len() > 0 && base.last() == '/' ==> under(
            base,
            part,
        ) == base + part,
        part.len() == 0 || part[0] != '/' ==> under(seq![], part) == part,
{
    assert(Seq::<char>::empty() + part =~= part);
}

/// A plain name is one that names an entry of a directory: not nothing, not the directory
/// itself or the one above it, and without a slash.
pub proof fn plain_names(name: Seq<char>, a: Seq<char>, b: Seq<char>)
    ensures
        !is_plain(seq![]),
        !is_plain(seq!['.']),
        !is_plain(seq!['.', '.']),
        !is_plain(a + seq!['/'] + b),
        name.len() > 2 && (forall|i: int| 0 <= i < name.len() ==> #[trigger] name[i] != '/')
            ==> is_plain(name),
        name.len() > 0 && name[0] != '.' && (forall|i: int|
            0 <= i < name.len() ==> #[trigger] name[i] != '/') ==> is_plain(name),
{
    let joined = a + seq!['/'] + b;
    assert(joined[a.len() as int] == '/');
}

/// The names along a path are those of the path before its last slash, and what stands
/// behind it.
pub proof fn paths_are_taken_apart(base: Seq<char>, name: Seq<char>)
    requires
        is_plain(name),
        base.len() > 0,
    ensures
        components(base + seq!['/'] + name) == components(base).push(name),
        components(name) == seq![name],
{
    let whole = base + seq!['/'] + name;
    assert(whole[0] == base[0]);
    one_part(name, true);
    if base[0] == '/' {
        parts_and_a_name(base, name, false);
        assert(seq![seq!['/']] + parts(base, false).push(name) =~= (seq![seq!['/']] + parts(
            base,
            false,
        )).push(name));
    } else {
        parts_and_a_name(base, name, true);
    }
}

proof fn one_part(name: Seq<char>, first: bool)
    requires
        is_plain(name),
    ensures
        parts(name, first) == seq![name],
{
    text_lemmas::before_first_is_first(name, '/');
    assert(name.take(name.len() as int) =~= name);
    assert(seq![name] + Seq::<Seq<char>>::empty() =~= seq![name]);
}

proof fn parts_and_a_name(s: Seq<char>, name: Seq<char>, first: bool)
    requires
        is_plain(name),
    ensures
        parts(s + seq!['/'] + name, first) == parts(s, first).push(name),
    decreases s.len(),
{
    let whole = s + seq!['/'] + name;
    let i = text::before_first(s, '/') as int;
    text_lemmas::before_first_is_first(s, '/');
    one_part(name, false);
    if i < s.len() {
        let head = s.take(i);
        let tail = s.skip(i + 1);
        let rest = tail + seq!['/'] + name;
        assert(whole =~= head + seq!['/'] + rest);
        text_lemmas::before_first_after(head, '/', rest);
        assert(whole.take(i) =~= head);
        assert(whole.skip(i + 1) =~= rest);
        parts_and_a_name(tail, name, false);
        assert(seq![head] + parts(tail, false).push(name) =~= (seq![head] + parts(tail, false)).push(
            name,
        ));
    } else {
        text_lemmas::before_first_after(s, '/', name);
        assert(whole.take(s.len() as int) =~= s);
        assert(whole.skip(s.len() as int + 1) =~= name);
        assert(s.take(s.len() as int) =~= s);
        if s.len() > 0 {
            let rest: Seq<Seq<char>> = seq![];
            assert(seq![s] + seq![name] =~= (seq![s] + rest).push(name));
            assert(seq![name] =~= rest.push(name));
        } else {
            assert(seq![name] =~= Seq::<Seq<char>>::empty().push(name));
        }
    }
}

/// Slashes at the end and doubled ones, and dots that name the directory itself, do not
/// count; but a dot a path begins with does.
pub proof fn empty_parts_do_not_count(base: Seq<char>)
    requires
        base.len() > 0,
    ensures
        components(base + seq!['/']) == components(base),
        components(base + seq!['/', '.']) == components(base),
        components(base + seq!['/', '/']) == components(base),
        components(seq!['.']) == seq![seq!['.']],
        components(seq![]).len() == 0,
        components(seq!['/']) == seq![seq!['/']],
{
    let none: Seq<char> = seq![];
    let dot = seq!['.'];
    let first = base[0] != '/';
    text_lemmas::before_first_is_first(dot, '/');
    assert(!dot.contains('/'));
    assert(dot.take(1) =~= dot);
    assert(parts(none, false) =~= seq![]);
    assert(parts(dot, false) =~= seq![]);
    parts_and_nothing(base, none, first);
    parts_and_nothing(base, dot, first);
    assert(base + seq!['/'] + none =~= base + seq!['/']);
    assert(base + seq!['/'] + dot =~= base + seq!['/', '.']);
    let once = base + seq!['/'];
    parts_and_nothing(once, none, first);
    assert(once + seq!['/'] + none =~= base + seq!['/', '/']);
    assert((base + seq!['/'])[0] == base[0]);
    assert((base + seq!['/', '.'])[0] == base[0]);
    assert((base + seq!['/', '/'])[0] == base[0]);
    assert(seq![dot] + Seq::<Seq<char>>::empty() =~= seq![dot]);
    let slash = seq!['/'];
    parts_and_nothing(none, none, false);
    assert(none + slash + none =~= slash);
    assert(seq![slash] + Seq::<Seq<char>>::empty() =~= seq![slash]);
}

proof fn parts_and_nothing(s: Seq<char>, end: Seq<char>, first: bool)
    requires
        parts(end, false).len() == 0,
    ensures
        parts(s + seq!['/'] + end, first) == parts(s, first),
    decreases s.len(),
{
    let whole = s + seq!['/'] + end;
    let i = text::before_first(s, '/') as int;
    text_lemmas::before_first_is_first(s, '/');
    assert(parts(end, false) =~= seq![]);
    if i < s.len() {
        let head = s.take(i);
        let tail = s.skip(i + 1);
        let rest = tail + seq!['/'] + end;
        assert(whole =~= head + seq!['/'] + rest);
        text_lemmas::before_first_after(head, '/', rest);
        assert(whole.take(i) =~= head);
        assert(whole.skip(i + 1) =~= rest);
        parts_and_nothing(tail, end, false);
    } else {
        text_lemmas::before_first_after(s, '/', end);
        assert(whole.take(s.len() as int) =~= s);
        assert(whole.skip(s.len() as int + 1) =~= end);
        assert(s.take(s.len() as int) =~= s);
    }
}

} // verus!
