//! Putting things in order, those that come first alike staying in the order they had.

use vstd::prelude::*;

use crate::search;

verus! {

/// `x` put into a list that is in order: in front of the first that it comes before.
pub open spec fn placed<T>(s: Seq<T>, x: T, before: spec_fn(T, T) -> bool) -> Seq<T> {
    s.insert(search::first_that(|i: int| before(x, s[i]), 0, s.len() as int), x)
}

/// A list put in order, one after the other.
pub open spec fn ordered<T>(s: Seq<T>, before: spec_fn(T, T) -> bool) -> Seq<T>
    decreases s.len(),
{
    if s.len() == 0 {
        s
    } else {
        placed(ordered(s.drop_last(), before), s.last(), before)
    }
}

/// Whether nothing in a list comes before something that stands in front of it.
pub open spec fn in_order<T>(s: Seq<T>, before: spec_fn(T, T) -> bool) -> bool {
    forall|i: int, j: int| 0 <= i < j < s.len() ==> !before(#[trigger] s[j], #[trigger] s[i])
}

/// Whether `before` can order things: nothing comes before itself, and what does not
/// come before either of two others in a row does not come before the last.
pub open spec fn orders<T>(before: spec_fn(T, T) -> bool) -> bool {
    &&& forall|a: T| !#[trigger] before(a, a)
    &&& forall|a: T, b: T| #[trigger] before(a, b) ==> !before(b, a)
    &&& forall|a: T, b: T, c: T|
        #[trigger] before(a, b) && !(#[trigger] before(c, b)) ==> before(a, c)
}

/// What is put in order is in order, and is what it was.
pub proof fn ordered_is_in_order<T>(s: Seq<T>, before: spec_fn(T, T) -> bool)
    requires
        orders(before),
    ensures
        in_order(ordered(s, before), before),
        ordered(s, before).len() == s.len(),
        ordered(s, before).to_multiset() == s.to_multiset(),
    decreases s.len(),
{
    broadcast use vstd::seq_lib::group_to_multiset_ensures;

    if s.len() > 0 {
        let init = s.drop_last();
        let x = s.last();
        let a = ordered(init, before);
        ordered_is_in_order(init, before);
        let p = |i: int| before(x, a[i]);
        search::first_that_is_first(p, 0, a.len() as int);
        let at = search::first_that(p, 0, a.len() as int);
        let b = a.insert(at, x);
        assert forall|i: int, j: int| 0 <= i < j < b.len() implies !before(
            #[trigger] b[j],
            #[trigger] b[i],
        ) by {
            let ai = if i < at {
                i
            } else {
                i - 1
            };
            let aj = if j < at {
                j
            } else {
                j - 1
            };
            if i != at && j != at {
                assert(b[i] == a[ai] && b[j] == a[aj]);
                assert(!before(a[aj], a[ai]));
            } else if i == at {
                assert(p(at));
                if j - 1 > at {
                    assert(!before(a[j - 1], a[at]));
                    assert(before(x, a[j - 1]));
                }
            } else {
                assert(!p(i));
            }
        }
        assert(s =~= init.push(x));
        vstd::seq_lib::to_multiset_insert(a, at, x);
    } else {
        assert(ordered(s, before) =~= s);
    }
}

/// Whether neither of two things comes before the other.
pub open spec fn alike<T>(before: spec_fn(T, T) -> bool, a: T) -> spec_fn(T) -> bool {
    |b: T| !before(a, b) && !before(b, a)
}

/// Things of which none comes before another keep the order they had.
pub proof fn ordering_is_stable<T>(s: Seq<T>, before: spec_fn(T, T) -> bool, one: T)
    requires
        orders(before),
    ensures
        ordered(s, before).filter(alike(before, one)) == s.filter(alike(before, one)),
    decreases s.len(),
{
    let f = alike(before, one);
    if s.len() > 0 {
        let init = s.drop_last();
        let x = s.last();
        let a = ordered(init, before);
        ordering_is_stable(init, before, one);
        ordered_is_in_order(init, before);
        let p = |i: int| before(x, a[i]);
        search::first_that_is_first(p, 0, a.len() as int);
        let at = search::first_that(p, 0, a.len() as int);
        let front = a.take(at);
        let back = a.skip(at);
        assert(front + back =~= a);
        assert(a.insert(at, x) =~= front.push(x) + back);
        Seq::filter_distributes_over_add(front, back, f);
        Seq::filter_distributes_over_add(front.push(x), back, f);
        assert(front.push(x).drop_last() =~= front);
        reveal(Seq::filter);
        if f(x) {
            assert forall|j: int| 0 <= j < back.len() implies !f(#[trigger] back[j]) by {
                assert(p(at));
                if j > 0 {
                    assert(!before(a[at + j], a[at]));
                }
                assert(before(x, back[j]));
            }
            nothing_is_kept(back, f);
            assert(front.filter(f) + back.filter(f) =~= front.filter(f));
            assert(front.filter(f).push(x) + back.filter(f) =~= front.filter(f).push(x));
        }
    }
}

proof fn nothing_is_kept<T>(s: Seq<T>, f: spec_fn(T) -> bool)
    requires
        forall|j: int| 0 <= j < s.len() ==> !f(#[trigger] s[j]),
    ensures
        s.filter(f) =~= seq![],
    decreases s.len(),
{
    reveal(Seq::filter);
    if s.len() > 0 {
        assert(!f(s[s.len() - 1]));
        let init = s.drop_last();
        assert forall|j: int| 0 <= j < init.len() implies !f(#[trigger] init[j]) by {
            assert(!f(s[j]));
        }
        nothing_is_kept(init, f);
    }
}

/// What there is one of at most is still there, and once, when things are put in order.
pub proof fn ordering_keeps_what_is_alone<T>(
    s: Seq<T>,
    before: spec_fn(T, T) -> bool,
    f: spec_fn(T) -> bool,
)
    requires
        s.filter(f).len() <= 1,
    ensures
        ordered(s, before).filter(f) == s.filter(f),
    decreases s.len(),
{
    reveal(Seq::filter);
    if s.len() > 0 {
        let init = s.drop_last();
        let x = s.last();
        let a = ordered(init, before);
        ordering_keeps_what_is_alone(init, before, f);
        let p = |i: int| before(x, a[i]);
        search::first_that_is_first(p, 0, a.len() as int);
        let at = search::first_that(p, 0, a.len() as int);
        let front = a.take(at);
        let back = a.skip(at);
        assert(front + back =~= a);
        assert(a.insert(at, x) =~= front.push(x) + back);
        Seq::filter_distributes_over_add(front, back, f);
        Seq::filter_distributes_over_add(front.push(x), back, f);
        assert(front.push(x).drop_last() =~= front);
        if f(x) {
            assert(init.filter(f).len() == 0);
            assert(front.filter(f) =~= seq![] && back.filter(f) =~= seq![]);
            assert(init.filter(f) =~= seq![]);
            assert(seq![].push(x) + back.filter(f) =~= seq![].push(x));
        }
    }
}

/// What is in order stays as it is; so do things of which none comes before another.
pub proof fn what_is_in_order_stays<T>(s: Seq<T>, before: spec_fn(T, T) -> bool)
    requires
        in_order(s, before),
    ensures
        ordered(s, before) == s,
    decreases s.len(),
{
    if s.len() > 0 {
        let init = s.drop_last();
        let x = s.last();
        assert forall|i: int, j: int| 0 <= i < j < init.len() implies !before(
            #[trigger] init[j],
            #[trigger] init[i],
        ) by {
            assert(!before(s[j], s[i]));
        }
        what_is_in_order_stays(init, before);
        let p = |i: int| before(x, init[i]);
        assert forall|i: int| 0 <= i < init.len() implies !#[trigger] p(i) by {
            assert(!before(s[s.len() - 1], s[i]));
        }
        search::first_that_is(p, 0, init.len() as int, init.len() as int);
        assert(init.insert(init.len() as int, x) =~= s);
    }
}

} // verus!
