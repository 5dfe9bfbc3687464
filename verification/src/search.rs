//! The first place where something holds.

use vstd::prelude::*;

verus! {

/// The first number from `i` up to `n` of which `p` holds, or `n` where there is
/// none.
pub open spec fn first_that(p: spec_fn(int) -> bool, i: int, n: int) -> int
    decreases n - i,
{
    if i >= n {
        n
    } else if p(i) {
        i
    } else {
        first_that(p, i + 1, n)
    }
}

/// What makes a place the first: it is in range, `p` holds of it unless it is the
/// end, and of nothing before it.
pub proof fn first_that_is_first(p: spec_fn(int) -> bool, i: int, n: int)
    requires
        i <= n,
    ensures
        i <= first_that(p, i, n) <= n,
        first_that(p, i, n) < n ==> p(first_that(p, i, n)),
        forall|j: int| i <= j < first_that(p, i, n) ==> !#[trigger] p(j),
    decreases n - i,
{
    if i < n && !p(i) {
        first_that_is_first(p, i + 1, n);
    }
}

/// Nothing else is the first.
pub proof fn first_that_is(p: spec_fn(int) -> bool, i: int, n: int, at: int)
    requires
        i <= at <= n,
        at < n ==> p(at),
        forall|j: int| i <= j < at ==> !#[trigger] p(j),
    ensures
        first_that(p, i, n) == at,
{
    first_that_is_first(p, i, n);
}

} // verus!
