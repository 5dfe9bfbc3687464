//! Releases this host can install.

use vstd::prelude::*;

use crate::order;
use crate::search;
use crate::timestamp::Timestamp;

verus! {

broadcast use vstd::string::group_string_axioms;

/// Where a release comes from.
#[derive(Debug, Clone, Copy, PartialEq, Eq, Structural)]
pub enum Channel {
    Release,
    Develop,
}

/// The file we would fetch for this release on this machine.
#[derive(Debug, PartialEq, Eq)]
pub struct Download {
    pub url: String,
    pub bytes: u64,
}

/// A release this host can actually install. One carrying no macOS build it can run is
/// left out when the list is read, so there is no asset-selection step at install time.
#[derive(Debug, PartialEq, Eq)]
pub struct Release {
    pub tag: String,
    pub published: Option<Timestamp>,
    pub channel: Channel,
    pub download: Download,
}

/// A release.
pub struct ReleaseView {
    pub tag: Seq<char>,
    /// When it was published, in nanoseconds since the epoch.
    pub published: Option<int>,
    pub channel: Channel,
    pub url: Seq<char>,
    pub bytes: u64,
}

/// When something was published.
pub open spec fn instant(t: Option<Timestamp>) -> Option<int> {
    match t {
        Some(t) => Some(t@),
        None => None,
    }
}

impl View for Release {
    type V = ReleaseView;

    open spec fn view(&self) -> ReleaseView {
        ReleaseView {
            tag: self.tag@,
            published: instant(self.published),
            channel: self.channel,
            url: self.download.url@,
            bytes: self.download.bytes,
        }
    }
}

/// What each release is.
pub open spec fn releases_of(v: Seq<Release>) -> Seq<ReleaseView> {
    Seq::new(v.len(), |i: int| v[i]@)
}

/// Whether a release goes before another: it is newer, or the other has no date.
pub open spec fn is_newer(a: ReleaseView, b: ReleaseView) -> bool {
    match (a.published, b.published) {
        (Some(x), Some(y)) => x > y,
        (Some(_), None) => true,
        (None, _) => false,
    }
}

/// Releases in order, newest first and undated last; those of one instant in the order
/// they had.
pub open spec fn newest_first(s: Seq<ReleaseView>) -> Seq<ReleaseView> {
    order::ordered(s, |a: ReleaseView, b: ReleaseView| is_newer(a, b))
}

/// Newest first does order releases.
pub proof fn newer_orders()
    ensures
        order::orders(|a: ReleaseView, b: ReleaseView| is_newer(a, b)),
{
}

/// What newest first comes to: no release stands behind an older one or an undated one,
/// and the releases are the same ones.
pub proof fn newest_first_is_sorted(s: Seq<ReleaseView>)
    ensures
        newest_first(s).to_multiset() == s.to_multiset(),
        newest_first(s).len() == s.len(),
        forall|i: int, j: int|
            0 <= i < j < s.len() ==> !is_newer(
                #[trigger] newest_first(s)[j],
                #[trigger] newest_first(s)[i],
            ),
{
    let before = |a: ReleaseView, b: ReleaseView| is_newer(a, b);
    newer_orders();
    order::ordered_is_in_order(s, before);
    assert forall|i: int, j: int| 0 <= i < j < s.len() implies !is_newer(
        #[trigger] newest_first(s)[j],
        #[trigger] newest_first(s)[i],
    ) by {
        assert(!before(newest_first(s)[j], newest_first(s)[i]));
    }
}

/// Whether a release was published when another was, or neither has a date.
pub open spec fn as_new_as(a: ReleaseView) -> spec_fn(ReleaseView) -> bool {
    |b: ReleaseView| b.published == a.published
}

/// Releases of one instant, and those without a date, keep the order they had.
pub proof fn newest_first_is_stable(s: Seq<ReleaseView>, one: ReleaseView)
    ensures
        newest_first(s).filter(as_new_as(one)) == s.filter(as_new_as(one)),
{
    let before = |a: ReleaseView, b: ReleaseView| is_newer(a, b);
    newer_orders();
    order::ordering_is_stable(s, before, one);
    assert(order::alike(before, one) =~= as_new_as(one));
}

impl Release {
    fn newer_than(&self, other: &Release) -> (r: bool)
        ensures
            r == is_newer(self@, other@),
    {
        match (self.published, other.published) {
            (Some(x), Some(y)) => x.nanos() > y.nanos(),
            (Some(_), None) => true,
            (None, _) => false,
        }
    }

    /// Newest first, undated last. Publication time is the only ordering: develop tags
    /// such as `v0.5.5-9-g394e588fc7` are not semantic versions and nothing compares
    /// versions numerically.
    pub fn sort_newest_first(releases: &mut Vec<Release>)
        ensures
            releases_of(final(releases)@) == newest_first(releases_of(old(releases)@)),
    {
        let ghost start = releases_of(releases@);
        let ghost before = |a: ReleaseView, b: ReleaseView| is_newer(a, b);
        let mut sorted: Vec<Release> = Vec::new();
        let ghost mut done: int = 0;
        proof {
            assert(start.take(0) =~= seq![]);
            assert(start.skip(0) =~= start);
            assert(releases_of(sorted@) =~= seq![]);
        }
        while releases.len() > 0
            invariant
                0 <= done <= start.len(),
                before == (|a: ReleaseView, b: ReleaseView| is_newer(a, b)),
                releases_of(releases@) == start.skip(done),
                releases_of(sorted@) == order::ordered(start.take(done), before),
            decreases releases.len(),
        {
            let ghost rest = releases@;
            let release: Release = releases.remove(0);
            proof {
                assert(release@ == releases_of(rest)[0]);
                assert(releases_of(releases@) =~= releases_of(rest).drop_first());
                assert(start.skip(done).drop_first() =~= start.skip(done + 1));
                assert(start.take(done + 1).drop_last() =~= start.take(done));
                done = done + 1;
            }
            place_release(&mut sorted, release);
        }
        assert(start.take(done) =~= start);
        *releases = sorted;
    }
}

/// Puts a release into a list that is in order.
fn place_release(all: &mut Vec<Release>, release: Release)
    ensures
        releases_of(final(all)@) == order::placed(
            releases_of(old(all)@),
            release@,
            |a: ReleaseView, b: ReleaseView| is_newer(a, b),
        ),
{
    let ghost s = releases_of(all@);
    let ghost before = |a: ReleaseView, b: ReleaseView| is_newer(a, b);
    let ghost p = |i: int| before(release@, s[i]);
    let mut i: usize = 0;
    while i < all.len() && !release.newer_than(&all[i])
        invariant
            i <= all.len(),
            s == releases_of(all@),
            before == (|a: ReleaseView, b: ReleaseView| is_newer(a, b)),
            p == (|i: int| before(release@, s[i])),
            forall|j: int| 0 <= j < i ==> !#[trigger] p(j),
        decreases all.len() - i,
    {
        i += 1;
    }
    proof {
        search::first_that_is(p, 0, s.len() as int, i as int);
    }
    let ghost view = release@;
    all.insert(i, release);
    assert(releases_of(all@) =~= s.insert(i as int, view));
}

/// A release without a date stands behind every one with a date, and of two with a date
/// the later one stands in front.
pub proof fn later_releases_stand_in_front(s: Seq<ReleaseView>, i: int, j: int)
    requires
        0 <= i < j < s.len(),
    ensures
        newest_first(s).len() == s.len(),
        newest_first(s)[j].published matches Some(later) ==> (newest_first(s)[i].published matches Some(
            earlier,
        ) && earlier >= later),
{
    newest_first_is_sorted(s);
    assert(!is_newer(newest_first(s)[j], newest_first(s)[i]));
}

} // verus!
