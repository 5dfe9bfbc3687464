//! Whether a newer Turnstile has been published.
//!
//! Separate from the list of releases, which exists to find a game build this host can
//! run: that drops any release with nothing installable, and Turnstile ships a `.dmg`,
//! which it does not recognise. Reusing it would have reported "up to date" forever.
//!
//! This reads two fields and downloads nothing. The banner it feeds opens the releases
//! page.

use vstd::prelude::*;

use crate::error::{CoreError, CoreErrorView};
use crate::github::GitHub;
use crate::text;
use crate::text::{chars_of, parse_number, part, text_of};
use crate::text_laws;
use crate::text_lemmas;

verus! {

broadcast use vstd::string::group_string_axioms;

/// A published release newer than the version asking.
#[derive(Debug, PartialEq, Eq)]
pub struct Update {
    pub version: String,
    pub url: String,
}

/// What an update says.
pub struct UpdateView {
    pub version: Seq<char>,
    pub url: Seq<char>,
}

impl View for Update {
    type V = UpdateView;

    open spec fn view(&self) -> UpdateView {
        UpdateView { version: self.version@, url: self.url@ }
    }
}

impl Clone for Update {
    fn clone(&self) -> (r: Update)
        ensures
            r@ == self@,
    {
        Update { version: self.version.clone(), url: self.url.clone() }
    }
}

/// The latest release as GitHub describes it.
#[derive(Debug, PartialEq, Eq)]
pub struct LatestRelease {
    pub tag_name: String,
    pub html_url: String,
}

/// A text without the `v`s it begins with.
pub open spec fn unprefixed(s: Seq<char>) -> Seq<char>
    decreases s.len(),
{
    if s.len() > 0 && s[0] == 'v' {
        unprefixed(s.drop_first())
    } else {
        s
    }
}

/// The three numbers of `major.minor.patch`, and nothing else. A pre-release or build
/// suffix is no number, which is how pre-releases are ignored without a second rule.
pub open spec fn version_numbers(s: Seq<char>) -> Option<(nat, nat, nat)> {
    match text::cut(s, '.') {
        Some((major, rest)) => match text::cut(rest, '.') {
            Some((minor, patch)) => match (
                text::number(major),
                text::number(minor),
                text::number(patch),
            ) {
                (Some(a), Some(b), Some(c)) => Some((a, b, c)),
                _ => None,
            },
            None => None,
        },
        None => None,
    }
}

/// Whether one version is later than another.
pub open spec fn is_later(a: (nat, nat, nat), b: (nat, nat, nat)) -> bool {
    a.0 > b.0 || (a.0 == b.0 && (a.1 > b.1 || (a.1 == b.1 && a.2 > b.2)))
}

/// Whether the version `tag` names is strictly later than the one `current` names. Where
/// either names none, it is not.
pub open spec fn announces(tag: Seq<char>, current: Seq<char>) -> bool {
    match (version_numbers(unprefixed(tag)), version_numbers(unprefixed(current))) {
        (Some(a), Some(b)) => is_later(a, b),
        _ => false,
    }
}

/// The update that a release is to somebody running `current`, if it is one.
pub open spec fn update_from(tag: Seq<char>, url: Seq<char>, current: Seq<char>) -> Option<
    UpdateView,
> {
    if announces(tag, current) {
        Some(UpdateView { version: unprefixed(tag), url })
    } else {
        None
    }
}

/// A text without the `v`s it begins with.
fn strip_prefix(s: &[char]) -> (out: Vec<char>)
    ensures
        out@ == unprefixed(s@),
{
    let mut i: usize = 0;
    assert(s@.skip(0) =~= s@);
    while i < s.len() && s[i] == 'v'
        invariant
            i <= s.len(),
            unprefixed(s@) == unprefixed(s@.skip(i as int)),
        decreases s.len() - i,
    {
        assert(s@.skip(i as int).drop_first() =~= s@.skip(i + 1));
        i += 1;
    }
    assert(s@.subrange(i as int, s@.len() as int) =~= s@.skip(i as int));
    part(s, i, s.len())
}

/// The three numbers of a version.
pub fn semver(s: &[char]) -> (r: Option<(u64, u64, u64)>)
    ensures
        r is Some <==> version_numbers(s@) is Some,
        r matches Some(v) ==> version_numbers(s@) == Some((v.0 as nat, v.1 as nat, v.2 as nat)),
{
    let (major, rest): (Vec<char>, Vec<char>) = match text::split_once(s, '.') {
        Some(p) => p,
        None => {
            return None;
        },
    };
    let (minor, patch): (Vec<char>, Vec<char>) = match text::split_once(&rest, '.') {
        Some(p) => p,
        None => {
            return None;
        },
    };
    match (parse_number(&major), parse_number(&minor), parse_number(&patch)) {
        (Some(a), Some(b), Some(c)) => Some((a, b, c)),
        _ => None,
    }
}

/// Takes the latest release and reports an update only if the published version is
/// strictly greater than `current`, so a local build ahead of the feed does not nag and
/// a moved or recut tag cannot announce itself as an upgrade. A tag that cannot be read
/// is ignored for the same reason. `json` is what the answer was read as, or why it could
/// not be read.
pub fn parse_latest(json: Result<LatestRelease, String>, current: &str) -> (r: Result<
    Option<Update>,
    CoreError,
>)
    ensures
        match json {
            Err(m) => r is Err && r->Err_0@ == CoreErrorView::Json(m@),
            Ok(api) => r is Ok && crate::state::maybe(r->Ok_0) == update_from(
                api.tag_name@,
                api.html_url@,
                current@,
            ),
        },
{
    let api: LatestRelease = match json {
        Ok(api) => api,
        Err(m) => {
            return Err(CoreError::Json(m));
        },
    };
    let version: Vec<char> = strip_prefix(&chars_of(api.tag_name.as_str()));
    let published: (u64, u64, u64) = match semver(&version) {
        Some(v) => v,
        None => {
            return Ok(None);
        },
    };
    // Stripped on both sides: `current` carries no prefix today, but accepting it on one
    // side and not the other is a trap for a later caller.
    let running: (u64, u64, u64) = match semver(&strip_prefix(&chars_of(current))) {
        Some(v) => v,
        None => {
            return Ok(None);
        },
    };
    let later: bool = published.0 > running.0 || (published.0 == running.0 && (published.1
        > running.1 || (published.1 == running.1 && published.2 > running.2)));
    if later {
        Ok(Some(Update { version: text_of(&version), url: api.html_url }))
    } else {
        Ok(None)
    }
}

/// Nobody is told of the version they run, nor of an earlier one: of two versions at
/// most one is announced to whoever runs the other.
pub proof fn updates_go_one_way(a: Seq<char>, b: Seq<char>)
    ensures
        !announces(a, a),
        announces(a, b) ==> !announces(b, a),
{
}

/// What is announced to somebody who was told of an update in between is announced to
/// them all the more before.
pub proof fn updates_add_up(a: Seq<char>, b: Seq<char>, c: Seq<char>)
    requires
        announces(a, b),
        announces(b, c),
    ensures
        announces(a, c),
{
}

/// A `v` in front of a version makes no difference.
pub proof fn prefixes_are_ignored(tag: Seq<char>, current: Seq<char>)
    ensures
        announces(seq!['v'] + tag, current) == announces(tag, current),
        announces(tag, seq!['v'] + current) == announces(tag, current),
{
    assert((seq!['v'] + tag).drop_first() =~= tag);
    assert((seq!['v'] + current).drop_first() =~= current);
}

impl GitHub {
    /// Whether a release newer than `current` exists, going by what the server said of the
    /// latest one: `answered` is what its answer was read as, or why there was none. The
    /// latest rather than the list: drafts and pre-releases are not among the latest.
    pub fn latest_turnstile(
        &self,
        answered: Result<Result<LatestRelease, String>, CoreError>,
        current: &str,
    ) -> (r: Result<Option<Update>, CoreError>)
        ensures
            match answered {
                Err(e) => r is Err && r->Err_0@ == e@,
                Ok(Err(m)) => r is Err && r->Err_0@ == CoreErrorView::Json(m@),
                Ok(Ok(api)) => r is Ok && crate::state::maybe(r->Ok_0) == update_from(
                    api.tag_name@,
                    api.html_url@,
                    current@,
                ),
            },
    {
        match answered {
            Ok(json) => parse_latest(json, current),
            Err(e) => Err(e),
        }
    }
}

/// A version as it is written: three numbers with dots between them.
pub open spec fn written(a: (nat, nat, nat)) -> Seq<char> {
    text::decimal(a.0) + seq!['.'] + (text::decimal(a.1) + seq!['.'] + text::decimal(a.2))
}

/// A version that is written is read.
proof fn written_versions_are_read(a: (nat, nat, nat))
    requires
        a.0 <= u64::MAX,
        a.1 <= u64::MAX,
        a.2 <= u64::MAX,
    ensures
        version_numbers(unprefixed(written(a))) == Some(a),
{
    let (x, y, z) = (text::decimal(a.0), text::decimal(a.1), text::decimal(a.2));
    text_laws::numbers_are_read(a.0, x);
    text_laws::numbers_are_read(a.1, y);
    text_laws::numbers_are_read(a.2, z);
    text_lemmas::decimal_is_read_back(a.0);
    text_lemmas::decimal_is_read_back(a.1);
    let s = written(a);
    let rest = y + seq!['.'] + z;
    assert(text::is_digit(x[0]));
    assert(s[0] == x[0]);
    assert(unprefixed(s) == s);
    if x.contains('.') {
        let i = x.index_of('.');
        assert(text::is_digit(x[i]));
    }
    if y.contains('.') {
        let i = y.index_of('.');
        assert(text::is_digit(y[i]));
    }
    text_lemmas::before_first_after(x, '.', rest);
    text_lemmas::before_first_after(y, '.', z);
    assert(s.take(x.len() as int) =~= x);
    assert(s.skip(x.len() as int + 1) =~= rest);
    assert(rest.take(y.len() as int) =~= y);
    assert(rest.skip(y.len() as int + 1) =~= z);
}

/// A version is announced to whoever runs another exactly where its major number is
/// greater, or that is the same and its minor number is greater, or both are the same and
/// its patch number is greater.
pub proof fn later_versions_are_announced(a: (nat, nat, nat), b: (nat, nat, nat))
    requires
        a.0 <= u64::MAX && a.1 <= u64::MAX && a.2 <= u64::MAX,
        b.0 <= u64::MAX && b.1 <= u64::MAX && b.2 <= u64::MAX,
    ensures
        announces(written(a), written(b)) <==> a.0 > b.0 || a.0 == b.0 && a.1 > b.1 || a.0 == b.0
            && a.1 == b.1 && a.2 > b.2,
{
    written_versions_are_read(a);
    written_versions_are_read(b);
}

/// The same of any two tags that read as versions, however they are written; and of two
/// different versions exactly one is announced to whoever runs the other.
pub proof fn tags_are_compared_by_their_numbers(
    tag: Seq<char>,
    current: Seq<char>,
    a: (nat, nat, nat),
    b: (nat, nat, nat),
)
    requires
        version_numbers(unprefixed(tag)) == Some(a),
        version_numbers(unprefixed(current)) == Some(b),
    ensures
        announces(tag, current) <==> a.0 > b.0 || a.0 == b.0 && a.1 > b.1 || a.0 == b.0 && a.1
            == b.1 && a.2 > b.2,
        a != b ==> announces(tag, current) != announces(current, tag),
{
}

/// A tag that is announced is made of digits, dots and plus signs alone, after the `v`s it
/// may begin with: a pre-release or a build suffix keeps it from being announced. The same
/// goes for the version that asks.
pub proof fn only_plain_versions_are_announced(tag: Seq<char>, current: Seq<char>, i: int)
    requires
        announces(tag, current),
    ensures
        0 <= i < unprefixed(tag).len() ==> is_plain_sign(unprefixed(tag)[i]),
        0 <= i < unprefixed(current).len() ==> is_plain_sign(unprefixed(current)[i]),
{
    versions_are_plain(unprefixed(tag), i);
    versions_are_plain(unprefixed(current), i);
}

/// The characters a plain version is made of.
pub open spec fn is_plain_sign(c: char) -> bool {
    '0' <= c <= '9' || c == '.' || c == '+'
}

proof fn numbers_are_plain(s: Seq<char>, i: int)
    requires
        text::number(s) is Some,
        0 <= i < s.len(),
    ensures
        is_plain_sign(s[i]),
{
    if s[0] == '+' {
        if i > 0 {
            assert(text::is_digit(s.drop_first()[i - 1]));
        }
    } else {
        assert(text::is_digit(s[i]));
    }
}

proof fn versions_are_plain(s: Seq<char>, i: int)
    requires
        version_numbers(s) is Some,
    ensures
        0 <= i < s.len() ==> is_plain_sign(s[i]),
{
    if 0 <= i < s.len() {
        let m = text::before_first(s, '.') as int;
        let rest = s.skip(m + 1);
        let n = text::before_first(rest, '.') as int;
        text_lemmas::before_first_is_first(s, '.');
        text_lemmas::before_first_is_first(rest, '.');
        if i < m {
            numbers_are_plain(s.take(m), i);
        } else if i > m && i - m - 1 < n {
            numbers_are_plain(rest.take(n), i - m - 1);
        } else if i > m && i - m - 1 > n {
            numbers_are_plain(rest.skip(n + 1), i - m - n - 2);
        }
    }
}

/// An update names the page of the release as it is given, and the version without the
/// `v`s its tag begins with; and there is one exactly where the version is announced.
pub proof fn updates_say_what_was_published(tag: Seq<char>, url: Seq<char>, current: Seq<char>)
    ensures
        update_from(tag, url, current) is Some <==> announces(tag, current),
        update_from(tag, url, current) matches Some(update) ==> {
            &&& update.url == url
            &&& text::finishes(tag, update.version)
            &&& update.version.len() > 0 ==> update.version[0] != 'v'
            &&& forall|i: int|
                0 <= i < tag.len() - update.version.len() ==> #[trigger] tag[i] == 'v'
        },
{
    prefix_is_vs(tag);
}

proof fn prefix_is_vs(s: Seq<char>)
    ensures
        text::finishes(s, unprefixed(s)),
        unprefixed(s).len() > 0 ==> unprefixed(s)[0] != 'v',
        forall|i: int| 0 <= i < s.len() - unprefixed(s).len() ==> #[trigger] s[i] == 'v',
    decreases s.len(),
{
    let v = unprefixed(s);
    if s.len() > 0 && s[0] == 'v' {
        let t = s.drop_first();
        prefix_is_vs(t);
        assert(s.skip(s.len() - v.len()) =~= t.skip(t.len() - v.len()));
        assert forall|i: int| 0 <= i < s.len() - v.len() implies #[trigger] s[i] == 'v' by {
            if i > 0 {
                assert(t[i - 1] == 'v');
            }
        }
    } else {
        assert(s.skip(0) =~= s);
    }
}

/// What has not exactly two dots is no version.
pub proof fn versions_have_two_dots(a: Seq<char>, b: Seq<char>, c: Seq<char>, rest: Seq<char>)
    requires
        forall|i: int| 0 <= i < a.len() ==> #[trigger] a[i] != '.',
        forall|i: int| 0 <= i < b.len() ==> #[trigger] b[i] != '.',
    ensures
        version_numbers(a) is None,
        version_numbers(a + seq!['.'] + b) is None,
        version_numbers(a + seq!['.'] + (b + seq!['.'] + (c + seq!['.'] + rest))) is None,
{
    let end = c + seq!['.'] + rest;
    text_laws::texts_are_cut_at_the_first_sign(a, '.', b);
    text_laws::texts_are_cut_at_the_first_sign(b, '.', end);
    text_laws::texts_are_cut_at_the_first_sign(a, '.', b + seq!['.'] + end);
    if text::number(end) is Some {
        let at = c.len() as int;
        assert(end[at] == '.');
        if end[0] == '+' {
            if at > 0 {
                assert(text::is_digit(end.drop_first()[at - 1]));
            }
        } else {
            assert(text::is_digit(end[at]));
        }
    }
}

} // verus!
