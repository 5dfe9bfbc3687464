//! Text as a sequence of characters: the handful of operations the rest of the
//! library is stated over, each with the function it computes.

use vstd::prelude::*;

verus! {

broadcast use vstd::string::group_string_axioms;

/// `String::push`: appends one character to the end of the string.
pub assume_specification[ String::push ](s: &mut String, c: char)
    ensures
        final(s)@ == old(s)@.push(c),
;

// ---------------------------------------------------------------------------
// What the operations mean
// ---------------------------------------------------------------------------

/// The characters Unicode calls white space.
pub open spec fn is_white(c: char) -> bool {
    ||| '\u{9}' <= c <= '\u{d}'
    ||| c == ' '
    ||| c == '\u{85}'
    ||| c == '\u{a0}'
    ||| c == '\u{1680}'
    ||| '\u{2000}' <= c <= '\u{200a}'
    ||| c == '\u{2028}'
    ||| c == '\u{2029}'
    ||| c == '\u{202f}'
    ||| c == '\u{205f}'
    ||| c == '\u{3000}'
}

/// `s` without the white space it begins with.
pub open spec fn trimmed_start(s: Seq<char>) -> Seq<char>
    decreases s.len(),
{
    if s.len() > 0 && is_white(s[0]) {
        trimmed_start(s.drop_first())
    } else {
        s
    }
}

/// `s` without the white space it ends with.
pub open spec fn trimmed_end(s: Seq<char>) -> Seq<char>
    decreases s.len(),
{
    if s.len() > 0 && is_white(s.last()) {
        trimmed_end(s.drop_last())
    } else {
        s
    }
}

/// `s` without white space at either end.
pub open spec fn trimmed(s: Seq<char>) -> Seq<char> {
    trimmed_end(trimmed_start(s))
}

/// How many characters of `s` come before the first `c`; all of them where
/// there is none.
pub open spec fn before_first(s: Seq<char>, c: char) -> nat
    decreases s.len(),
{
    if s.len() == 0 || s[0] == c {
        0
    } else {
        1 + before_first(s.drop_first(), c)
    }
}

/// `s` cut in two around the first `c`, which neither part keeps.
pub open spec fn cut(s: Seq<char>, c: char) -> Option<(Seq<char>, Seq<char>)> {
    let i = before_first(s, c) as int;
    if i < s.len() {
        Some((s.take(i), s.skip(i + 1)))
    } else {
        None
    }
}

/// A line as it is read: without the carriage return a CRLF ending leaves on it.
pub open spec fn without_return(s: Seq<char>) -> Seq<char> {
    if s.len() > 0 && s.last() == '\r' {
        s.drop_last()
    } else {
        s
    }
}

/// The lines of `s`. A line ends at a line feed, with or without a carriage
/// return before it, and the last one needs no ending.
pub open spec fn lines_in(s: Seq<char>) -> Seq<Seq<char>>
    decreases s.len(),
{
    let i = before_first(s, '\n') as int;
    if s.len() == 0 {
        seq![]
    } else if i < s.len() {
        seq![without_return(s.take(i))] + lines_in(s.skip(i + 1))
    } else {
        seq![s]
    }
}

/// Each of `parts` followed by `ending`, one after the other.
pub open spec fn ended(parts: Seq<Seq<char>>, ending: Seq<char>) -> Seq<char>
    decreases parts.len(),
{
    if parts.len() == 0 {
        seq![]
    } else {
        ended(parts.drop_last(), ending) + parts.last() + ending
    }
}

/// Whether `needle` occurs in `s` starting at `i`.
pub open spec fn occurs_at(s: Seq<char>, needle: Seq<char>, i: int) -> bool {
    0 <= i && i + needle.len() <= s.len() && s.subrange(i, i + needle.len()) == needle
}

/// Whether `needle` occurs anywhere in `s`.
pub open spec fn has(s: Seq<char>, needle: Seq<char>) -> bool {
    exists|i: int| #[trigger] occurs_at(s, needle, i)
}

/// Whether `s` begins with `start`.
pub open spec fn begins(s: Seq<char>, start: Seq<char>) -> bool {
    s.len() >= start.len() && s.take(start.len() as int) == start
}

/// Whether `s` ends with `end`.
pub open spec fn finishes(s: Seq<char>, end: Seq<char>) -> bool {
    s.len() >= end.len() && s.skip(s.len() - end.len()) == end
}

/// `s` with every `c` replaced by `with`.
pub open spec fn spelled(s: Seq<char>, c: char, with: Seq<char>) -> Seq<char>
    decreases s.len(),
{
    if s.len() == 0 {
        seq![]
    } else if s[0] == c {
        with + spelled(s.drop_first(), c, with)
    } else {
        seq![s[0]] + spelled(s.drop_first(), c, with)
    }
}

/// `s` with every occurrence of `needle` replaced by `with`, taken from the
/// left and never overlapping.
pub open spec fn replaced(s: Seq<char>, needle: Seq<char>, with: Seq<char>) -> Seq<char>
    recommends
        needle.len() > 0,
    decreases s.len(),
{
    if s.len() == 0 || needle.len() == 0 {
        s
    } else if begins(s, needle) {
        with + replaced(s.skip(needle.len() as int), needle, with)
    } else {
        seq![s[0]] + replaced(s.drop_first(), needle, with)
    }
}

/// A letter from A to Z as its lower case one; any other character as it is.
pub open spec fn small(c: char) -> char {
    if 'A' <= c <= 'Z' {
        ((c as u32) + 32) as char
    } else {
        c
    }
}

/// `s` with its ASCII letters in lower case.
pub open spec fn lowercased(s: Seq<char>) -> Seq<char> {
    Seq::new(s.len(), |i: int| small(s[i]))
}

/// Whether `c` is a decimal digit.
pub open spec fn is_digit(c: char) -> bool {
    '0' <= c <= '9'
}

/// What the digit `c` stands for.
pub open spec fn digit_value(c: char) -> nat {
    ((c as int) - ('0' as int)) as nat
}

/// The digit that stands for `d`.
pub open spec fn digit(d: nat) -> char {
    (('0' as int) + d) as char
}

/// `n` in decimal.
pub open spec fn decimal(n: nat) -> Seq<char>
    decreases n,
{
    if n < 10 {
        seq![digit(n)]
    } else {
        decimal(n / 10).push(digit(n % 10))
    }
}

/// The number the digits `s` write out.
pub open spec fn digits_value(s: Seq<char>) -> nat
    decreases s.len(),
{
    if s.len() == 0 {
        0
    } else {
        digits_value(s.drop_last()) * 10 + digit_value(s.last())
    }
}

/// Whether every character of `s` is a digit.
pub open spec fn all_digits(s: Seq<char>) -> bool {
    forall|i: int| 0 <= i < s.len() ==> is_digit(#[trigger] s[i])
}

/// `s` read as a number: digits, with a plus sign before them or without, up to
/// the largest that sixty-four bits hold.
pub open spec fn number(s: Seq<char>) -> Option<nat> {
    let digits = if s.len() > 0 && s[0] == '+' {
        s.drop_first()
    } else {
        s
    };
    if digits.len() > 0 && all_digits(digits) && digits_value(digits) <= u64::MAX {
        Some(digits_value(digits))
    } else {
        None
    }
}

/// The views of a vector of runs of characters.
pub open spec fn rows(v: Seq<Vec<char>>) -> Seq<Seq<char>> {
    Seq::new(v.len(), |i: int| v[i]@)
}

/// The views of a vector of strings.
pub open spec fn views(v: Seq<String>) -> Seq<Seq<char>> {
    Seq::new(v.len(), |i: int| v[i]@)
}

/// The view of an optional string.
pub open spec fn opt_view(s: Option<String>) -> Option<Seq<char>> {
    match s {
        Some(s) => Some(s@),
        None => None,
    }
}

// ---------------------------------------------------------------------------
// The operations
// ---------------------------------------------------------------------------

/// The characters of `s`, in order.
pub fn chars_of(s: &str) -> (out: Vec<char>)
    ensures
        out@ == s@,
{
    let mut out: Vec<char> = Vec::new();
    for c in it: s.chars()
        invariant
            out@ == it.seq().take(it.index()),
            it.seq() == s@,
    {
        out.push(c);
    }
    out
}

/// The string made of `chars`.
pub fn text_of(chars: &[char]) -> (out: String)
    ensures
        out@ == chars@,
{
    let mut out = String::new();
    let mut i: usize = 0;
    while i < chars.len()
        invariant
            i <= chars.len(),
            out@ == chars@.take(i as int),
        decreases chars.len() - i,
    {
        out.push(chars[i]);
        i += 1;
    }
    out
}

/// A copy of the characters from `from` up to `to`.
pub fn part(s: &[char], from: usize, to: usize) -> (out: Vec<char>)
    requires
        from <= to <= s@.len(),
    ensures
        out@ == s@.subrange(from as int, to as int),
{
    let mut out: Vec<char> = Vec::new();
    let mut i: usize = from;
    while i < to
        invariant
            from <= i <= to <= s@.len(),
            out@ == s@.subrange(from as int, i as int),
        decreases to - i,
    {
        out.push(s[i]);
        i += 1;
    }
    out
}

/// Whether two strings hold the same characters.
pub fn same(a: &str, b: &str) -> (r: bool)
    ensures
        r == (a@ == b@),
{
    a.to_owned() == b.to_owned()
}

/// Whether two runs of characters are the same.
pub fn same_chars(a: &[char], b: &[char]) -> (r: bool)
    ensures
        r == (a@ == b@),
{
    if a.len() != b.len() {
        return false;
    }
    let mut i: usize = 0;
    while i < a.len()
        invariant
            i <= a.len(),
            a@.len() == b@.len(),
            forall|j: int| 0 <= j < i ==> a@[j] == b@[j],
        decreases a.len() - i,
    {
        if a[i] != b[i] {
            assert(a@[i as int] != b@[i as int]);
            return false;
        }
        i += 1;
    }
    assert(a@ =~= b@);
    true
}

/// Puts the characters of `more` after those of `out`.
pub fn extend(out: &mut Vec<char>, more: &[char])
    ensures
        final(out)@ == old(out)@ + more@,
{
    let ghost start = out@;
    let mut i: usize = 0;
    while i < more.len()
        invariant
            i <= more.len(),
            out@ == start + more@.take(i as int),
        decreases more.len() - i,
    {
        out.push(more[i]);
        i += 1;
    }
    assert(more@.take(more@.len() as int) == more@);
}

/// Whether `c` is white space.
pub fn white(c: char) -> (r: bool)
    ensures
        r == is_white(c),
{
    ('\u{9}' <= c && c <= '\u{d}') || c == ' ' || c == '\u{85}' || c == '\u{a0}' || c == '\u{1680}'
        || ('\u{2000}' <= c && c <= '\u{200a}') || c == '\u{2028}' || c == '\u{2029}' || c
        == '\u{202f}' || c == '\u{205f}' || c == '\u{3000}'
}

/// `s` without the white space it begins with.
pub fn trim_start(s: &[char]) -> (out: Vec<char>)
    ensures
        out@ == trimmed_start(s@),
{
    let mut i: usize = 0;
    assert(s@.skip(0) == s@);
    while i < s.len() && white(s[i])
        invariant
            i <= s.len(),
            trimmed_start(s@) == trimmed_start(s@.skip(i as int)),
        decreases s.len() - i,
    {
        assert(s@.skip(i as int).drop_first() == s@.skip(i + 1));
        i += 1;
    }
    assert(s@.skip(i as int) == s@.subrange(i as int, s@.len() as int));
    part(s, i, s.len())
}

/// `s` without white space at either end.
pub fn trim(s: &[char]) -> (out: Vec<char>)
    ensures
        out@ == trimmed(s@),
{
    let s: Vec<char> = trim_start(s);
    let mut n: usize = s.len();
    assert(s@.take(n as int) == s@);
    while n > 0 && white(s[n - 1])
        invariant
            n <= s.len(),
            trimmed_end(s@) == trimmed_end(s@.take(n as int)),
        decreases n,
    {
        assert(s@.take(n as int).drop_last() == s@.take(n - 1));
        n -= 1;
    }
    part(&s, 0, n)
}

/// Where the first `c` stands at or after `from`, or the length.
pub fn find_from(s: &[char], c: char, from: usize) -> (i: usize)
    requires
        from <= s@.len(),
    ensures
        i == from + before_first(s@.skip(from as int), c),
        from <= i <= s@.len(),
{
    let mut i: usize = from;
    while i < s.len() && s[i] != c
        invariant
            from <= i <= s.len(),
            before_first(s@.skip(from as int), c) == (i - from) + before_first(
                s@.skip(i as int),
                c,
            ),
        decreases s.len() - i,
    {
        assert(s@.skip(i as int).drop_first() == s@.skip(i + 1));
        i += 1;
    }
    i
}

/// Cuts `s` around the first `c`.
pub fn split_once(s: &[char], c: char) -> (r: Option<(Vec<char>, Vec<char>)>)
    ensures
        r is Some <==> cut(s@, c) is Some,
        r matches Some(p) ==> cut(s@, c) == Some((p.0@, p.1@)),
{
    assert(s@.skip(0) == s@);
    let i: usize = find_from(s, c, 0);
    if i < s.len() {
        assert(s@.subrange(0, i as int) == s@.take(i as int));
        assert(s@.subrange(i + 1, s@.len() as int) == s@.skip(i + 1));
        Some((part(s, 0, i), part(s, i + 1, s.len())))
    } else {
        None
    }
}

/// The lines of `s`.
pub fn lines(s: &[char]) -> (out: Vec<Vec<char>>)
    ensures
        rows(out@) == lines_in(s@),
{
    let mut out: Vec<Vec<char>> = Vec::new();
    let mut at: usize = 0;
    assert(s@.skip(0) == s@);
    while at < s.len()
        invariant
            at <= s.len(),
            out@.len() + lines_in(s@.skip(at as int)).len() == lines_in(s@).len(),
            forall|i: int| 0 <= i < out@.len() ==> (#[trigger] out@[i])@ == lines_in(s@)[i],
            forall|i: int|
                0 <= i < lines_in(s@.skip(at as int)).len() ==> lines_in(s@)[out@.len() + i]
                    == #[trigger] lines_in(s@.skip(at as int))[i],
        decreases s.len() - at,
    {
        let ghost rest = s@.skip(at as int);
        let ghost done = out@.len() as int;
        let end: usize = find_from(s, '\n', at);
        if end < s.len() {
            let stop: usize = if end > at && s[end - 1] == '\r' {
                end - 1
            } else {
                end
            };
            let line: Vec<char> = part(s, at, stop);
            let ghost next = lines_in(s@.skip(end + 1));
            proof {
                assert(rest.take(end - at) == s@.subrange(at as int, end as int));
                assert(rest.skip(end - at + 1) == s@.skip(end + 1));
                assert(line@ == without_return(rest.take(end - at)));
                assert(lines_in(rest) == seq![line@] + next);
                assert(lines_in(rest)[0] == line@);
                assert(forall|i: int|
                    0 <= i < next.len() ==> lines_in(s@)[done + 1 + i] == #[trigger] next[i]) by {
                    assert forall|i: int| 0 <= i < next.len() implies lines_in(s@)[done + 1 + i]
                        == #[trigger] next[i] by {
                        assert(lines_in(rest)[i + 1] == next[i]);
                        assert(lines_in(s@)[done + (i + 1)] == lines_in(rest)[i + 1]);
                    }
                }
            }
            out.push(line);
            at = end + 1;
        } else {
            let line: Vec<char> = part(s, at, s.len());
            proof {
                assert(line@ == rest);
                assert(lines_in(rest) == seq![rest]);
                assert(lines_in(rest)[0] == line@);
                assert(s@.skip(s@.len() as int).len() == 0);
            }
            out.push(line);
            at = s.len();
        }
    }
    assert(s@.skip(at as int).len() == 0);
    out
}

/// Puts `ending` after each of `parts`.
pub fn end_each(parts: &Vec<Vec<char>>, ending: &[char]) -> (out: Vec<char>)
    ensures
        out@ == ended(rows(parts@), ending@),
{
    let mut out: Vec<char> = Vec::new();
    let mut i: usize = 0;
    while i < parts.len()
        invariant
            i <= parts.len(),
            out@ == ended(rows(parts@).take(i as int), ending@),
        decreases parts.len() - i,
    {
        extend(&mut out, &parts[i]);
        extend(&mut out, ending);
        assert(rows(parts@).take(i + 1).drop_last() == rows(parts@).take(i as int));
        assert(rows(parts@).take(i + 1).last() == parts@[i as int]@);
        i += 1;
    }
    assert(rows(parts@).take(i as int) == rows(parts@));
    out
}

/// A copy of a run of characters.
pub fn copied(s: &[char]) -> (out: Vec<char>)
    ensures
        out@ == s@,
{
    assert(s@.subrange(0, s@.len() as int) == s@);
    part(s, 0, s.len())
}

/// Whether `needle` stands in `s` at `i`.
pub fn stands_at(s: &[char], needle: &[char], i: usize) -> (r: bool)
    ensures
        r == occurs_at(s@, needle@, i as int),
{
    if needle.len() > s.len() || i > s.len() - needle.len() {
        return false;
    }
    let mut j: usize = 0;
    while j < needle.len()
        invariant
            j <= needle.len(),
            i + needle.len() <= s.len(),
            forall|k: int| 0 <= k < j ==> s@[i + k] == needle@[k],
        decreases needle.len() - j,
    {
        if s[i + j] != needle[j] {
            assert(s@.subrange(i as int, i + needle@.len())[j as int] != needle@[j as int]);
            return false;
        }
        j += 1;
    }
    assert(s@.subrange(i as int, i + needle@.len()) =~= needle@);
    true
}

/// Whether `needle` occurs anywhere in `s`.
pub fn contains(s: &[char], needle: &[char]) -> (r: bool)
    ensures
        r == has(s@, needle@),
{
    let mut i: usize = 0;
    loop
        invariant
            i <= s.len(),
            forall|j: int| 0 <= j < i ==> !#[trigger] occurs_at(s@, needle@, j),
        decreases s.len() - i,
    {
        if stands_at(s, needle, i) {
            return true;
        }
        if i == s.len() {
            return false;
        }
        i += 1;
    }
}

/// Whether `s` begins with `start`.
pub fn starts_with(s: &[char], start: &[char]) -> (r: bool)
    ensures
        r == begins(s@, start@),
{
    proof {
        if s@.len() >= start@.len() {
            assert(s@.subrange(0, start@.len() as int) == s@.take(start@.len() as int));
        }
    }
    stands_at(s, start, 0)
}

/// Whether `s` ends with `end`.
pub fn ends_with(s: &[char], end: &[char]) -> (r: bool)
    ensures
        r == finishes(s@, end@),
{
    if end.len() > s.len() {
        return false;
    }
    assert(s@.subrange(s@.len() - end@.len(), s@.len() as int) == s@.skip(s@.len() - end@.len()));
    stands_at(s, end, s.len() - end.len())
}

/// Replaces every `c` in `s` by `with`.
pub fn spell(s: &[char], c: char, with: &[char]) -> (out: Vec<char>)
    ensures
        out@ == spelled(s@, c, with@),
{
    let mut out: Vec<char> = Vec::new();
    let mut i: usize = 0;
    assert(s@.skip(0) == s@);
    while i < s.len()
        invariant
            i <= s.len(),
            spelled(s@, c, with@) == out@ + spelled(s@.skip(i as int), c, with@),
        decreases s.len() - i,
    {
        assert(s@.skip(i as int).drop_first() == s@.skip(i + 1));
        let ghost before = out@;
        if s[i] == c {
            extend(&mut out, with);
            assert(out@ + spelled(s@.skip(i + 1), c, with@) == before + (with@ + spelled(
                s@.skip(i + 1),
                c,
                with@,
            )));
        } else {
            out.push(s[i]);
            assert(out@ + spelled(s@.skip(i + 1), c, with@) == before + (seq![s@[i as int]]
                + spelled(s@.skip(i + 1), c, with@)));
        }
        i += 1;
    }
    assert(spelled(s@.skip(i as int), c, with@) == Seq::<char>::empty());
    out
}

/// Replaces every occurrence of `needle` in `s` by `with`.
pub fn replace(s: &[char], needle: &[char], with: &[char]) -> (out: Vec<char>)
    requires
        needle@.len() > 0,
    ensures
        out@ == replaced(s@, needle@, with@),
{
    let mut out: Vec<char> = Vec::new();
    let mut i: usize = 0;
    assert(s@.skip(0) == s@);
    while i < s.len()
        invariant
            i <= s.len(),
            needle@.len() > 0,
            replaced(s@, needle@, with@) == out@ + replaced(s@.skip(i as int), needle@, with@),
        decreases s.len() - i,
    {
        let ghost rest = s@.skip(i as int);
        let ghost before = out@;
        proof {
            assert(rest.drop_first() == s@.skip(i + 1));
            if rest.len() >= needle@.len() {
                assert(rest.take(needle@.len() as int) == s@.subrange(
                    i as int,
                    i + needle@.len(),
                ));
            }
        }
        if stands_at(s, needle, i) {
            extend(&mut out, with);
            proof {
                assert(rest.skip(needle@.len() as int) == s@.skip(i + needle@.len()));
                assert(out@ + replaced(s@.skip(i + needle@.len()), needle@, with@) == before + (
                with@ + replaced(s@.skip(i + needle@.len()), needle@, with@)));
            }
            i += needle.len();
        } else {
            out.push(s[i]);
            assert(out@ + replaced(s@.skip(i + 1), needle@, with@) == before + (seq![rest[0]]
                + replaced(s@.skip(i + 1), needle@, with@)));
            i += 1;
        }
    }
    assert(replaced(s@.skip(i as int), needle@, with@) == Seq::<char>::empty());
    out
}

/// `c` in lower case, where it is an ASCII letter.
pub fn to_small(c: char) -> (r: char)
    ensures
        r == small(c),
{
    if 'A' <= c && c <= 'Z' {
        let code: u8 = c as u8;
        (code + 32) as char
    } else {
        c
    }
}

/// `s` with its ASCII letters in lower case.
pub fn lowercase(s: &[char]) -> (out: Vec<char>)
    ensures
        out@ == lowercased(s@),
{
    let mut out: Vec<char> = Vec::new();
    let mut i: usize = 0;
    while i < s.len()
        invariant
            i <= s.len(),
            out@.len() == i,
            forall|j: int| 0 <= j < i ==> out@[j] == small(s@[j]),
        decreases s.len() - i,
    {
        out.push(to_small(s[i]));
        i += 1;
    }
    out
}

/// `n` in decimal.
pub fn to_decimal(n: u128) -> (out: Vec<char>)
    ensures
        out@ == decimal(n as nat),
    decreases n,
{
    let last: u8 = (n % 10) as u8;
    let c: char = (48 + last) as char;
    let mut out: Vec<char> = if n < 10 {
        Vec::new()
    } else {
        to_decimal(n / 10)
    };
    out.push(c);
    out
}

/// Reads a number, if `s` is one.
pub fn parse_number(s: &[char]) -> (r: Option<u64>)
    ensures
        r is Some <==> number(s@) is Some,
        r matches Some(n) ==> number(s@) == Some(n as nat),
{
    let start: usize = if s.len() > 0 && s[0] == '+' {
        1
    } else {
        0
    };
    let ghost digits = s@.skip(start as int);
    assert(start == 1 ==> digits == s@.drop_first());
    assert(start == 0 ==> digits == s@);
    if start == s.len() {
        return None;
    }
    let mut n: u64 = 0;
    let mut i: usize = start;
    while i < s.len()
        invariant
            start <= i <= s.len(),
            digits == s@.skip(start as int),
            forall|j: int| 0 <= j < i - start ==> is_digit(#[trigger] digits[j]),
            n == digits_value(digits.take(i - start)),
            number(s@) is Some ==> all_digits(digits) && digits_value(digits) <= u64::MAX,
        decreases s.len() - i,
    {
        let c: char = s[i];
        assert(digits[i - start] == c);
        if c < '0' || c > '9' {
            return None;
        }
        let d: u64 = (c as u8 - 48) as u64;
        let ghost longer = digits.take(i - start + 1);
        assert(longer.drop_last() == digits.take(i - start));
        assert(digits_value(longer) == n * 10 + d);
        if n > (u64::MAX - d) / 10 {
            proof {
                if number(s@) is Some {
                    prefix_is_smaller(digits, i - start + 1);
                }
            }
            return None;
        }
        n = n * 10 + d;
        i += 1;
    }
    assert(digits.take(digits.len() as int) == digits);
    Some(n)
}

/// The number that some of the digits write is no larger than all of them do.
proof fn prefix_is_smaller(s: Seq<char>, n: int)
    requires
        0 <= n <= s.len(),
    ensures
        digits_value(s.take(n)) <= digits_value(s),
    decreases s.len(),
{
    if n < s.len() {
        prefix_is_smaller(s.drop_last(), n);
        assert(s.drop_last().take(n) == s.take(n));
    } else {
        assert(s.take(n) == s);
    }
}

/// Puts two strings one after the other.
pub fn joined(a: &str, b: &str) -> (out: String)
    ensures
        out@ == a@ + b@,
{
    let mut out: String = a.to_owned();
    out.append(b);
    out
}

} // verus!
