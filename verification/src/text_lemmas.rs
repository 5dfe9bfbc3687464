//! Facts about text that the laws of the library rest on.

use vstd::prelude::*;

use crate::text;

verus! {

broadcast use vstd::string::group_string_axioms;

/// Whether a run of characters stays on one line.
pub open spec fn one_line(s: Seq<char>) -> bool {
    !s.contains('\n')
}

/// Each of `parts` as it is read back from a file whose lines end in a line feed.
pub open spec fn as_read(parts: Seq<Seq<char>>) -> Seq<Seq<char>> {
    Seq::new(parts.len(), |i: int| text::without_return(parts[i]))
}

/// The first `c` of `a`, `c` and whatever follows stands right after `a`, where `a`
/// has none.
pub proof fn before_first_after(a: Seq<char>, c: char, rest: Seq<char>)
    requires
        !a.contains(c),
    ensures
        text::before_first(a + seq![c] + rest, c) == a.len(),
    decreases a.len(),
{
    let s = a + seq![c] + rest;
    if a.len() > 0 {
        assert(a.drop_first() + seq![c] + rest == s.drop_first());
        assert(a[0] != c) by {
            assert(a.contains(a[0]));
        }
        assert(!a.drop_first().contains(c)) by {
            if a.drop_first().contains(c) {
                let i = choose|i: int| 0 <= i < a.drop_first().len() && a.drop_first()[i] == c;
                assert(a[i + 1] == c);
            }
        }
        before_first_after(a.drop_first(), c, rest);
    }
}

/// Where the first `c` is, and that there is none before it.
pub proof fn before_first_is_first(s: Seq<char>, c: char)
    ensures
        text::before_first(s, c) <= s.len(),
        text::before_first(s, c) < s.len() ==> s[text::before_first(s, c) as int] == c,
        !s.take(text::before_first(s, c) as int).contains(c),
        text::before_first(s, c) == s.len() <==> !s.contains(c),
    decreases s.len(),
{
    if s.len() > 0 && s[0] != c {
        let t = s.drop_first();
        before_first_is_first(t, c);
        let i = text::before_first(t, c) as int;
        assert forall|j: int| 0 <= j < i + 1 implies #[trigger] s.take(i + 1)[j] != c by {
            if j > 0 {
                assert(t.take(i).contains(t.take(i)[j - 1]));
            }
        }
        if s.contains(c) {
            let j = choose|j: int| 0 <= j < s.len() && s[j] == c;
            assert(t[j - 1] == c);
        }
        if t.contains(c) {
            let j = choose|j: int| 0 <= j < t.len() && t[j] == c;
            assert(s[j + 1] == c);
        }
    } else if s.len() > 0 {
        assert(s.contains(s[0]));
    }
}

/// A line that ends is read first, and then the rest.
pub proof fn lines_of_a_line(a: Seq<char>, rest: Seq<char>)
    requires
        one_line(a),
    ensures
        text::lines_in(a + seq!['\n'] + rest) == seq![text::without_return(a)]
            + text::lines_in(rest),
{
    let s = a + seq!['\n'] + rest;
    before_first_after(a, '\n', rest);
    assert(s.take(a.len() as int) == a);
    assert(s.skip(a.len() as int + 1) == rest);
}

/// The ended parts, taken from the front.
pub proof fn ended_from_the_front(parts: Seq<Seq<char>>, ending: Seq<char>)
    requires
        parts.len() > 0,
    ensures
        text::ended(parts, ending) == parts[0] + ending + text::ended(parts.drop_first(), ending),
    decreases parts.len(),
{
    if parts.len() == 1 {
        assert(parts.drop_last().len() == 0);
        assert(parts.drop_first().len() == 0);
        assert(text::ended(parts.drop_last(), ending) == Seq::<char>::empty());
        assert(text::ended(parts.drop_first(), ending) == Seq::<char>::empty());
        assert(text::ended(parts, ending) == parts[0] + ending + text::ended(
            parts.drop_first(),
            ending,
        ));
    } else {
        let init = parts.drop_last();
        ended_from_the_front(init, ending);
        assert(init.drop_first() == parts.drop_first().drop_last());
        assert(parts.drop_first().last() == parts.last());
        assert(text::ended(parts, ending) == parts[0] + ending + text::ended(
            parts.drop_first(),
            ending,
        ));
    }
}

/// What is written line by line with line feeds is read back line by line.
pub proof fn lines_written_with_line_feeds(parts: Seq<Seq<char>>)
    requires
        forall|i: int| 0 <= i < parts.len() ==> one_line(#[trigger] parts[i]),
    ensures
        text::lines_in(text::ended(parts, "\n"@)) == as_read(parts),
    decreases parts.len(),
{
    reveal_strlit("\n");
    assert("\n"@ == seq!['\n']);
    if parts.len() > 0 {
        let rest = text::ended(parts.drop_first(), "\n"@);
        ended_from_the_front(parts, "\n"@);
        lines_of_a_line(parts[0], rest);
        assert forall|i: int| 0 <= i < parts.drop_first().len() implies one_line(
            #[trigger] parts.drop_first()[i],
        ) by {
            assert(one_line(parts[i + 1]));
        }
        lines_written_with_line_feeds(parts.drop_first());
        assert(as_read(parts) == seq![text::without_return(parts[0])] + as_read(
            parts.drop_first(),
        ));
    } else {
        assert(as_read(parts) == Seq::<Seq<char>>::empty());
    }
}

/// What is written line by line with CRLF endings is read back line by line.
pub proof fn lines_written_with_returns(parts: Seq<Seq<char>>)
    requires
        forall|i: int| 0 <= i < parts.len() ==> one_line(#[trigger] parts[i]),
    ensures
        text::lines_in(text::ended(parts, "\r\n"@)) == parts,
    decreases parts.len(),
{
    reveal_strlit("\r\n");
    assert("\r\n"@ == seq!['\r', '\n']);
    if parts.len() > 0 {
        let rest = text::ended(parts.drop_first(), "\r\n"@);
        ended_from_the_front(parts, "\r\n"@);
        let a = parts[0].push('\r');
        assert(a + seq!['\n'] + rest == parts[0] + "\r\n"@ + rest);
        assert(one_line(a)) by {
            if a.contains('\n') {
                let i = choose|i: int| 0 <= i < a.len() && a[i] == '\n';
                assert(parts[0][i] == '\n');
            }
        }
        assert(text::without_return(a) == parts[0]);
        lines_of_a_line(a, rest);
        assert forall|i: int| 0 <= i < parts.drop_first().len() implies one_line(
            #[trigger] parts.drop_first()[i],
        ) by {
            assert(one_line(parts[i + 1]));
        }
        lines_written_with_returns(parts.drop_first());
        assert(parts == seq![parts[0]] + parts.drop_first());
    } else {
        assert(text::lines_in(text::ended(parts, "\r\n"@)) == parts);
    }
}

/// A line holds no line feed, and where no line of the text ends in CRLF and the
/// text does not stop at a bare carriage return, no line ends in one either.
pub proof fn lines_are_lines(s: Seq<char>)
    ensures
        forall|i: int|
            0 <= i < text::lines_in(s).len() ==> one_line(#[trigger] text::lines_in(s)[i]),
        !text::has(s, "\r\n"@) && (s.len() > 0 ==> s.last() != '\r') ==> as_read(text::lines_in(s))
            == text::lines_in(s),
    decreases s.len(),
{
    reveal_strlit("\r\n");
    let all = text::lines_in(s);
    if s.len() > 0 {
        let i = text::before_first(s, '\n') as int;
        before_first_is_first(s, '\n');
        if i < s.len() {
            let rest = s.skip(i + 1);
            lines_are_lines(rest);
            let first = text::without_return(s.take(i));
            assert(one_line(first)) by {
                if first.contains('\n') {
                    let j = choose|j: int| 0 <= j < first.len() && first[j] == '\n';
                    assert(s.take(i)[j] == '\n');
                }
            }
            assert forall|j: int| 0 <= j < all.len() implies one_line(#[trigger] all[j]) by {
                if j > 0 {
                    assert(all[j] == text::lines_in(rest)[j - 1]);
                }
            }
            if !text::has(s, "\r\n"@) && s.last() != '\r' {
                assert(!text::has(rest, "\r\n"@)) by {
                    if text::has(rest, "\r\n"@) {
                        let k = choose|k: int| text::occurs_at(rest, "\r\n"@, k);
                        assert(s.subrange(i + 1 + k, i + 1 + k + 2) == rest.subrange(k, k + 2));
                        assert(text::occurs_at(s, "\r\n"@, i + 1 + k));
                    }
                }
                if rest.len() > 0 {
                    assert(rest.last() == s.last());
                }
                if i > 0 && s[i - 1] == '\r' {
                    assert(s.subrange(i - 1, i + 1) == "\r\n"@);
                    assert(text::occurs_at(s, "\r\n"@, i - 1));
                }
                assert(first == s.take(i));
                assert(text::without_return(first) == first);
                assert forall|j: int| 0 <= j < all.len() implies as_read(all)[j] == all[j] by {
                    if j > 0 {
                        assert(all[j] == text::lines_in(rest)[j - 1]);
                        assert(as_read(text::lines_in(rest))[j - 1] == text::lines_in(rest)[j - 1]);
                    }
                }
                assert(as_read(all) == all);
            }
        } else {
            assert(all == seq![s]);
            assert forall|j: int| 0 <= j < all.len() implies one_line(#[trigger] all[j]) by {
                assert(all[j] == s);
            }
            if s.last() != '\r' {
                assert(as_read(all) == all);
            }
        }
    } else {
        assert(as_read(all) == all);
    }
}

/// A text that begins and ends with something other than white space has nothing to
/// trim.
pub proof fn nothing_to_trim(s: Seq<char>)
    requires
        s.len() > 0 ==> !text::is_white(s[0]) && !text::is_white(s.last()),
    ensures
        text::trimmed(s) == s,
        text::trimmed_start(s) == s,
{
}

/// Trimming leaves no white space at the ends.
pub proof fn trimmed_is_trim(s: Seq<char>)
    ensures
        text::trimmed(s).len() > 0 ==> !text::is_white(text::trimmed(s)[0]) && !text::is_white(
            text::trimmed(s).last(),
        ),
{
    trimmed_start_begins(s);
    trimmed_end_ends(text::trimmed_start(s));
}

proof fn trimmed_start_begins(s: Seq<char>)
    ensures
        text::trimmed_start(s).len() > 0 ==> !text::is_white(text::trimmed_start(s)[0]),
    decreases s.len(),
{
    if s.len() > 0 && text::is_white(s[0]) {
        trimmed_start_begins(s.drop_first());
    }
}

proof fn trimmed_end_ends(s: Seq<char>)
    ensures
        text::trimmed_end(s).len() > 0 ==> !text::is_white(text::trimmed_end(s).last()),
        text::trimmed_end(s).len() > 0 ==> text::trimmed_end(s)[0] == s[0],
    decreases s.len(),
{
    if s.len() > 0 && text::is_white(s.last()) {
        trimmed_end_ends(s.drop_last());
    }
}

/// White space put after a text is trimmed again.
pub proof fn trimming_white_after(s: Seq<char>, c: char)
    requires
        text::is_white(c),
    ensures
        text::trimmed(s.push(c)) == text::trimmed(s),
{
    trimmed_start_push(s, c);
    let t = text::trimmed_start(s);
    if t.len() > 0 {
        assert(t.push(c).drop_last() == t);
    } else {
        assert(text::trimmed_start(s.push(c)).len() == 0);
    }
}

/// Trimming the start of a text with white space after it: the white space stays
/// unless there was nothing else.
pub proof fn trimmed_start_push(s: Seq<char>, c: char)
    requires
        text::is_white(c),
    ensures
        text::trimmed_start(s).len() > 0 ==> text::trimmed_start(s.push(c)) == text::trimmed_start(
            s,
        ).push(c),
        text::trimmed_start(s).len() == 0 ==> text::trimmed_start(s.push(c)).len() == 0,
    decreases s.len(),
{
    if s.len() == 0 {
        assert(s.push(c).drop_first() == s);
    } else if text::is_white(s[0]) {
        assert(s.push(c).drop_first() == s.drop_first().push(c));
        trimmed_start_push(s.drop_first(), c);
    }
}

/// A carriage return at the end makes no difference to what is left after trimming.
pub proof fn trimming_a_return(s: Seq<char>)
    ensures
        text::trimmed(text::without_return(s)) == text::trimmed(s),
{
    if s.len() > 0 && s.last() == '\r' {
        assert(s.drop_last().push('\r') == s);
        trimming_white_after(s.drop_last(), '\r');
    }
}

/// Spelling out a character in two texts put together spells it out in each.
pub proof fn spelled_together(a: Seq<char>, b: Seq<char>, c: char, with: Seq<char>)
    ensures
        text::spelled(a + b, c, with) == text::spelled(a, c, with) + text::spelled(b, c, with),
    decreases a.len(),
{
    if a.len() == 0 {
        assert(a + b == b);
    } else {
        assert((a + b).drop_first() == a.drop_first() + b);
        spelled_together(a.drop_first(), b, c, with);
        assert(text::spelled(a + b, c, with) == text::spelled(a, c, with) + text::spelled(
            b,
            c,
            with,
        ));
    }
}

/// Lines that end in nothing but a line feed give a text without CRLF.
pub proof fn no_returns_are_written(parts: Seq<Seq<char>>)
    requires
        forall|i: int| 0 <= i < parts.len() ==> one_line(#[trigger] parts[i]),
        as_read(parts) == parts,
    ensures
        !text::has(text::ended(parts, "\n"@), "\r\n"@),
        parts.len() > 0 ==> text::ended(parts, "\n"@).len() > 0 && text::ended(
            parts,
            "\n"@,
        ).last() == '\n',
    decreases parts.len(),
{
    reveal_strlit("\n");
    reveal_strlit("\r\n");
    assert("\n"@ == seq!['\n']);
    assert("\r\n"@ == seq!['\r', '\n']);
    let s = text::ended(parts, "\n"@);
    if parts.len() > 0 {
        let init = parts.drop_last();
        let last = parts.last();
        let head = text::ended(init, "\n"@);
        assert forall|i: int| 0 <= i < init.len() implies one_line(#[trigger] init[i]) by {
            assert(one_line(parts[i]));
        }
        assert(as_read(init) == init) by {
            assert forall|i: int| 0 <= i < init.len() implies as_read(init)[i] == init[i] by {
                assert(as_read(parts)[i] == parts[i]);
            }
        }
        no_returns_are_written(init);
        assert(one_line(parts[parts.len() - 1]));
        assert(as_read(parts)[parts.len() - 1] == last);
        assert(s == head + last + seq!['\n']);
        if text::has(s, "\r\n"@) {
            let k = choose|k: int| text::occurs_at(s, "\r\n"@, k);
            let two = s.subrange(k, k + 2);
            assert(two[0] == '\r' && two[1] == '\n');
            assert(s[k] == '\r' && s[k + 1] == '\n');
            if k + 1 < head.len() {
                assert(head.subrange(k, k + 2) == two);
                assert(text::occurs_at(head, "\r\n"@, k));
            } else if k + 1 < s.len() - 1 {
                assert(last[k + 1 - head.len()] == '\n');
            } else if last.len() > 0 {
                assert(last.last() == '\r');
            } else {
                assert(head.last() == '\r');
            }
        }
    }
}

/// Lines that end in CRLF give a text with CRLF.
pub proof fn returns_are_written(parts: Seq<Seq<char>>)
    requires
        parts.len() > 0,
    ensures
        text::has(text::ended(parts, "\r\n"@), "\r\n"@),
{
    let s = text::ended(parts, "\r\n"@);
    reveal_strlit("\r\n");
    let k = s.len() - 2;
    assert(s.subrange(k, k + 2) == "\r\n"@);
    assert(text::occurs_at(s, "\r\n"@, k));
}

/// A number in decimal stands for itself.
pub proof fn decimal_is_read_back(n: nat)
    ensures
        text::digits_value(text::decimal(n)) == n,
        text::all_digits(text::decimal(n)),
        text::decimal(n).len() > 0,
    decreases n,
{
    let s = text::decimal(n);
    if n < 10 {
        assert(s =~= seq![text::digit(n)]);
        assert(s.drop_last() =~= seq![]);
        assert(text::digits_value(s.drop_last()) == 0);
        assert(text::digit_value(text::digit(n)) == n);
    } else {
        decimal_is_read_back(n / 10);
        assert(s.drop_last() =~= text::decimal(n / 10));
        assert(text::digit_value(text::digit(n % 10)) == n % 10);
        assert forall|i: int| 0 <= i < s.len() implies text::is_digit(#[trigger] s[i]) by {
            if i < s.len() - 1 {
                assert(s[i] == text::decimal(n / 10)[i]);
            }
        }
    }
}

/// What stands in front and is not white stays there when the ends are trimmed.
pub proof fn first_stays_in_front(s: Seq<char>)
    requires
        s.len() > 0,
        !text::is_white(s[0]),
    ensures
        text::trimmed(s).len() > 0 ==> text::trimmed(s)[0] == s[0],
{
    assert(text::trimmed_start(s) == s);
    trimmed_end_ends(s);
}

/// White space in front is trimmed away.
pub proof fn white_in_front(s: Seq<char>, c: char)
    requires
        text::is_white(c),
    ensures
        text::trimmed(seq![c] + s) == text::trimmed(s),
{
    assert((seq![c] + s).drop_first() =~= s);
    assert((seq![c] + s)[0] == c);
}

} // verus!
