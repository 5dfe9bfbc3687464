//! What the operations on text come to, character by character.

use vstd::prelude::*;

use crate::text;
use crate::text_lemmas;

verus! {

broadcast use vstd::string::group_string_axioms;

/// Lower case changes the letters from A to Z, each to its own small one, and nothing
/// else.
pub proof fn lower_case_changes_capitals_only(s: Seq<char>, i: int)
    requires
        0 <= i < s.len(),
    ensures
        text::lowercased(s).len() == s.len(),
        'A' <= s[i] <= 'Z' ==> text::lowercased(s)[i] as int == s[i] as int + 32,
        !('A' <= s[i] <= 'Z') ==> text::lowercased(s)[i] == s[i],
{
}

/// A text has another in it exactly where it is the other with something before and
/// something after.
pub proof fn having_is_being_in_the_middle(s: Seq<char>, needle: Seq<char>)
    ensures
        text::has(s, needle) <==> exists|a: Seq<char>, b: Seq<char>|
            s == #[trigger] ((a + needle) + b),
        forall|a: Seq<char>, b: Seq<char>| text::has(#[trigger] ((a + needle) + b), needle),
{
    assert forall|a: Seq<char>, b: Seq<char>| text::has(#[trigger] ((a + needle) + b), needle) by {
        let t = (a + needle) + b;
        assert(t.subrange(a.len() as int, (a.len() + needle.len()) as int) =~= needle);
        assert(text::occurs_at(t, needle, a.len() as int));
    }
    if text::has(s, needle) {
        let i = choose|i: int| text::occurs_at(s, needle, i);
        let a = s.take(i);
        let b = s.skip(i + needle.len());
        assert(s =~= (a + needle) + b);
    }
}

/// A text begins with what it is made of first, and ends with what it is made of last.
pub proof fn beginnings_and_ends(a: Seq<char>, b: Seq<char>, other: Seq<char>)
    ensures
        text::begins(a + b, a),
        text::finishes(a + b, b),
        text::begins(other, a) ==> other == a + other.skip(a.len() as int),
        text::finishes(other, b) ==> other == other.take(other.len() - b.len()) + b,
{
    assert((a + b).take(a.len() as int) =~= a);
    assert((a + b).skip(a.len() as int) =~= b);
    if text::begins(other, a) {
        assert(other =~= a + other.skip(a.len() as int));
    }
    if text::finishes(other, b) {
        assert(other =~= other.take(other.len() - b.len()) + b);
    }
}

/// Of the plain characters the space, the tab, and what ends lines or pages are white
/// space, and nothing else is.
pub proof fn plain_white_space(c: char)
    requires
        c as int <= 127,
    ensures
        text::is_white(c) <==> c == ' ' || c == '\t' || c == '\n' || c == '\r' || c == '\u{b}' || c
            == '\u{c}',
{
}

/// Trimming takes white space off both ends, all of it, and nothing else: what is between
/// stays as it was.
pub proof fn trimming_takes_the_ends(s: Seq<char>)
    ensures
        exists|a: Seq<char>, b: Seq<char>|
            s == #[trigger] ((a + text::trimmed(s)) + b) && all_white(a) && all_white(b),
        text::trimmed(s).len() > 0 ==> !text::is_white(text::trimmed(s)[0]) && !text::is_white(
            text::trimmed(s).last(),
        ),
{
    text_lemmas::trimmed_is_trim(s);
    let a = front(s);
    front_is_white(s);
    let t = text::trimmed_start(s);
    let b = back(t);
    back_is_white(t);
    assert(s =~= (a + text::trimmed(s)) + b);
}

/// Whether a text is white space throughout.
pub open spec fn all_white(s: Seq<char>) -> bool {
    forall|i: int| 0 <= i < s.len() ==> text::is_white(#[trigger] s[i])
}

spec fn front(s: Seq<char>) -> Seq<char>
    decreases s.len(),
{
    if s.len() > 0 && text::is_white(s[0]) {
        seq![s[0]] + front(s.drop_first())
    } else {
        seq![]
    }
}

spec fn back(s: Seq<char>) -> Seq<char>
    decreases s.len(),
{
    if s.len() > 0 && text::is_white(s.last()) {
        back(s.drop_last()).push(s.last())
    } else {
        seq![]
    }
}

proof fn front_is_white(s: Seq<char>)
    ensures
        all_white(front(s)),
        s == front(s) + text::trimmed_start(s),
    decreases s.len(),
{
    if s.len() > 0 && text::is_white(s[0]) {
        front_is_white(s.drop_first());
        assert(s =~= seq![s[0]] + s.drop_first());
        assert forall|i: int| 0 <= i < front(s).len() implies text::is_white(
            #[trigger] front(s)[i],
        ) by {
            if i > 0 {
                assert(front(s)[i] == front(s.drop_first())[i - 1]);
            }
        }
        assert(s =~= front(s) + text::trimmed_start(s));
    } else {
        assert(s =~= front(s) + s);
    }
}

proof fn back_is_white(s: Seq<char>)
    ensures
        all_white(back(s)),
        s == text::trimmed_end(s) + back(s),
    decreases s.len(),
{
    if s.len() > 0 && text::is_white(s.last()) {
        back_is_white(s.drop_last());
        assert(s =~= s.drop_last().push(s.last()));
        assert forall|i: int| 0 <= i < back(s).len() implies text::is_white(
            #[trigger] back(s)[i],
        ) by {
            if i < back(s).len() - 1 {
                assert(back(s)[i] == back(s.drop_last())[i]);
            }
        }
        assert(s =~= text::trimmed_end(s) + back(s));
    } else {
        assert(s =~= s + back(s));
    }
}

/// A number is written with the digits from 0 to 9, the last one for what is left over of
/// tens, and with no zero in front.
pub proof fn numbers_are_written_in_tens(n: nat, d: nat)
    requires
        d < 10,
    ensures
        n > 0 ==> text::decimal(n * 10 + d) == text::decimal(n).push(text::decimal(d)[0]),
        text::decimal(d).len() == 1,
        text::decimal(d)[0] as int == 48 + d,
        n > 0 ==> text::decimal(n)[0] != '0',
    decreases n,
{
    if n > 0 {
        assert((n * 10 + d) / 10 == n && (n * 10 + d) % 10 == d);
        if n >= 10 {
            numbers_are_written_in_tens(n / 10, n % 10);
            assert(text::decimal(n)[0] == text::decimal(n / 10)[0]);
        }
    }
}

/// A number that was written out is read as what it was, with a plus sign or without, and
/// nothing that holds another character is read as one.
pub proof fn numbers_are_read(n: nat, s: Seq<char>)
    ensures
        n <= u64::MAX ==> text::number(text::decimal(n)) == Some(n),
        n <= u64::MAX ==> text::number(seq!['+'] + text::decimal(n)) == Some(n),
        n > u64::MAX ==> text::number(text::decimal(n)) is None,
        s.len() == 0 ==> text::number(s) is None,
        (exists|i: int| 0 < i < s.len() && !('0' <= #[trigger] s[i] <= '9')) ==> text::number(s)
            is None,
        s.len() > 0 && s[0] != '+' && !('0' <= s[0] <= '9') ==> text::number(s) is None,
{
    text_lemmas::decimal_is_read_back(n);
    let t = text::decimal(n);
    assert(text::is_digit(t[0]));
    assert((seq!['+'] + t).drop_first() =~= t);
    let digits = if s.len() > 0 && s[0] == '+' {
        s.drop_first()
    } else {
        s
    };
    if exists|i: int| 0 < i < s.len() && !('0' <= #[trigger] s[i] <= '9') {
        let i = choose|i: int| 0 < i < s.len() && !('0' <= #[trigger] s[i] <= '9');
        if s[0] == '+' {
            assert(!text::is_digit(digits[i - 1]));
        } else {
            assert(!text::is_digit(digits[i]));
        }
    }
    if s.len() > 0 && s[0] != '+' && !('0' <= s[0] <= '9') {
        assert(!text::is_digit(digits[0]));
    }
}

/// Replacing puts the replacement where what is looked for stands first, and goes on after
/// it; a text without it stays as it is.
pub proof fn replacing_goes_from_left_to_right(
    a: Seq<char>,
    needle: Seq<char>,
    b: Seq<char>,
    with: Seq<char>,
)
    requires
        needle.len() > 0,
        forall|i: int| 0 <= i < a.len() ==> !#[trigger] text::occurs_at(a + needle + b, needle, i),
    ensures
        text::replaced(a + needle + b, needle, with) == a + with + text::replaced(b, needle, with),
    decreases a.len(),
{
    let s = a + needle + b;
    if a.len() == 0 {
        assert(s.take(needle.len() as int) =~= needle);
        assert(s.skip(needle.len() as int) =~= b);
        assert(a + with + text::replaced(b, needle, with) =~= with + text::replaced(
            b,
            needle,
            with,
        ));
    } else {
        if text::begins(s, needle) {
            assert(s.subrange(0, needle.len() as int) =~= s.take(needle.len() as int));
            assert(text::occurs_at(s, needle, 0));
        }
        let rest = a.drop_first();
        assert(s.drop_first() =~= rest + needle + b);
        assert forall|i: int| 0 <= i < rest.len() implies !#[trigger] text::occurs_at(
            rest + needle + b,
            needle,
            i,
        ) by {
            if text::occurs_at(rest + needle + b, needle, i) {
                assert(s.subrange(i + 1, i + 1 + needle.len()) =~= (rest + needle + b).subrange(
                    i,
                    i + needle.len(),
                ));
                assert(text::occurs_at(s, needle, i + 1));
            }
        }
        replacing_goes_from_left_to_right(rest, needle, b, with);
        assert(seq![s[0]] + (rest + with + text::replaced(b, needle, with)) =~= a + with
            + text::replaced(b, needle, with));
    }
}

/// A text without what is looked for stays as it is.
pub proof fn replacing_nothing(s: Seq<char>, needle: Seq<char>, with: Seq<char>)
    requires
        !text::has(s, needle),
    ensures
        text::replaced(s, needle, with) == s,
    decreases s.len(),
{
    if s.len() > 0 && needle.len() > 0 {
        if text::begins(s, needle) {
            assert(s.subrange(0, needle.len() as int) =~= s.take(needle.len() as int));
            assert(text::occurs_at(s, needle, 0));
        }
        let rest = s.drop_first();
        if text::has(rest, needle) {
            let i = choose|i: int| text::occurs_at(rest, needle, i);
            assert(s.subrange(i + 1, i + 1 + needle.len()) =~= rest.subrange(
                i,
                i + needle.len(),
            ));
            assert(text::occurs_at(s, needle, i + 1));
        }
        replacing_nothing(rest, needle, with);
        assert(seq![s[0]] + rest =~= s);
    }
}

/// A text is cut at the first place where a sign stands: what is before it does not have
/// the sign, and the rest is as it was. A text without the sign is not cut.
pub proof fn texts_are_cut_at_the_first_sign(a: Seq<char>, c: char, b: Seq<char>)
    requires
        forall|i: int| 0 <= i < a.len() ==> #[trigger] a[i] != c,
    ensures
        text::cut(a + seq![c] + b, c) == Some((a, b)),
        text::cut(a, c) is None,
{
    assert(!a.contains(c));
    let whole = a + seq![c] + b;
    text_lemmas::before_first_after(a, c, b);
    text_lemmas::before_first_is_first(a, c);
    assert(whole.take(a.len() as int) =~= a);
    assert(whole.skip(a.len() as int + 1) =~= b);
}

/// A return at the end of a line is not part of it, and nothing else is taken off.
pub proof fn returns_are_taken_off(s: Seq<char>, c: char)
    ensures
        text::without_return(s.push('\r')) == s,
        c != '\r' ==> text::without_return(s.push(c)) == s.push(c),
        text::without_return(seq![]).len() == 0,
{
    assert(s.push('\r').drop_last() =~= s);
}

/// A text is read line by line, each without its line feed and a return before it; what
/// stands behind the last line feed is a line where it is anything.
pub proof fn lines_are_read_one_by_one(line: Seq<char>, rest: Seq<char>)
    requires
        forall|i: int| 0 <= i < line.len() ==> #[trigger] line[i] != '\n',
        line.len() > 0 ==> line.last() != '\r',
    ensures
        text::lines_in(line + seq!['\n'] + rest) == seq![line] + text::lines_in(rest),
        text::lines_in(line + seq!['\r', '\n'] + rest) == seq![line] + text::lines_in(rest),
        text::lines_in(seq![]).len() == 0,
{
    assert(!line.contains('\n'));
    text_lemmas::lines_of_a_line(line, rest);
    if line.len() > 0 {
        returns_are_taken_off(line.drop_last(), line.last());
        assert(line.drop_last().push(line.last()) =~= line);
    } else {
        returns_are_taken_off(line, ' ');
        assert(text::without_return(line) =~= line);
    }
    let ended = line.push('\r');
    if ended.contains('\n') {
        let k = ended.index_of('\n');
        assert(ended[k] == '\n');
        if k < line.len() {
            assert(line[k] == '\n');
        }
    }
    text_lemmas::lines_of_a_line(ended, rest);
    returns_are_taken_off(line, ' ');
    assert(ended + seq!['\n'] + rest =~= line + seq!['\r', '\n'] + rest);
}

} // verus!
