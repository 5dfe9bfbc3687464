//! Telling a reimplementation where the original game's data is.
//!
//! These are the games' own configuration files. Somebody has their key
//! bindings, their volume and their language in there, so setting one value
//! means editing one line and leaving the rest of the file exactly as it was,
//! not writing a file out from a template.

use vstd::prelude::*;

use crate::dirs::Dirs;
use crate::game::GameId;
use crate::gamedata::OriginalGame;
use crate::path;
use crate::path::join;
use crate::search;
use crate::text;
use crate::text::{
    chars_of, contains, copied, end_each, extend, lines, part, replace, same_chars, spell, split_once, starts_with,
    text_of, trim, trim_start,
};
use crate::text_laws;
use crate::text_lemmas;

verus! {

broadcast use vstd::string::group_string_axioms;

// ---------------------------------------------------------------------------
// What a configuration says
// ---------------------------------------------------------------------------

/// The line ending a text already uses.
pub open spec fn ending_of(text: Seq<char>) -> Seq<char> {
    if text::has(text, "\r\n"@) {
        "\r\n"@
    } else {
        "\n"@
    }
}

/// The section a line opens, if it is a heading.
pub open spec fn heading(line: Seq<char>) -> Option<Seq<char>> {
    let t = text::trimmed(line);
    if t.len() >= 2 && t[0] == '[' && t.last() == ']' {
        Some(text::trimmed(t.subrange(1, t.len() - 1)))
    } else {
        None
    }
}

/// The section that line `i` stands in: the last heading above it.
pub open spec fn section_at(lines: Seq<Seq<char>>, i: int) -> Option<Seq<char>>
    decreases i,
{
    if i <= 0 {
        None
    } else if heading(lines[i - 1]) is Some {
        heading(lines[i - 1])
    } else {
        section_at(lines, i - 1)
    }
}

/// Whether a line assigns `key`, whatever the spacing around the equals sign.
pub open spec fn is_assignment(line: Seq<char>, key: Seq<char>) -> bool {
    match text::cut(text::trimmed(line), '=') {
        Some((name, _)) => text::trimmed(name) == key,
        None => false,
    }
}

/// Whether line `i` gives `key` its value in `section`.
pub open spec fn assigns(
    lines: Seq<Seq<char>>,
    section: Seq<char>,
    key: Seq<char>,
    i: int,
) -> bool {
    heading(lines[i]) is None && section_at(lines, i) == Some(section) && is_assignment(
        lines[i],
        key,
    )
}

/// The line that gives `key` its value in `section`, or the number of lines.
pub open spec fn assignment(lines: Seq<Seq<char>>, section: Seq<char>, key: Seq<char>) -> int {
    search::first_that(|i: int| assigns(lines, section, key, i), 0, lines.len() as int)
}

/// Whether line `i` is a heading that ends `section`.
pub open spec fn leaves(lines: Seq<Seq<char>>, section: Seq<char>, i: int) -> bool {
    heading(lines[i]) is Some && section_at(lines, i) == Some(section)
}

/// The heading that ends `section`, or the number of lines.
pub open spec fn section_end(lines: Seq<Seq<char>>, section: Seq<char>) -> int {
    search::first_that(|i: int| leaves(lines, section, i), 0, lines.len() as int)
}

/// A value as it stands between double quotes.
pub open spec fn escaped(value: Seq<char>) -> Seq<char> {
    text::spelled(text::spelled(value, '\\', "\\\\"@), '"', "\\\""@)
}

/// The line that assigns `key` in an INI file.
pub open spec fn ini_line(key: Seq<char>, value: Seq<char>) -> Seq<char> {
    key + " = \""@ + escaped(value) + "\""@
}

/// The lines of an INI file once `key` has been set in `section`: the line that
/// assigned it is replaced; where there was none, the assignment goes to the end of
/// the section, and where there was no such section, one is opened at the end.
pub open spec fn with_ini_key(
    lines: Seq<Seq<char>>,
    section: Seq<char>,
    key: Seq<char>,
    value: Seq<char>,
) -> Seq<Seq<char>> {
    let n = lines.len() as int;
    let line = ini_line(key, value);
    let at = assignment(lines, section, key);
    let end = section_end(lines, section);
    if at < n {
        lines.update(at, line)
    } else if end < n {
        lines.insert(end, line)
    } else if section_at(lines, n) == Some(section) {
        lines.push(line)
    } else {
        let above = if n > 0 {
            lines.push(seq![])
        } else {
            lines
        };
        above.push("["@ + section + "]"@).push(line)
    }
}

/// An INI file once `key` has been set in `section`.
pub open spec fn ini_set(
    text: Seq<char>,
    section: Seq<char>,
    key: Seq<char>,
    value: Seq<char>,
) -> Seq<char> {
    text::ended(with_ini_key(text::lines_in(text), section, key, value), ending_of(text))
}

/// What stands between double quotes, where something does; all of it otherwise.
pub open spec fn unquoted(value: Seq<char>) -> Seq<char> {
    if value.len() >= 2 && value[0] == '"' && value.last() == '"' {
        value.subrange(1, value.len() - 1)
    } else {
        value
    }
}

/// Text with its escapes resolved: a backslash gives way to the character after
/// it, and stands for itself at the end.
pub open spec fn resolved(s: Seq<char>) -> Seq<char>
    decreases s.len(),
{
    if s.len() == 0 {
        seq![]
    } else if s[0] == '\\' && s.len() > 1 {
        seq![s[1]] + resolved(s.skip(2))
    } else {
        seq![s[0]] + resolved(s.drop_first())
    }
}

/// The value a quoted text stands for.
pub open spec fn unescaped(value: Seq<char>) -> Seq<char> {
    resolved(unquoted(value))
}

/// What an assignment assigns, as it stands in the file.
pub open spec fn assigned(line: Seq<char>) -> Seq<char> {
    match text::cut(text::trimmed(line), '=') {
        Some((_, value)) => text::trimmed(value),
        None => seq![],
    }
}

/// The value of `key` in `section`, if the text assigns it.
pub open spec fn ini_value(
    text: Seq<char>,
    section: Seq<char>,
    key: Seq<char>,
) -> Option<Seq<char>> {
    let lines = text::lines_in(text);
    let at = assignment(lines, section, key);
    if at < lines.len() {
        Some(unescaped(assigned(lines[at])))
    } else {
        None
    }
}

/// Whether a line is the top level `key`. The same name indented under something
/// else is a different setting.
pub open spec fn is_top_level(line: Seq<char>, key: Seq<char>) -> bool {
    text::begins(line, key) && text::begins(text::trimmed_start(line.skip(key.len() as int)), seq![':'])
}

/// The line of the top level `key`, or the number of lines.
pub open spec fn top_level(lines: Seq<Seq<char>>, key: Seq<char>) -> int {
    search::first_that(|i: int| is_top_level(lines[i], key), 0, lines.len() as int)
}

/// The line that sets `key` in a YAML file.
pub open spec fn yaml_line(key: Seq<char>, value: Seq<char>) -> Seq<char> {
    key + ": \""@ + escaped(value) + "\""@
}

/// The lines of a YAML file once the top level `key` has been set: in its place, or
/// at the top where it was not set.
pub open spec fn with_yaml_key(
    lines: Seq<Seq<char>>,
    key: Seq<char>,
    value: Seq<char>,
) -> Seq<Seq<char>> {
    let line = yaml_line(key, value);
    let at = top_level(lines, key);
    if at < lines.len() {
        lines.update(at, line)
    } else {
        lines.insert(0, line)
    }
}

/// A YAML file once the top level `key` has been set.
pub open spec fn yaml_set(text: Seq<char>, key: Seq<char>, value: Seq<char>) -> Seq<char> {
    text::ended(with_yaml_key(text::lines_in(text), key, value), ending_of(text))
}

/// The value a YAML scalar stands for.
pub open spec fn yaml_unescaped(value: Seq<char>) -> Seq<char> {
    if value.len() >= 2 && value[0] == '"' && value.last() == '"' {
        unescaped(value)
    } else if value.len() >= 2 && value[0] == '\'' && value.last() == '\'' {
        text::replaced(value.subrange(1, value.len() - 1), "''"@, "'"@)
    } else {
        value
    }
}

/// What stands after the colon of a line.
pub open spec fn after_colon(line: Seq<char>) -> Seq<char> {
    match text::cut(line, ':') {
        Some((_, value)) => text::trimmed(value),
        None => seq![],
    }
}

/// The value of the top level `key`, if the text sets it.
pub open spec fn yaml_value(text: Seq<char>, key: Seq<char>) -> Option<Seq<char>> {
    let lines = text::lines_in(text);
    let at = top_level(lines, key);
    if at < lines.len() {
        Some(yaml_unescaped(after_colon(lines[at])))
    } else {
        None
    }
}

// ---------------------------------------------------------------------------
// Reading and setting one key
// ---------------------------------------------------------------------------

/// The line ending the file already uses, so an edit does not leave a file with
/// two kinds.
pub fn line_ending(text: &str) -> (r: &'static str)
    ensures
        r@ == ending_of(text@),
{
    let crlf: &'static str = "\r\n";
    if contains(&chars_of(text), &chars_of(crlf)) {
        crlf
    } else {
        "\n"
    }
}

/// The section a line opens, if it is a heading.
fn heading_of(line: &[char]) -> (r: Option<Vec<char>>)
    ensures
        r is Some <==> heading(line@) is Some,
        r matches Some(name) ==> heading(line@) == Some(name@),
{
    let t: Vec<char> = trim(line);
    if t.len() >= 2 && t[0] == '[' && t[t.len() - 1] == ']' {
        Some(trim(&part(&t, 1, t.len() - 1)))
    } else {
        None
    }
}

/// Whether a line assigns `key`, allowing for the spacing people and programs put
/// around the equals sign.
pub fn is_key_line(line: &[char], key: &[char]) -> (r: bool)
    ensures
        r == is_assignment(line@, key@),
{
    match split_once(&trim(line), '=') {
        Some((name, _)) => same_chars(&trim(&name), key),
        None => false,
    }
}

/// Where a file says something about a key in a section.
struct Place {
    /// The line that assigns the key, if one does.
    at: Option<usize>,
    /// The heading that ends the section, if one does.
    end: Option<usize>,
    /// Whether the file ends inside the section.
    open: bool,
}

/// Looks for `key` in `section`.
fn find_ini_key(lines: &Vec<Vec<char>>, section: &[char], key: &[char]) -> (r: Place)
    ensures
        ({
            let rows = text::rows(lines@);
            let n = rows.len();
            &&& r.at matches Some(k) ==> k < n && assignment(rows, section@, key@) == k
            &&& r.at is None ==> assignment(rows, section@, key@) == n
            &&& r.end matches Some(k) ==> k < n && section_end(rows, section@) == k
            &&& r.end is None ==> section_end(rows, section@) == n
            &&& r.open == (section_at(rows, n as int) == Some(section@))
        }),
{
    let ghost rows = text::rows(lines@);
    let ghost p = |i: int| assigns(rows, section@, key@, i);
    let ghost q = |i: int| leaves(rows, section@, i);
    let mut at: Option<usize> = None;
    let mut end: Option<usize> = None;
    let mut inside: bool = false;
    let mut i: usize = 0;
    while i < lines.len()
        invariant
            i <= lines.len(),
            rows == text::rows(lines@),
            p == (|i: int| assigns(rows, section@, key@, i)),
            q == (|i: int| leaves(rows, section@, i)),
            inside == (section_at(rows, i as int) == Some(section@)),
            at is None ==> forall|j: int| 0 <= j < i ==> !#[trigger] p(j),
            at matches Some(k) ==> k < i && p(k as int) && forall|j: int|
                0 <= j < k ==> !#[trigger] p(j),
            end is None ==> forall|j: int| 0 <= j < i ==> !#[trigger] q(j),
            end matches Some(k) ==> k < i && q(k as int) && forall|j: int|
                0 <= j < k ==> !#[trigger] q(j),
        decreases lines.len() - i,
    {
        assert(rows[i as int] == lines@[i as int]@);
        match heading_of(&lines[i]) {
            Some(name) => {
                if inside && end.is_none() {
                    end = Some(i);
                }
                inside = same_chars(&name, section);
            },
            None => {
                if inside && at.is_none() && is_key_line(&lines[i], key) {
                    at = Some(i);
                }
            },
        }
        i += 1;
    }
    proof {
        let n = rows.len() as int;
        search::first_that_is(
            p,
            0,
            n,
            match at {
                Some(k) => k as int,
                None => n,
            },
        );
        search::first_that_is(
            q,
            0,
            n,
            match end {
                Some(k) => k as int,
                None => n,
            },
        );
    }
    Place { at, end, open: inside }
}

/// A value as it stands between double quotes.
pub fn escape_ini(value: &[char]) -> (out: Vec<char>)
    ensures
        out@ == escaped(value@),
{
    spell(&spell(value, '\\', &chars_of("\\\\")), '"', &chars_of("\\\""))
}

/// The value a quoted text stands for.
pub fn unescape_ini(value: &[char]) -> (out: Vec<char>)
    ensures
        out@ == unescaped(value@),
{
    let s: Vec<char> = if value.len() >= 2 && value[0] == '"' && value[value.len() - 1] == '"' {
        part(value, 1, value.len() - 1)
    } else {
        copied(value)
    };
    let mut out: Vec<char> = Vec::new();
    let mut i: usize = 0;
    assert(s@.skip(0) == s@);
    while i < s.len()
        invariant
            i <= s.len(),
            resolved(s@) == out@ + resolved(s@.skip(i as int)),
        decreases s.len() - i,
    {
        let ghost rest = s@.skip(i as int);
        let ghost before = out@;
        if s[i] == '\\' && i + 1 < s.len() {
            out.push(s[i + 1]);
            proof {
                assert(rest.skip(2) == s@.skip(i + 2));
                assert(out@ + resolved(s@.skip(i + 2)) == before + (seq![rest[1]] + resolved(
                    s@.skip(i + 2),
                )));
            }
            i += 2;
        } else {
            out.push(s[i]);
            proof {
                assert(rest.drop_first() == s@.skip(i + 1));
                assert(out@ + resolved(s@.skip(i + 1)) == before + (seq![rest[0]] + resolved(
                    s@.skip(i + 1),
                )));
            }
            i += 1;
        }
    }
    assert(resolved(s@.skip(i as int)) == Seq::<char>::empty());
    out
}

/// The line `key`, `between`, the value between quotes.
fn quoted_line(key: &str, between: &str, value: &str) -> (out: Vec<char>)
    ensures
        out@ == key@ + between@ + escaped(value@) + "\""@,
{
    let mut out: Vec<char> = chars_of(key);
    extend(&mut out, &chars_of(between));
    extend(&mut out, &escape_ini(&chars_of(value)));
    extend(&mut out, &chars_of("\""));
    out
}

/// Sets `key` in `section`, leaving every other line untouched.
pub fn set_ini_key(text: &str, section: &str, key: &str, value: &str) -> (out: String)
    ensures
        out@ == ini_set(text@, section@, key@, value@),
{
    let ending: Vec<char> = chars_of(line_ending(text));
    let line: Vec<char> = quoted_line(key, " = \"", value);
    let mut out: Vec<Vec<char>> = lines(&chars_of(text));
    let ghost rows = text::rows(out@);
    let place: Place = find_ini_key(&out, &chars_of(section), &chars_of(key));
    match place.at {
        Some(at) => {
            out.set(at, line);
            assert(text::rows(out@) =~= rows.update(at as int, line@));
        },
        None => match place.end {
            Some(end) => {
                out.insert(end, line);
                assert(text::rows(out@) =~= rows.insert(end as int, line@));
            },
            None => {
                if place.open {
                    out.push(line);
                    assert(text::rows(out@) =~= rows.push(line@));
                } else {
                    if out.len() > 0 {
                        out.push(Vec::new());
                        assert(text::rows(out@) =~= rows.push(Seq::<char>::empty()));
                    }
                    let ghost above = text::rows(out@);
                    let mut name: Vec<char> = chars_of("[");
                    extend(&mut name, &chars_of(section));
                    extend(&mut name, &chars_of("]"));
                    out.push(name);
                    out.push(line);
                    assert(text::rows(out@) =~= above.push(name@).push(line@));
                }
            },
        },
    }
    text_of(&end_each(&out, &ending))
}

/// Reads `key` in `section`.
pub fn read_ini_key(text: &str, section: &str, key: &str) -> (r: Option<String>)
    ensures
        text::opt_view(r) == ini_value(text@, section@, key@),
{
    let all: Vec<Vec<char>> = lines(&chars_of(text));
    let place: Place = find_ini_key(&all, &chars_of(section), &chars_of(key));
    match place.at {
        Some(at) => {
            proof {
                assert(text::rows(all@)[at as int] == all@[at as int]@);
            }
            let value: Vec<char> = match split_once(&trim(&all[at]), '=') {
                Some((_, value)) => trim(&value),
                None => Vec::new(),
            };
            Some(text_of(&unescape_ini(&value)))
        },
        None => None,
    }
}

/// Whether a line is the top level `key`.
pub fn is_top_level_key(line: &[char], key: &[char]) -> (r: bool)
    ensures
        r == is_top_level(line@, key@),
{
    if !starts_with(line, key) {
        return false;
    }
    assert(line@.subrange(key@.len() as int, line@.len() as int) == line@.skip(key@.len() as int));
    let rest: Vec<char> = trim_start(&part(line, key.len(), line.len()));
    proof {
        if rest@.len() > 0 && rest@[0] == ':' {
            assert(rest@.take(1) == seq![':']);
        } else if rest@.len() > 0 {
            assert(rest@.take(1)[0] != seq![':'][0]);
        }
    }
    rest.len() > 0 && rest[0] == ':'
}

/// Looks for the top level `key`.
fn find_yaml_key(lines: &Vec<Vec<char>>, key: &[char]) -> (r: usize)
    ensures
        r == top_level(text::rows(lines@), key@),
        r <= lines@.len(),
{
    let ghost rows = text::rows(lines@);
    let ghost p = |i: int| is_top_level(rows[i], key@);
    let mut i: usize = 0;
    while i < lines.len() && !is_top_level_key(&lines[i], key)
        invariant
            i <= lines.len(),
            rows == text::rows(lines@),
            p == (|i: int| is_top_level(rows[i], key@)),
            forall|j: int| 0 <= j < i ==> !#[trigger] p(j),
        decreases lines.len() - i,
    {
        i += 1;
    }
    proof {
        search::first_that_is(p, 0, rows.len() as int, i as int);
    }
    i
}

/// Sets a top level `key`, leaving every other line untouched.
pub fn set_yaml_key(text: &str, key: &str, value: &str) -> (out: String)
    ensures
        out@ == yaml_set(text@, key@, value@),
{
    let ending: Vec<char> = chars_of(line_ending(text));
    let line: Vec<char> = quoted_line(key, ": \"", value);
    let mut out: Vec<Vec<char>> = lines(&chars_of(text));
    let ghost rows = text::rows(out@);
    let at: usize = find_yaml_key(&out, &chars_of(key));
    if at < out.len() {
        out.set(at, line);
        assert(text::rows(out@) =~= rows.update(at as int, line@));
    } else {
        out.insert(0, line);
        assert(text::rows(out@) =~= rows.insert(0, line@));
    }
    text_of(&end_each(&out, &ending))
}

/// The value a YAML scalar stands for.
pub fn unescape_yaml(value: &[char]) -> (out: Vec<char>)
    ensures
        out@ == yaml_unescaped(value@),
{
    if value.len() >= 2 && value[0] == '"' && value[value.len() - 1] == '"' {
        return unescape_ini(value);
    }
    if value.len() >= 2 && value[0] == '\'' && value[value.len() - 1] == '\'' {
        let two: Vec<char> = chars_of("''");
        proof {
            reveal_strlit("''");
        }
        return replace(&part(value, 1, value.len() - 1), &two, &chars_of("'"));
    }
    copied(value)
}

/// Reads the top level `key`.
pub fn read_yaml_key(text: &str, key: &str) -> (r: Option<String>)
    ensures
        text::opt_view(r) == yaml_value(text@, key@),
{
    let all: Vec<Vec<char>> = lines(&chars_of(text));
    let at: usize = find_yaml_key(&all, &chars_of(key));
    if at < all.len() {
        assert(text::rows(all@)[at as int] == all@[at as int]@);
        let value: Vec<char> = match split_once(&all[at], ':') {
            Some((_, value)) => trim(&value),
            None => Vec::new(),
        };
        assert(value@ == after_colon(all@[at as int]@));
        Some(text_of(&unescape_yaml(&value)))
    } else {
        None
    }
}

// ---------------------------------------------------------------------------
// What holds of every file
// ---------------------------------------------------------------------------

/// Whether a key can be told apart in an INI file: it stays on one line, and has
/// neither an equals sign nor white space around it.
pub open spec fn ini_key_fits(key: Seq<char>) -> bool {
    text_lemmas::one_line(key) && !key.contains('=') && text::trimmed(key) == key
}

/// Whether a section can be told apart: it stays on one line, with no white space
/// around it.
pub open spec fn section_fits(section: Seq<char>) -> bool {
    text_lemmas::one_line(section) && text::trimmed(section) == section
}

/// Whether a key can be told apart at the top level of a YAML file.
pub open spec fn yaml_key_fits(key: Seq<char>) -> bool {
    text_lemmas::one_line(key) && !key.contains(':')
}

/// Whether a text stops at a carriage return that nothing in it says is part of a
/// line ending.
pub open spec fn stops_at_a_return(text: Seq<char>) -> bool {
    !text::has(text, "\r\n"@) && text.len() > 0 && text.last() == '\r'
}

/// A character as it stands between double quotes.
spec fn escaped_char(c: char) -> Seq<char> {
    if c == '\\' || c == '"' {
        seq!['\\', c]
    } else {
        seq![c]
    }
}

proof fn escaped_one_by_one(value: Seq<char>)
    ensures
        value.len() == 0 ==> escaped(value) == Seq::<char>::empty(),
        value.len() > 0 ==> escaped(value) == escaped_char(value[0]) + escaped(value.drop_first()),
{
    reveal_strlit("\\\\");
    reveal_strlit("\\\"");
    assert("\\\\"@ == seq!['\\', '\\']);
    assert("\\\""@ == seq!['\\', '"']);
    if value.len() > 0 {
        let c = value[0];
        let rest = text::spelled(value.drop_first(), '\\', "\\\\"@);
        let head = if c == '\\' {
            "\\\\"@
        } else {
            seq![c]
        };
        text_lemmas::spelled_together(head, rest, '"', "\\\""@);
        assert(text::spelled(Seq::<char>::empty(), '"', "\\\""@) == Seq::<char>::empty());
        if c == '\\' {
            assert(head.drop_first() == seq!['\\']);
            assert(head.drop_first().drop_first() == Seq::<char>::empty());
            assert(text::spelled(head.drop_first(), '"', "\\\""@) == seq!['\\']);
            assert(text::spelled(head, '"', "\\\""@) == escaped_char(c));
        } else {
            assert(head.drop_first() == Seq::<char>::empty());
            assert(text::spelled(head, '"', "\\\""@) == escaped_char(c));
        }
    }
}

/// Escaping loses nothing: what was escaped is got back.
pub proof fn escaping_round_trips(value: Seq<char>)
    ensures
        resolved(escaped(value)) == value,
    decreases value.len(),
{
    escaped_one_by_one(value);
    if value.len() > 0 {
        let rest = value.drop_first();
        escaping_round_trips(rest);
        let s = escaped(value);
        if escaped_char(value[0]).len() == 2 {
            assert(s.skip(2) == escaped(rest));
        } else {
            assert(s.drop_first() == escaped(rest));
        }
        assert(seq![value[0]] + rest == value);
    }
}

proof fn escaping_stays_on_one_line(value: Seq<char>)
    requires
        text_lemmas::one_line(value),
    ensures
        text_lemmas::one_line(escaped(value)),
    decreases value.len(),
{
    escaped_one_by_one(value);
    if value.len() > 0 {
        let rest = value.drop_first();
        assert(value.contains(value[0]));
        assert(text_lemmas::one_line(rest)) by {
            if rest.contains('\n') {
                let i = choose|i: int| 0 <= i < rest.len() && rest[i] == '\n';
                assert(value[i + 1] == '\n');
            }
        }
        escaping_stays_on_one_line(rest);
        let s = escaped(value);
        if s.contains('\n') {
            let i = choose|i: int| 0 <= i < s.len() && s[i] == '\n';
            let n = escaped_char(value[0]).len();
            if i >= n {
                assert(escaped(rest)[i - n] == '\n');
            }
        }
    }
}

/// What an INI line says, read back: it is no heading, it assigns its key, and what
/// it assigns is the value.
proof fn ini_line_reads_back(key: Seq<char>, value: Seq<char>)
    requires
        ini_key_fits(key),
        text_lemmas::one_line(value),
    ensures
        heading(ini_line(key, value)) is None,
        is_assignment(ini_line(key, value), key),
        unescaped(assigned(ini_line(key, value))) == value,
        text_lemmas::one_line(ini_line(key, value)),
        text::without_return(ini_line(key, value)) == ini_line(key, value),
{
    reveal_strlit(" = \"");
    reveal_strlit("\"");
    assert(" = \""@ == seq![' ', '=', ' ', '"']);
    assert("\""@ == seq!['"']);
    let line = ini_line(key, value);
    let e = escaped(value);
    let quoted = seq!['"'] + e + seq!['"'];
    escaping_stays_on_one_line(value);
    escaping_round_trips(value);
    assert(text_lemmas::one_line(line)) by {
        if line.contains('\n') {
            let i = choose|i: int| 0 <= i < line.len() && line[i] == '\n';
            if i < key.len() {
                assert(key[i] == '\n');
            } else if i >= key.len() + 4 && i < key.len() + 4 + e.len() {
                assert(e[i - key.len() - 4] == '\n');
            }
        }
    }
    text_lemmas::trimmed_is_trim(key);
    let t = text::trimmed(line);
    let name = if key.len() == 0 {
        Seq::<char>::empty()
    } else {
        key.push(' ')
    };
    let value_part = seq![' '] + quoted;
    assert(t == name + seq!['='] + value_part) by {
        let whole = name + seq!['='] + value_part;
        if key.len() == 0 {
            assert(line.drop_first() == whole);
            text_lemmas::nothing_to_trim(whole);
        } else {
            assert(line == whole);
            text_lemmas::nothing_to_trim(line);
        }
    }
    assert(!name.contains('=')) by {
        if name.contains('=') {
            let i = choose|i: int| 0 <= i < name.len() && name[i] == '=';
            assert(key[i] == '=');
        }
    }
    text_lemmas::before_first_after(name, '=', value_part);
    assert(t.take(name.len() as int) == name);
    assert(t.skip(name.len() as int + 1) == value_part);
    if key.len() > 0 {
        text_lemmas::trimming_white_after(key, ' ');
    }
    assert(text::trimmed(name) == key);
    assert(value_part.drop_first() == quoted);
    text_lemmas::nothing_to_trim(quoted);
    assert(text::trimmed(value_part) == quoted);
    assert(unquoted(quoted) == e);
}

proof fn section_line_reads_back(section: Seq<char>)
    requires
        section_fits(section),
    ensures
        heading("["@ + section + "]"@) == Some(section),
        text_lemmas::one_line("["@ + section + "]"@),
        text::without_return("["@ + section + "]"@) == "["@ + section + "]"@,
{
    reveal_strlit("[");
    reveal_strlit("]");
    let line = "["@ + section + "]"@;
    assert("["@ == seq!['[']);
    assert("]"@ == seq![']']);
    text_lemmas::nothing_to_trim(line);
    assert(line.subrange(1, line.len() - 1) == section);
    if line.contains('\n') {
        let i = choose|i: int| 0 <= i < line.len() && line[i] == '\n';
        assert(section[i - 1] == '\n');
    }
}

/// The section of a line depends on nothing but the headings above it.
proof fn section_depends_on_headings(a: Seq<Seq<char>>, b: Seq<Seq<char>>, i: int)
    requires
        forall|j: int| 0 <= j < i ==> heading(#[trigger] a[j]) == heading(b[j]),
    ensures
        section_at(a, i) == section_at(b, i),
    decreases i,
{
    if i > 0 {
        assert(heading(a[i - 1]) == heading(b[i - 1]));
        section_depends_on_headings(a, b, i - 1);
    }
}

/// Reading a file back makes no difference to what its lines say.
proof fn as_read_says_the_same(lines: Seq<Seq<char>>, section: Seq<char>, key: Seq<char>)
    ensures
        assignment(text_lemmas::as_read(lines), section, key) == assignment(lines, section, key),
{
    let read = text_lemmas::as_read(lines);
    let p = |i: int| assigns(lines, section, key, i);
    let q = |i: int| assigns(read, section, key, i);
    let n = lines.len() as int;
    assert forall|j: int| 0 <= j < n implies heading(#[trigger] lines[j]) == heading(read[j]) by {
        text_lemmas::trimming_a_return(lines[j]);
    }
    search::first_that_is_first(p, 0, n);
    let at = search::first_that(p, 0, n);
    assert forall|j: int| 0 <= j < n implies #[trigger] q(j) == p(j) by {
        text_lemmas::trimming_a_return(lines[j]);
        assert(heading(lines[j]) == heading(read[j]));
        section_depends_on_headings(lines, read, j);
    }
    assert forall|j: int| 0 <= j < at implies !#[trigger] q(j) by {
        assert(!p(j));
    }
    search::first_that_is(q, 0, n, at);
}

/// The lines a key was set in: where the assignment is, and that it stays there.
proof fn with_ini_key_assigns(
    lines: Seq<Seq<char>>,
    section: Seq<char>,
    key: Seq<char>,
    value: Seq<char>,
)
    requires
        ini_key_fits(key),
        section_fits(section),
        text_lemmas::one_line(value),
    ensures
        ({
            let after = with_ini_key(lines, section, key, value);
            let at = assignment(after, section, key);
            at < after.len() && after[at] == ini_line(key, value)
        }),
{
    let n = lines.len() as int;
    let line = ini_line(key, value);
    let after = with_ini_key(lines, section, key, value);
    let p = |i: int| assigns(lines, section, key, i);
    let q = |i: int| leaves(lines, section, i);
    let r = |i: int| assigns(after, section, key, i);
    search::first_that_is_first(p, 0, n);
    search::first_that_is_first(q, 0, n);
    ini_line_reads_back(key, value);
    section_line_reads_back(section);
    let at = assignment(lines, section, key);
    let end = section_end(lines, section);
    let place = if at < n {
        at
    } else if end < n {
        end
    } else if section_at(lines, n) == Some(section) {
        n
    } else if n > 0 {
        n + 2
    } else {
        1
    };
    let before = if place <= n {
        place
    } else {
        n
    };
    assert(after[place] == line);
    assert forall|j: int| 0 <= j < before implies #[trigger] after[j] == lines[j] by {}
    assert forall|j: int| 0 <= j < before implies !#[trigger] r(j) by {
        assert(!p(j));
        assert forall|k: int| 0 <= k < j implies heading(#[trigger] after[k]) == heading(
            lines[k],
        ) by {}
        section_depends_on_headings(after, lines, j);
        assert(after[j] == lines[j]);
    }
    section_depends_on_headings(after, lines, before);
    if at >= n && end >= n && section_at(lines, n) != Some(section) {
        if n > 0 {
            assert(after[n] == Seq::<char>::empty());
            text_lemmas::nothing_to_trim(after[n]);
            assert(text::before_first(after[n], '=') == 0);
            assert(!r(n));
            assert(after[n + 1] == "["@ + section + "]"@);
            assert(!r(n + 1));
        } else {
            assert(after[0] == "["@ + section + "]"@);
            assert(!r(0));
        }
    }
    assert(section_at(after, place) == Some(section));
    assert(r(place));
    search::first_that_is(r, 0, after.len() as int, place);
}

proof fn with_ini_key_stays_on_lines(
    lines: Seq<Seq<char>>,
    section: Seq<char>,
    key: Seq<char>,
    value: Seq<char>,
)
    requires
        ini_key_fits(key),
        section_fits(section),
        text_lemmas::one_line(value),
        forall|i: int| 0 <= i < lines.len() ==> text_lemmas::one_line(#[trigger] lines[i]),
    ensures
        ({
            let after = with_ini_key(lines, section, key, value);
            &&& forall|i: int| 0 <= i < after.len() ==> text_lemmas::one_line(#[trigger] after[i])
            &&& text_lemmas::as_read(lines) == lines ==> text_lemmas::as_read(after) == after
        }),
{
    let n = lines.len() as int;
    let p = |i: int| assigns(lines, section, key, i);
    let q = |i: int| leaves(lines, section, i);
    search::first_that_is_first(p, 0, n);
    search::first_that_is_first(q, 0, n);
    ini_line_reads_back(key, value);
    section_line_reads_back(section);
    let after = with_ini_key(lines, section, key, value);
    let line = ini_line(key, value);
    assert forall|i: int| 0 <= i < after.len() implies text_lemmas::one_line(#[trigger] after[i]) && (
    text_lemmas::as_read(lines) == lines ==> text::without_return(after[i]) == after[i]) by {
        assert(after[i] == line || after[i] == "["@ + section + "]"@ || after[i] == Seq::<
            char,
        >::empty() || (exists|j: int| 0 <= j < n && after[i] == #[trigger] lines[j])) by {
            let at = assignment(lines, section, key);
            let end = section_end(lines, section);
            if at < n {
                if i != at {
                    assert(after[i] == lines[i]);
                }
            } else if end < n {
                if i < end {
                    assert(after[i] == lines[i]);
                } else if i > end {
                    assert(after[i] == lines[i - 1]);
                }
            } else if i < n {
                assert(after[i] == lines[i]);
            }
        }
        if exists|j: int| 0 <= j < n && after[i] == #[trigger] lines[j] {
            let j = choose|j: int| 0 <= j < n && after[i] == #[trigger] lines[j];
            assert(text_lemmas::one_line(lines[j]));
            assert(text_lemmas::as_read(lines)[j] == text::without_return(lines[j]));
        }
    }
    if text_lemmas::as_read(lines) == lines {
        assert(text_lemmas::as_read(after) =~= after);
    }
}

/// The lines of an INI file after a key was set: the edit, and nothing but the edit,
/// is read back.
proof fn ini_lines_after(text: Seq<char>, section: Seq<char>, key: Seq<char>, value: Seq<char>)
    requires
        ini_key_fits(key),
        section_fits(section),
        text_lemmas::one_line(value),
    ensures
        ({
            let after = with_ini_key(text::lines_in(text), section, key, value);
            let read = text::lines_in(ini_set(text, section, key, value));
            &&& read == after || read == text_lemmas::as_read(after)
            &&& !stops_at_a_return(text) ==> read == after
        }),
{
    let before = text::lines_in(text);
    let after = with_ini_key(before, section, key, value);
    text_lemmas::lines_are_lines(text);
    with_ini_key_stays_on_lines(before, section, key, value);
    if text::has(text, "\r\n"@) {
        text_lemmas::lines_written_with_returns(after);
    } else {
        text_lemmas::lines_written_with_line_feeds(after);
    }
}

/// A key that was set is read back with the value it was set to.
pub proof fn ini_round_trips(text: Seq<char>, section: Seq<char>, key: Seq<char>, value: Seq<char>)
    requires
        ini_key_fits(key),
        section_fits(section),
        text_lemmas::one_line(value),
    ensures
        ini_value(ini_set(text, section, key, value), section, key) == Some(value),
{
    let after = with_ini_key(text::lines_in(text), section, key, value);
    ini_lines_after(text, section, key, value);
    with_ini_key_assigns(text::lines_in(text), section, key, value);
    as_read_says_the_same(after, section, key);
    ini_line_reads_back(key, value);
    search::first_that_is_first(
        |i: int| assigns(after, section, key, i),
        0,
        after.len() as int,
    );
    let at = assignment(after, section, key);
    let read = text::lines_in(ini_set(text, section, key, value));
    assert(read[at] == ini_line(key, value));
    assert(assignment(read, section, key) == at);
}

/// Setting a key changes its own line and no other: the lines of the file afterwards
/// are the lines from before with that one edit.
pub proof fn ini_keeps_other_lines(
    text: Seq<char>,
    section: Seq<char>,
    key: Seq<char>,
    value: Seq<char>,
)
    requires
        ini_key_fits(key),
        section_fits(section),
        text_lemmas::one_line(value),
        !stops_at_a_return(text),
    ensures
        text::lines_in(ini_set(text, section, key, value)) == with_ini_key(
            text::lines_in(text),
            section,
            key,
            value,
        ),
{
    ini_lines_after(text, section, key, value);
}

/// Setting a key again to the value it has changes nothing, and neither does it
/// change how the lines end.
pub proof fn ini_set_twice(text: Seq<char>, section: Seq<char>, key: Seq<char>, value: Seq<char>)
    requires
        ini_key_fits(key),
        section_fits(section),
        text_lemmas::one_line(value),
        !stops_at_a_return(text),
    ensures
        ini_set(ini_set(text, section, key, value), section, key, value) == ini_set(
            text,
            section,
            key,
            value,
        ),
        ending_of(ini_set(text, section, key, value)) == ending_of(text),
{
    let before = text::lines_in(text);
    let after = with_ini_key(before, section, key, value);
    text_lemmas::lines_are_lines(text);
    ini_lines_after(text, section, key, value);
    with_ini_key_stays_on_lines(before, section, key, value);
    with_ini_key_assigns(before, section, key, value);
    search::first_that_is_first(
        |i: int| assigns(after, section, key, i),
        0,
        after.len() as int,
    );
    if text::has(text, "\r\n"@) {
        text_lemmas::returns_are_written(after);
    } else {
        text_lemmas::no_returns_are_written(after);
    }
    let at = assignment(after, section, key);
    assert(after.update(at, ini_line(key, value)) =~= after);
}

/// What a YAML line says, read back.
proof fn yaml_line_reads_back(key: Seq<char>, value: Seq<char>)
    requires
        yaml_key_fits(key),
        text_lemmas::one_line(value),
    ensures
        is_top_level(yaml_line(key, value), key),
        yaml_unescaped(after_colon(yaml_line(key, value))) == value,
        text_lemmas::one_line(yaml_line(key, value)),
        text::without_return(yaml_line(key, value)) == yaml_line(key, value),
{
    reveal_strlit(": \"");
    reveal_strlit("\"");
    assert(": \""@ == seq![':', ' ', '"']);
    assert("\""@ == seq!['"']);
    let line = yaml_line(key, value);
    let e = escaped(value);
    let quoted = seq!['"'] + e + seq!['"'];
    let rest = seq![' '] + quoted;
    escaping_stays_on_one_line(value);
    escaping_round_trips(value);
    if line.contains('\n') {
        let i = choose|i: int| 0 <= i < line.len() && line[i] == '\n';
        if i < key.len() {
            assert(key[i] == '\n');
        } else if i >= key.len() + 3 && i < key.len() + 3 + e.len() {
            assert(e[i - key.len() - 3] == '\n');
        }
    }
    assert(line == key + seq![':'] + rest);
    assert(line.take(key.len() as int) == key);
    let tail = line.skip(key.len() as int);
    assert(tail[0] == ':');
    assert(text::trimmed_start(tail) == tail);
    assert(tail.take(1) == seq![':']);
    text_lemmas::before_first_after(key, ':', rest);
    assert(line.skip(key.len() as int + 1) == rest);
    assert(rest.drop_first() == quoted);
    text_lemmas::nothing_to_trim(quoted);
    assert(text::trimmed(rest) == quoted);
    assert(unquoted(quoted) == e);
}

/// A carriage return at the end makes no difference to whether a colon comes first.
proof fn colon_before_a_return(s: Seq<char>)
    requires
        s.len() > 0,
        s.last() == '\r',
    ensures
        text::begins(text::trimmed_start(s), seq![':']) == text::begins(
            text::trimmed_start(s.drop_last()),
            seq![':'],
        ),
{
    let t = text::trimmed_start(s.drop_last());
    assert(s.drop_last().push('\r') == s);
    text_lemmas::trimmed_start_push(s.drop_last(), '\r');
    if t.len() > 0 {
        assert(t.push('\r').take(1) == t.take(1));
    }
}

proof fn top_level_before_a_return(line: Seq<char>, key: Seq<char>)
    ensures
        is_top_level(text::without_return(line), key) == is_top_level(line, key),
{
    if line.len() > 0 && line.last() == '\r' {
        let short = line.drop_last();
        if line.len() > key.len() {
            let rest = line.skip(key.len() as int);
            assert(short.take(key.len() as int) == line.take(key.len() as int));
            assert(short.skip(key.len() as int) == rest.drop_last());
            colon_before_a_return(rest);
        } else if line.len() == key.len() {
            assert(line.skip(key.len() as int).len() == 0);
        }
    }
}

proof fn yaml_as_read_says_the_same(lines: Seq<Seq<char>>, key: Seq<char>)
    ensures
        top_level(text_lemmas::as_read(lines), key) == top_level(lines, key),
{
    let read = text_lemmas::as_read(lines);
    let p = |i: int| is_top_level(lines[i], key);
    let q = |i: int| is_top_level(read[i], key);
    let n = lines.len() as int;
    search::first_that_is_first(p, 0, n);
    let at = search::first_that(p, 0, n);
    assert forall|j: int| 0 <= j < n implies #[trigger] q(j) == p(j) by {
        top_level_before_a_return(lines[j], key);
    }
    assert forall|j: int| 0 <= j < at implies !#[trigger] q(j) by {
        assert(!p(j));
    }
    search::first_that_is(q, 0, n, at);
}

/// The lines of a YAML file after a key was set.
proof fn yaml_lines_after(text: Seq<char>, key: Seq<char>, value: Seq<char>)
    requires
        yaml_key_fits(key),
        text_lemmas::one_line(value),
    ensures
        ({
            let after = with_yaml_key(text::lines_in(text), key, value);
            let read = text::lines_in(yaml_set(text, key, value));
            let at = top_level(after, key);
            &&& forall|i: int| 0 <= i < after.len() ==> text_lemmas::one_line(#[trigger] after[i])
            &&& 0 <= at < after.len() && after[at] == yaml_line(key, value)
            &&& read == after || read == text_lemmas::as_read(after)
            &&& !stops_at_a_return(text) ==> read == after
            &&& !text::has(text, "\r\n"@) && !stops_at_a_return(text) ==> text_lemmas::as_read(
                after,
            ) == after
        }),
{
    let before = text::lines_in(text);
    let n = before.len() as int;
    let after = with_yaml_key(before, key, value);
    let line = yaml_line(key, value);
    let p = |i: int| is_top_level(before[i], key);
    let q = |i: int| is_top_level(after[i], key);
    text_lemmas::lines_are_lines(text);
    yaml_line_reads_back(key, value);
    search::first_that_is_first(p, 0, n);
    let at = top_level(before, key);
    let place = if at < n {
        at
    } else {
        0
    };
    assert(after[place] == line);
    assert forall|j: int| 0 <= j < place implies !#[trigger] q(j) by {
        assert(!p(j));
    }
    search::first_that_is(q, 0, after.len() as int, place);
    assert forall|i: int| 0 <= i < after.len() implies text_lemmas::one_line(#[trigger] after[i]) && (
    text_lemmas::as_read(before) == before ==> text::without_return(after[i]) == after[i]) by {
        let j = if at < n || i == 0 {
            i
        } else {
            i - 1
        };
        if i != place {
            assert(after[i] == before[j]);
            assert(text_lemmas::one_line(before[j]));
            assert(text_lemmas::as_read(before)[j] == text::without_return(before[j]));
        }
    }
    if text_lemmas::as_read(before) == before {
        assert(text_lemmas::as_read(after) =~= after);
    }
    if text::has(text, "\r\n"@) {
        text_lemmas::lines_written_with_returns(after);
    } else {
        text_lemmas::lines_written_with_line_feeds(after);
    }
}

/// A top level key that was set is read back with the value it was set to.
pub proof fn yaml_round_trips(text: Seq<char>, key: Seq<char>, value: Seq<char>)
    requires
        yaml_key_fits(key),
        text_lemmas::one_line(value),
    ensures
        yaml_value(yaml_set(text, key, value), key) == Some(value),
{
    let after = with_yaml_key(text::lines_in(text), key, value);
    let read = text::lines_in(yaml_set(text, key, value));
    yaml_lines_after(text, key, value);
    yaml_as_read_says_the_same(after, key);
    yaml_line_reads_back(key, value);
    let at = top_level(after, key);
    assert(top_level(read, key) == at);
    assert(read[at] == yaml_line(key, value));
}

/// Setting a top level key changes its own line and no other.
pub proof fn yaml_keeps_other_lines(text: Seq<char>, key: Seq<char>, value: Seq<char>)
    requires
        yaml_key_fits(key),
        text_lemmas::one_line(value),
        !stops_at_a_return(text),
    ensures
        text::lines_in(yaml_set(text, key, value)) == with_yaml_key(
            text::lines_in(text),
            key,
            value,
        ),
{
    yaml_lines_after(text, key, value);
}

/// Where a colon comes first but for white space, nothing but white space is in front of
/// it.
proof fn white_up_to_a_colon(s: Seq<char>)
    requires
        text::begins(text::trimmed_start(s), seq![':']),
    ensures
        text::before_first(s, ':') < s.len(),
        forall|j: int| 0 <= j < text::before_first(s, ':') ==> text::is_white(#[trigger] s[j]),
    decreases s.len(),
{
    if s.len() > 0 && text::is_white(s[0]) {
        let t = s.drop_first();
        white_up_to_a_colon(t);
        assert forall|j: int| 0 <= j < text::before_first(s, ':') implies text::is_white(
            #[trigger] s[j],
        ) by {
            if j > 0 {
                assert(text::is_white(t[j - 1]));
            }
        }
    } else {
        assert(s.take(1)[0] == ':');
    }
}

/// A line is the top level line of no key that is longer than another it is the line of.
proof fn no_longer_top_level(line: Seq<char>, key: Seq<char>, other: Seq<char>)
    requires
        is_top_level(line, key),
        is_top_level(line, other),
        !other.contains(':'),
        text::trimmed(other) == other,
    ensures
        other.len() <= key.len(),
{
    let n = key.len() as int;
    let rest = line.skip(n);
    white_up_to_a_colon(rest);
    let c = text::before_first(rest, ':') as int;
    text_lemmas::before_first_is_first(rest, ':');
    text_lemmas::trimmed_is_trim(other);
    if other.len() > n {
        assert(line.take(other.len() as int) == other);
        if other.len() > n + c {
            assert(other[n + c] == rest[c]);
            assert(other.contains(other[n + c]));
        } else {
            assert(other[other.len() - 1] == rest[other.len() - 1 - n]);
        }
    }
}

/// A line is the top level line of one key only.
proof fn one_top_level_key(line: Seq<char>, key: Seq<char>, other: Seq<char>)
    requires
        is_top_level(line, key),
        is_top_level(line, other),
        !key.contains(':'),
        text::trimmed(key) == key,
        !other.contains(':'),
        text::trimmed(other) == other,
    ensures
        key == other,
{
    no_longer_top_level(line, key, other);
    no_longer_top_level(line, other, key);
    assert(line.take(key.len() as int) == key);
    assert(line.take(other.len() as int) == other);
}

/// A carriage return at the end makes no difference to what stands after a colon.
proof fn after_colon_before_a_return(line: Seq<char>)
    ensures
        after_colon(text::without_return(line)) == after_colon(line),
{
    if line.len() > 0 && line.last() == '\r' {
        let short = line.drop_last();
        let i = text::before_first(line, ':') as int;
        text_lemmas::before_first_is_first(line, ':');
        if i < line.len() {
            let head = line.take(i);
            let value = line.skip(i + 1);
            let rest = short.skip(i + 1);
            assert(line =~= head + seq![':'] + value);
            assert(short =~= head + seq![':'] + rest);
            text_lemmas::before_first_after(head, ':', rest);
            assert(value.drop_last() =~= rest);
            text_lemmas::trimming_a_return(value);
        } else {
            text_lemmas::before_first_is_first(short, ':');
            if short.contains(':') {
                let j = short.index_of(':');
                assert(line[j] == ':');
            }
        }
    }
}

/// Setting one top level key changes the value of no other.
pub proof fn yaml_keeps_other_values(
    text: Seq<char>,
    key: Seq<char>,
    value: Seq<char>,
    other: Seq<char>,
)
    requires
        yaml_key_fits(key),
        text::trimmed(key) == key,
        yaml_key_fits(other),
        text::trimmed(other) == other,
        text_lemmas::one_line(value),
        other != key,
    ensures
        yaml_value(yaml_set(text, key, value), other) == yaml_value(text, other),
{
    let before = text::lines_in(text);
    let n = before.len() as int;
    let line = yaml_line(key, value);
    let after = with_yaml_key(before, key, value);
    let read = text::lines_in(yaml_set(text, key, value));
    let at = top_level(before, key);
    let p = |i: int| is_top_level(before[i], other);
    let q = |i: int| is_top_level(after[i], other);
    search::first_that_is_first(|i: int| is_top_level(before[i], key), 0, n);
    search::first_that_is_first(p, 0, n);
    let was = top_level(before, other);
    yaml_line_reads_back(key, value);
    if is_top_level(line, other) {
        one_top_level_key(line, key, other);
    }
    let now = if at < n {
        was
    } else {
        was + 1
    };
    if at < n && is_top_level(before[at], other) {
        one_top_level_key(before[at], key, other);
    }
    assert forall|j: int| 0 <= j < now implies !#[trigger] q(j) by {
        if at < n {
            if j != at {
                assert(!p(j));
            }
        } else if j > 0 {
            assert(!p(j - 1));
        }
    }
    if was < n {
        assert(p(was));
        assert(after[now] == before[was]);
    }
    search::first_that_is(q, 0, after.len() as int, now);
    yaml_lines_after(text, key, value);
    yaml_as_read_says_the_same(after, other);
    if now < after.len() {
        after_colon_before_a_return(after[now]);
        assert(read[now] == after[now] || read[now] == text::without_return(after[now]));
    }
}

/// Setting a top level key again to the value it has changes nothing, and neither
/// does it change how the lines end.
pub proof fn yaml_set_twice(text: Seq<char>, key: Seq<char>, value: Seq<char>)
    requires
        yaml_key_fits(key),
        text_lemmas::one_line(value),
        !stops_at_a_return(text),
    ensures
        yaml_set(yaml_set(text, key, value), key, value) == yaml_set(text, key, value),
        ending_of(yaml_set(text, key, value)) == ending_of(text),
{
    let after = with_yaml_key(text::lines_in(text), key, value);
    yaml_lines_after(text, key, value);
    if text::has(text, "\r\n"@) {
        text_lemmas::returns_are_written(after);
    } else {
        text_lemmas::no_returns_are_written(after);
    }
    let at = top_level(after, key);
    assert(after.update(at, yaml_line(key, value)) =~= after);
}

/// A line put among others that is neither a heading nor an assignment of `key` in
/// `section` makes no difference to what assigns that key.
proof fn inserting_keeps_assignments(
    lines: Seq<Seq<char>>,
    e: int,
    line: Seq<char>,
    section: Seq<char>,
    key: Seq<char>,
)
    requires
        0 <= e <= lines.len(),
        heading(line) is None,
        !(section_at(lines, e) == Some(section) && is_assignment(line, key)),
    ensures
        ({
            let after = lines.insert(e, line);
            let at = assignment(lines, section, key);
            let now = assignment(after, section, key);
            &&& at < lines.len() <==> now < after.len()
            &&& at < lines.len() ==> 0 <= at && 0 <= now && after[now] == lines[at]
        }),
{
    let after = lines.insert(e, line);
    let n = lines.len() as int;
    let p = |i: int| assigns(lines, section, key, i);
    let q = |i: int| assigns(after, section, key, i);
    search::first_that_is_first(p, 0, n);
    let at = search::first_that(p, 0, n);
    assert forall|i: int| 0 <= i <= e implies #[trigger] section_at(after, i) == section_at(
        lines,
        i,
    ) by {
        section_depends_on_headings(after, lines, i);
    }
    assert forall|i: int| e < i <= n + 1 implies #[trigger] section_at(after, i) == section_at(
        lines,
        i - 1,
    ) by {
        shifted_sections(lines, e, line, i);
    }
    assert forall|i: int| 0 <= i < e implies #[trigger] q(i) == p(i) by {
        assert(section_at(after, i) == section_at(lines, i));
        assert(after[i] == lines[i]);
    }
    assert(!q(e)) by {
        assert(section_at(after, e) == section_at(lines, e));
    }
    assert forall|i: int| e < i <= n implies #[trigger] q(i) == p(i - 1) by {
        assert(section_at(after, i) == section_at(lines, i - 1));
        assert(after[i] == lines[i - 1]);
    }
    let place = if at < e {
        at
    } else {
        at + 1
    };
    assert forall|j: int| 0 <= j < place implies !#[trigger] q(j) by {
        if j < e {
            assert(!p(j));
        } else if j > e {
            assert(!p(j - 1));
        }
    }
    search::first_that_is(q, 0, n + 1, place);
}

proof fn shifted_sections(lines: Seq<Seq<char>>, e: int, line: Seq<char>, i: int)
    requires
        0 <= e <= lines.len(),
        heading(line) is None,
        e < i <= lines.len() + 1,
    ensures
        section_at(lines.insert(e, line), i) == section_at(lines, i - 1),
    decreases i,
{
    let after = lines.insert(e, line);
    if i == e + 1 {
        section_depends_on_headings(after, lines, e);
    } else {
        shifted_sections(lines, e, line, i - 1);
        assert(after[i - 1] == lines[i - 2]);
    }
}

/// Where no heading names a section, no line is in it.
proof fn unopened_sections_are_empty(lines: Seq<Seq<char>>, section: Seq<char>, i: int)
    requires
        0 <= i <= lines.len(),
        section_end(lines, section) >= lines.len(),
        section_at(lines, lines.len() as int) != Some(section),
    ensures
        section_at(lines, i) != Some(section),
    decreases lines.len() - i,
{
    let q = |i: int| leaves(lines, section, i);
    search::first_that_is_first(q, 0, lines.len() as int);
    if i < lines.len() {
        unopened_sections_are_empty(lines, section, i + 1);
        assert(!q(i));
    }
}

/// Setting one key leaves the line that assigns another as it is.
proof fn with_ini_key_keeps_others(
    lines: Seq<Seq<char>>,
    section: Seq<char>,
    key: Seq<char>,
    value: Seq<char>,
    other_section: Seq<char>,
    other_key: Seq<char>,
)
    requires
        ini_key_fits(key),
        section_fits(section),
        text_lemmas::one_line(value),
        other_section != section || other_key != key,
    ensures
        ({
            let after = with_ini_key(lines, section, key, value);
            let at = assignment(lines, other_section, other_key);
            let now = assignment(after, other_section, other_key);
            &&& at < lines.len() <==> now < after.len()
            &&& at < lines.len() ==> 0 <= at && 0 <= now && after[now] == lines[at]
        }),
{
    let n = lines.len() as int;
    let line = ini_line(key, value);
    let after = with_ini_key(lines, section, key, value);
    ini_line_reads_back(key, value);
    section_line_reads_back(section);
    let p = |i: int| assigns(lines, section, key, i);
    let q = |i: int| leaves(lines, section, i);
    search::first_that_is_first(p, 0, n);
    search::first_that_is_first(q, 0, n);
    let at = assignment(lines, section, key);
    let end = section_end(lines, section);
    let p2 = |i: int| assigns(lines, other_section, other_key, i);
    let q2 = |i: int| assigns(after, other_section, other_key, i);
    search::first_that_is_first(p2, 0, n);
    let other = search::first_that(p2, 0, n);
    if at < n {
        assert forall|i: int| 0 <= i < n implies #[trigger] q2(i) == p2(i) by {
            assert forall|j: int| 0 <= j < i implies heading(#[trigger] after[j]) == heading(
                lines[j],
            ) by {}
            section_depends_on_headings(after, lines, i);
        }
        assert(!p2(at));
        assert forall|j: int| 0 <= j < other implies !#[trigger] q2(j) by {
            assert(!p2(j));
        }
        search::first_that_is(q2, 0, n, other);
    } else if end < n {
        inserting_keeps_assignments(lines, end, line, other_section, other_key);
    } else if section_at(lines, n) == Some(section) {
        assert(lines.push(line) =~= lines.insert(n, line));
        inserting_keeps_assignments(lines, n, line, other_section, other_key);
    } else {
        unopened_sections_are_empty(lines, section, n);
        assert forall|i: int| 0 <= i < n implies #[trigger] q2(i) == p2(i) by {
            section_depends_on_headings(after, lines, i);
        }
        assert forall|j: int| 0 <= j < other implies !#[trigger] q2(j) by {
            assert(!p2(j));
        }
        if other < n {
            search::first_that_is(q2, 0, after.len() as int, other);
        } else {
            let m = after.len() as int;
            assert(after[m - 1] == line);
            assert(after[m - 2] == "["@ + section + "]"@);
            assert(!q2(m - 2));
            assert(section_at(after, m - 1) == Some(section));
            assert(!q2(m - 1));
            if n > 0 {
                text_lemmas::nothing_to_trim(after[n]);
                assert(text::before_first(after[n], '=') == 0);
                assert(!q2(n));
            }
            assert forall|j: int| 0 <= j < m implies !#[trigger] q2(j) by {
                if j < n {
                    assert(!p2(j));
                }
            }
            search::first_that_is(q2, 0, m, m);
        }
    }
}

/// Setting one key changes the value of no other.
pub proof fn ini_keeps_other_values(
    text: Seq<char>,
    section: Seq<char>,
    key: Seq<char>,
    value: Seq<char>,
    other_section: Seq<char>,
    other_key: Seq<char>,
)
    requires
        ini_key_fits(key),
        section_fits(section),
        text_lemmas::one_line(value),
        other_section != section || other_key != key,
    ensures
        ini_value(ini_set(text, section, key, value), other_section, other_key) == ini_value(
            text,
            other_section,
            other_key,
        ),
{
    let before = text::lines_in(text);
    let after = with_ini_key(before, section, key, value);
    let read = text::lines_in(ini_set(text, section, key, value));
    ini_lines_after(text, section, key, value);
    with_ini_key_keeps_others(before, section, key, value, other_section, other_key);
    as_read_says_the_same(after, other_section, other_key);
    let now = assignment(after, other_section, other_key);
    if now < after.len() {
        text_lemmas::trimming_a_return(after[now]);
        assert(assigned(text::without_return(after[now])) == assigned(after[now]));
        assert(read[now] == after[now] || read[now] == text::without_return(after[now]));
    }
}

// ---------------------------------------------------------------------------
// Where each game's data is named
// ---------------------------------------------------------------------------

/// How a configuration is written.
pub enum FormatView {
    Ini { section: Seq<char> },
    Yaml,
}

/// Where a setting lives and what it is called there.
pub struct SettingView {
    pub file: Seq<char>,
    pub format: FormatView,
    pub key: Seq<char>,
}

/// How a configuration is written.
#[derive(Debug, PartialEq, Eq)]
pub enum Format {
    /// OpenRCT2's `config.ini`, whose values are quoted.
    Ini { section: &'static str },
    /// OpenLoco's `openloco.yml`.
    Yaml,
}

/// Where a setting lives and what it is called there.
#[derive(Debug, PartialEq, Eq)]
pub struct Setting {
    pub file: &'static str,
    pub format: Format,
    pub key: &'static str,
}

impl View for Setting {
    type V = SettingView;

    open spec fn view(&self) -> SettingView {
        SettingView {
            file: self.file@,
            format: match self.format {
                Format::Ini { section } => FormatView::Ini { section: section@ },
                Format::Yaml => FormatView::Yaml,
            },
            key: self.key@,
        }
    }
}

impl OriginalGame {
    /// The game whose configuration names this data.
    pub open spec fn reader(self) -> GameId {
        match self {
            OriginalGame::RollerCoasterTycoon1 => GameId::OpenRCT2,
            OriginalGame::RollerCoasterTycoon2 => GameId::OpenRCT2,
            OriginalGame::Locomotion => GameId::OpenLoco,
        }
    }

    /// The setting that names this data.
    pub open spec fn named_by(self) -> SettingView {
        match self {
            OriginalGame::RollerCoasterTycoon1 => SettingView {
                file: "config.ini"@,
                format: FormatView::Ini { section: "general"@ },
                key: "rct1_path"@,
            },
            OriginalGame::RollerCoasterTycoon2 => SettingView {
                file: "config.ini"@,
                format: FormatView::Ini { section: "general"@ },
                key: "game_path"@,
            },
            OriginalGame::Locomotion => SettingView {
                file: "openloco.yml"@,
                format: FormatView::Yaml,
                key: "loco_install_path"@,
            },
        }
    }

    /// The game whose configuration names this data, which is not the same question as
    /// which game the data belongs to: RollerCoaster Tycoon 1's data is read by OpenRCT2.
    pub fn configured_in(self) -> (g: GameId)
        ensures
            g == self.reader(),
    {
        match self {
            OriginalGame::RollerCoasterTycoon1 => GameId::OpenRCT2,
            OriginalGame::RollerCoasterTycoon2 => GameId::OpenRCT2,
            OriginalGame::Locomotion => GameId::OpenLoco,
        }
    }

    /// The setting that names this data.
    pub fn setting(self) -> (s: Setting)
        ensures
            s@ == self.named_by(),
    {
        match self {
            OriginalGame::RollerCoasterTycoon1 => Setting {
                file: "config.ini",
                format: Format::Ini { section: "general" },
                key: "rct1_path",
            },
            OriginalGame::RollerCoasterTycoon2 => Setting {
                file: "config.ini",
                format: Format::Ini { section: "general" },
                key: "game_path",
            },
            OriginalGame::Locomotion => Setting {
                file: "openloco.yml",
                format: Format::Yaml,
                key: "loco_install_path",
            },
        }
    }
}

/// The configuration file that names this game's data.
pub fn config_path(game: OriginalGame, dirs: &Dirs) -> (out: String)
    ensures
        out@ == path::under(game.reader().game_dir(dirs@), game.named_by().file),
{
    join(game.configured_in().game_path(dirs).as_str(), game.setting().file)
}

/// The neighbouring file that new text goes to before it is renamed over the old one.
/// This is somebody's settings: a file is replaced without ever being left half written.
pub fn replacement_path(game: OriginalGame, dirs: &Dirs) -> (out: String)
    ensures
        out@ == path::under(game.reader().game_dir(dirs@), game.named_by().file)
            + ".turnstile-new"@,
{
    text::joined(config_path(game, dirs).as_str(), ".turnstile-new")
}

/// A configuration that points at `data`.
pub open spec fn pointing_at(game: OriginalGame, existing: Seq<char>, data: Seq<char>) -> Seq<
    char,
> {
    let setting = game.named_by();
    match setting.format {
        FormatView::Ini { section } => ini_set(existing, section, setting.key, data),
        FormatView::Yaml => yaml_set(existing, setting.key, data),
    }
}

/// Where a configuration points.
pub open spec fn pointed_at(game: OriginalGame, text: Seq<char>) -> Option<Seq<char>> {
    let setting = game.named_by();
    match setting.format {
        FormatView::Ini { section } => ini_value(text, section, setting.key),
        FormatView::Yaml => yaml_value(text, setting.key),
    }
}

/// The text of a file that may be missing.
pub open spec fn contents(text: Option<&str>) -> Seq<char> {
    match text {
        Some(text) => text@,
        None => seq![],
    }
}

/// Points the reimplementation at the data installed in `data`. `existing` is the text of
/// the configuration file, if there is one; the result is the text to replace it with, or
/// `None` where it says so already.
pub fn point_at(game: OriginalGame, existing: Option<&str>, data: &str) -> (r: Option<String>)
    ensures
        text::opt_view(r) == {
            let updated = pointing_at(game, contents(existing), data@);
            if updated == contents(existing) {
                None
            } else {
                Some(updated)
            }
        },
{
    let before: &str = match existing {
        Some(text) => text,
        None => "",
    };
    proof {
        reveal_strlit("");
        assert(before@ =~= contents(existing));
    }
    let setting: Setting = game.setting();
    let updated: String = match setting.format {
        Format::Ini { section } => set_ini_key(before, section, setting.key, data),
        Format::Yaml => set_yaml_key(before, setting.key, data),
    };
    if text::same(updated.as_str(), before) {
        None
    } else {
        Some(updated)
    }
}

/// What the configuration says this game's data path is. `text` is the text of the
/// configuration file, if there is one.
pub fn configured_path(game: OriginalGame, text: Option<&str>) -> (r: Option<String>)
    ensures
        text::opt_view(r) == match text {
            Some(text) => pointed_at(game, text@),
            None => None,
        },
{
    let setting: Setting = game.setting();
    match text {
        Some(text) => match setting.format {
            Format::Ini { section } => read_ini_key(text, section, setting.key),
            Format::Yaml => read_yaml_key(text, setting.key),
        },
        None => None,
    }
}

proof fn settings_fit(game: OriginalGame)
    ensures
        ({
            let setting = game.named_by();
            match setting.format {
                FormatView::Ini { section } => ini_key_fits(setting.key) && section_fits(section),
                FormatView::Yaml => yaml_key_fits(setting.key),
            }
        }),
{
    reveal_strlit("general");
    reveal_strlit("rct1_path");
    reveal_strlit("game_path");
    reveal_strlit("loco_install_path");
    let key = game.named_by().key;
    assert forall|i: int| 0 <= i < key.len() implies key[i] != '\n' && key[i] != '=' && key[i] != ':' && !text::is_white(
        #[trigger] key[i],
    ) by {
        match game {
            OriginalGame::RollerCoasterTycoon1 => {
                assert(key.len() == 9);
            },
            OriginalGame::RollerCoasterTycoon2 => {
                assert(key.len() == 9);
            },
            OriginalGame::Locomotion => {
                assert(key.len() == 17);
            },
        }
    }
    text_lemmas::nothing_to_trim(key);
    let section = "general"@;
    assert forall|i: int| 0 <= i < section.len() implies section[i] != '\n' && !text::is_white(
        #[trigger] section[i],
    ) by {
        assert(section.len() == 7);
    }
    text_lemmas::nothing_to_trim(section);
}

/// A configuration that was pointed at a directory says so when it is read back.
pub proof fn pointing_round_trips(game: OriginalGame, existing: Seq<char>, data: Seq<char>)
    requires
        text_lemmas::one_line(data),
    ensures
        pointed_at(game, pointing_at(game, existing, data)) == Some(data),
{
    settings_fit(game);
    let setting = game.named_by();
    match setting.format {
        FormatView::Ini { section } => ini_round_trips(existing, section, setting.key, data),
        FormatView::Yaml => yaml_round_trips(existing, setting.key, data),
    }
}

/// The two games whose data OpenRCT2 reads are named in one file, and pointing it at the
/// data of one leaves it pointing at the data of the other.
pub proof fn pointing_keeps_the_other_game(
    game: OriginalGame,
    other: OriginalGame,
    existing: Seq<char>,
    data: Seq<char>,
)
    requires
        text_lemmas::one_line(data),
        game != other,
        game.reader() == GameId::OpenRCT2,
        other.reader() == GameId::OpenRCT2,
    ensures
        pointed_at(other, pointing_at(game, existing, data)) == pointed_at(other, existing),
{
    settings_fit(game);
    reveal_strlit("rct1_path");
    reveal_strlit("game_path");
    assert("rct1_path"@[0] == 'r' && "game_path"@[0] == 'g');
    ini_keeps_other_values(
        existing,
        "general"@,
        game.named_by().key,
        data,
        "general"@,
        other.named_by().key,
    );
}

/// A value is written with a backslash before each backslash and each double quote, and
/// otherwise as it is.
pub proof fn values_are_escaped_sign_by_sign(value: Seq<char>, c: char)
    ensures
        c == '\\' || c == '"' ==> escaped(seq![c] + value) == seq!['\\', c] + escaped(value),
        c != '\\' && c != '"' ==> escaped(seq![c] + value) == seq![c] + escaped(value),
        escaped(seq![]).len() == 0,
{
    escaped_one_by_one(seq![c] + value);
    escaped_one_by_one(seq![]);
    assert((seq![c] + value).drop_first() =~= value);
}

/// A backslash in what is read makes the sign behind it stand for itself; a value that is
/// not in quotes is read as it is but for that.
pub proof fn values_are_read_sign_by_sign(rest: Seq<char>, c: char)
    ensures
        resolved(seq!['\\', c] + rest) == seq![c] + resolved(rest),
        c != '\\' ==> resolved(seq![c] + rest) == seq![c] + resolved(rest),
        unescaped(seq!['"'] + rest + seq!['"']) == resolved(rest),
        rest.len() > 0 && rest[0] != '"' ==> unescaped(rest) == resolved(rest),
{
    let a = seq!['\\', c] + rest;
    assert(a.skip(2) =~= rest);
    let b = seq![c] + rest;
    assert(b.drop_first() =~= rest);
    let q = seq!['"'] + rest + seq!['"'];
    assert(q.subrange(1, q.len() - 1) =~= rest);
    assert(q[0] == '"' && q.last() == '"');
}

/// A line in brackets begins a section, with its name trimmed; a line that does not begin
/// with a bracket begins none.
pub proof fn sections_begin_in_brackets(name: Seq<char>, line: Seq<char>)
    ensures
        heading(seq!['['] + name + seq![']']) == Some(text::trimmed(name)),
        line.len() > 0 && !text::is_white(line[0]) && line[0] != '[' ==> heading(line) is None,
        heading(seq![]) is None,
{
    let whole = seq!['['] + name + seq![']'];
    text_laws::plain_white_space('[');
    text_laws::plain_white_space(']');
    text_lemmas::nothing_to_trim(whole);
    assert(whole.subrange(1, whole.len() - 1) =~= name);
    if line.len() > 0 && !text::is_white(line[0]) {
        text_laws::trimming_takes_the_ends(line);
        text_lemmas::trimmed_is_trim(line);
        first_stays(line);
    }
    let none: Seq<char> = seq![];
    text_lemmas::nothing_to_trim(none);
}

proof fn first_stays(line: Seq<char>)
    requires
        line.len() > 0,
        !text::is_white(line[0]),
    ensures
        text::trimmed(line).len() > 0 ==> text::trimmed(line)[0] == line[0],
{
    text_lemmas::first_stays_in_front(line);
}

/// What a line stands in is the section whose heading is the last above it.
pub proof fn lines_stand_in_the_last_section(lines: Seq<Seq<char>>, h: int, i: int)
    requires
        0 <= h < i <= lines.len(),
        heading(lines[h]) is Some,
        forall|k: int| h < k < i ==> heading(#[trigger] lines[k]) is None,
    ensures
        section_at(lines, i) == heading(lines[h]),
    decreases i - h,
{
    if h < i - 1 {
        assert(heading(lines[i - 1]) is None);
        lines_stand_in_the_last_section(lines, h, i - 1);
    }
}

/// A line gives a key its value with an equals sign between them, with or without white
/// space round it.
pub proof fn equals_signs_assign(key: Seq<char>, value: Seq<char>)
    requires
        ini_key_fits(key),
        key.len() > 0,
        value.len() > 0,
        text::trimmed(value) == value,
    ensures
        is_assignment(key + seq!['='] + value, key),
        assigned(key + seq!['='] + value) == value,
        is_assignment(key + seq![' ', '=', ' '] + value, key),
        assigned(key + seq![' ', '=', ' '] + value) == value,
{
    text_lemmas::trimmed_is_trim(key);
    text_lemmas::trimmed_is_trim(value);
    let a = key + seq!['='] + value;
    assert(a[0] == key[0] && a.last() == value.last());
    text_lemmas::nothing_to_trim(a);
    text_lemmas::before_first_after(key, '=', value);
    assert(a.take(key.len() as int) =~= key);
    assert(a.skip(key.len() as int + 1) =~= value);
    let b = key + seq![' ', '=', ' '] + value;
    assert(b[0] == key[0] && b.last() == value.last());
    text_lemmas::nothing_to_trim(b);
    let name = key.push(' ');
    let rest = seq![' '] + value;
    text_laws::plain_white_space(' ');
    text_lemmas::trimming_white_after(key, ' ');
    if name.contains('=') {
        let k = name.index_of('=');
        assert(name[k] == '=');
        if k < key.len() {
            assert(key[k] == '=');
        }
    }
    assert(b =~= name + seq!['='] + rest);
    text_lemmas::before_first_after(name, '=', rest);
    assert(b.take(name.len() as int) =~= name);
    assert(b.skip(name.len() as int + 1) =~= rest);
    assert(rest.drop_first() =~= value);
    text_lemmas::white_in_front(value, ' ');
}

/// Each original game's directory is named in the settings file of the game that reads it,
/// under a key of its own.
pub proof fn settings_are_in_their_files(game: OriginalGame, dirs: &Dirs, out: String, s: Setting)
    requires
        call_ensures(config_path, (game, dirs), out),
        call_ensures(OriginalGame::setting, (game,), s),
    ensures
        game == OriginalGame::Locomotion ==> out@ == path::under(
            path::under(dirs.app_support@, "OpenLoco"@),
            "openloco.yml"@,
        ) && s.key@ == "loco_install_path"@ && s.format is Yaml,
        game != OriginalGame::Locomotion ==> out@ == path::under(
            path::under(dirs.app_support@, "OpenRCT2"@),
            "config.ini"@,
        ) && s.format is Ini && s.format->section@ == "general"@,
        game == OriginalGame::RollerCoasterTycoon1 ==> s.key@ == "rct1_path"@,
        game == OriginalGame::RollerCoasterTycoon2 ==> s.key@ == "game_path"@,
{
}

/// Settings that already name a directory are left alone, and others come to name it.
pub proof fn settings_come_to_name_the_data(
    game: OriginalGame,
    existing: &str,
    data: &str,
    r: Option<String>,
    after: Option<String>,
)
    requires
        text_lemmas::one_line(data@),
        call_ensures(point_at, (game, Some(existing), data), r),
        call_ensures(configured_path, (game, Some(existing)), after),
    ensures
        r matches Some(now) ==> pointed_at(game, now@) == Some(data@),
        r is None ==> after is Some && after->0@ == data@,
{
    pointing_round_trips(game, existing@, data@);
}

/// Whether a line stands in a section and gives a key its value.
pub open spec fn gives(lines: Seq<Seq<char>>, section: Seq<char>, key: Seq<char>, i: int) -> bool {
    heading(lines[i]) is None && section_at(lines, i) == Some(section) && is_assignment(
        lines[i],
        key,
    )
}

/// A key's line in an ini file is replaced where it stands first. Where there is none the
/// line goes to the end of the section: before the next heading, or at the end of the file.
/// Where there is no such section it goes below a new one, behind an empty line.
pub proof fn ini_lines_go_where_they_belong(
    lines: Seq<Seq<char>>,
    section: Seq<char>,
    key: Seq<char>,
    value: Seq<char>,
    at: int,
)
    ensures
        ({
            let line = key + " = \""@ + escaped(value) + "\""@;
            let after = with_ini_key(lines, section, key, value);
            let none = forall|i: int|
                0 <= i < lines.len() ==> !#[trigger] gives(lines, section, key, i);
            let open = section_at(lines, lines.len() as int) == Some(section);
            let left = |i: int|
                heading(lines[i]) is Some && section_at(lines, i) == Some(section);
            let closed = exists|i: int| 0 <= i < lines.len() && #[trigger] left(i);
            &&& 0 <= at < lines.len() && gives(lines, section, key, at) && (forall|i: int|
                0 <= i < at ==> !#[trigger] gives(lines, section, key, i)) ==> after
                == lines.update(at, line)
            &&& none && 0 <= at < lines.len() && left(at) && (forall|i: int|
                0 <= i < at ==> !#[trigger] left(i)) ==> after == lines.insert(at, line)
            &&& none && !closed && open ==> after == lines.push(line)
            &&& none && !closed && !open && lines.len() == 0 ==> after == seq![
                "["@ + section + "]"@,
                line,
            ]
            &&& none && !closed && !open && lines.len() > 0 ==> after == lines + seq![
                Seq::<char>::empty(),
                "["@ + section + "]"@,
                line,
            ]
        }),
{
    let n = lines.len() as int;
    let line = key + " = \""@ + escaped(value) + "\""@;
    let p = |i: int| assigns(lines, section, key, i);
    let q = |i: int| leaves(lines, section, i);
    assert(assignment(lines, section, key) == search::first_that(p, 0, n));
    assert(section_end(lines, section) == search::first_that(q, 0, n));
    search::first_that_is_first(p, 0, n);
    search::first_that_is_first(q, 0, n);
    assert forall|i: int| #[trigger] gives(lines, section, key, i) == p(i) by {}
    let left = |i: int| heading(lines[i]) is Some && section_at(lines, i) == Some(section);
    assert forall|i: int| #[trigger] left(i) == q(i) by {}
    let a = search::first_that(p, 0, n);
    let e = search::first_that(q, 0, n);
    let none = forall|i: int| 0 <= i < lines.len() ==> !#[trigger] gives(lines, section, key, i);
    if none && a < n {
        assert(gives(lines, section, key, a));
    }
    if 0 <= at < n && gives(lines, section, key, at) && (forall|i: int|
        0 <= i < at ==> !#[trigger] gives(lines, section, key, i)) {
        if a < at {
            assert(gives(lines, section, key, a));
        }
        assert(p(at));
        assert(a == at);
    }
    if 0 <= at < n && left(at) && (forall|i: int| 0 <= i < at ==> !#[trigger] left(i)) {
        if e < at {
            assert(left(e));
        }
        assert(q(at));
        assert(e == at);
    }
    if e < n {
        assert(left(e));
    }
    assert(lines.push(seq![]).push("["@ + section + "]"@).push(line) =~= lines + seq![
        Seq::<char>::empty(),
        "["@ + section + "]"@,
        line,
    ]);
    if n == 0 {
        assert(lines.push("["@ + section + "]"@).push(line) =~= seq!["["@ + section + "]"@, line]);
    }
}

/// A key's line in a yaml file is replaced where it stands first, and goes to the top of
/// the file where there is none.
pub proof fn yaml_lines_go_where_they_belong(
    lines: Seq<Seq<char>>,
    key: Seq<char>,
    value: Seq<char>,
    at: int,
)
    ensures
        ({
            let line = key + ": \""@ + escaped(value) + "\""@;
            let after = with_yaml_key(lines, key, value);
            &&& 0 <= at < lines.len() && is_top_level(lines[at], key) && (forall|i: int|
                0 <= i < at ==> !is_top_level(#[trigger] lines[i], key)) ==> after == lines.update(
                at,
                line,
            )
            &&& (forall|i: int| 0 <= i < lines.len() ==> !is_top_level(#[trigger] lines[i], key))
                ==> after == seq![line] + lines
        }),
{
    let n = lines.len() as int;
    let line = key + ": \""@ + escaped(value) + "\""@;
    let p = |i: int| is_top_level(lines[i], key);
    assert(top_level(lines, key) == search::first_that(p, 0, n));
    search::first_that_is_first(p, 0, n);
    let a = search::first_that(p, 0, n);
    if a < n {
        assert(p(a));
    }
    if 0 <= at < n && is_top_level(lines[at], key) && (forall|i: int|
        0 <= i < at ==> !is_top_level(#[trigger] lines[i], key)) {
        assert(p(at));
        assert(a == at);
    }
    assert(lines.insert(0, line) =~= seq![line] + lines);
}

/// A yaml key stands at the beginning of its line, with a colon behind it; an indented one
/// is another's.
pub proof fn yaml_keys_begin_their_line(key: Seq<char>, rest: Seq<char>, line: Seq<char>)
    ensures
        is_top_level(key + seq![':'] + rest, key),
        is_top_level(key + seq![' ', ':'] + rest, key),
        key.len() > 0 && line.len() > 0 && line[0] != key[0] ==> !is_top_level(line, key),
        !key.contains(':') ==> after_colon(key + seq![':'] + rest) == text::trimmed(rest),
{
    text_laws::plain_white_space(':');
    text_laws::plain_white_space(' ');
    let a = key + seq![':'] + rest;
    assert(a.take(key.len() as int) =~= key);
    let behind = a.skip(key.len() as int);
    assert(behind =~= seq![':'] + rest);
    assert(behind[0] == ':');
    assert(text::trimmed_start(behind) == behind);
    assert(behind.take(1) =~= seq![':']);
    let b = key + seq![' ', ':'] + rest;
    assert(b.take(key.len() as int) =~= key);
    let spaced = b.skip(key.len() as int);
    assert(spaced =~= seq![' ', ':'] + rest);
    assert(spaced.drop_first() =~= behind);
    assert(text::trimmed_start(spaced) == behind);
    if key.len() > 0 && line.len() > 0 && line[0] != key[0] && line.len() >= key.len() {
        assert(line.take(key.len() as int)[0] == line[0]);
    }
    if !key.contains(':') {
        assert forall|i: int| 0 <= i < key.len() implies #[trigger] key[i] != ':' by {}
        text_laws::texts_are_cut_at_the_first_sign(key, ':', rest);
    }
}

/// A yaml value in single quotes is read with each doubled one as one; a value without
/// quotes is read as it is.
pub proof fn yaml_values_are_read(inside: Seq<char>, plain: Seq<char>)
    ensures
        yaml_unescaped(seq!['\''] + inside + seq!['\'']) == text::replaced(inside, "''"@, "'"@),
        yaml_unescaped(seq!['"'] + inside + seq!['"']) == resolved(inside),
        plain.len() > 0 && plain[0] != '"' && plain[0] != '\'' ==> yaml_unescaped(plain) == plain,
{
    let a = seq!['\''] + inside + seq!['\''];
    assert(a[0] == '\'' && a.last() == '\'');
    assert(a.subrange(1, a.len() - 1) =~= inside);
    let b = seq!['"'] + inside + seq!['"'];
    assert(b[0] == '"' && b.last() == '"');
    assert(b.subrange(1, b.len() - 1) =~= inside);
}

/// A file keeps its line endings: where it has a return before a line feed it is written
/// with both, and else with line feeds alone.
pub proof fn line_endings_are_kept(a: Seq<char>, b: Seq<char>, text: Seq<char>)
    ensures
        ending_of(a + seq!['\r', '\n'] + b) == seq!['\r', '\n'],
        (forall|i: int| 0 <= i < text.len() ==> #[trigger] text[i] != '\r') ==> ending_of(text)
            == seq!['\n'],
{
    reveal_strlit("\r\n");
    reveal_strlit("\n");
    assert("\r\n"@ =~= seq!['\r', '\n']);
    assert("\n"@ =~= seq!['\n']);
    text_laws::having_is_being_in_the_middle(a + seq!['\r', '\n'] + b, "\r\n"@);
    text_laws::having_is_being_in_the_middle(text, "\r\n"@);
    assert(a + "\r\n"@ + b =~= a + seq!['\r', '\n'] + b);
    if text::has(text, "\r\n"@) && (forall|i: int|
        0 <= i < text.len() ==> #[trigger] text[i] != '\r') {
        let (x, y) = choose|x: Seq<char>, y: Seq<char>|
            text == #[trigger] ((x + "\r\n"@) + y);
        assert(text[x.len() as int] == '\r');
    }
}

} // verus!
