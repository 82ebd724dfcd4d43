//! Statement boundaries: where one free-form query ends inside a larger buffer.

use vstd::prelude::*;
use crate::text::{chars_of, is_whitespace, is_whitespace_char};

verus! {

/// Every character strictly between positions `i` and `j` of `s` is whitespace.
pub open spec fn blank_between(s: Seq<char>, i: int, j: int) -> bool {
    forall|m: int| i < m < j ==> is_whitespace(#[trigger] s[m])
}

/// Position `j` holds a newline that terminates a blank line: an earlier
/// newline exists with nothing but whitespace between the two.
pub open spec fn closes_blank_line(s: Seq<char>, j: int) -> bool {
    &&& 0 <= j < s.len()
    &&& s[j] == '\n'
    &&& exists|i: int| 0 <= i < j && s[i] == '\n' && #[trigger] blank_between(s, i, j)
}

/// One past the first position at or after `from` that closes a blank line.
pub open spec fn empty_line_from(s: Seq<char>, from: int) -> Option<int>
    decreases s.len() - from,
{
    if from < 0 || from >= s.len() {
        None
    } else if closes_blank_line(s, from) {
        Some(from + 1)
    } else {
        empty_line_from(s, from + 1)
    }
}

/// One past the newline that closes the first blank line of `s`, if `s` has one.
pub open spec fn empty_line_end(s: Seq<char>) -> Option<int> {
    empty_line_from(s, 0)
}

/// What the search finds is the first position at or after `from` that closes
/// a blank line; it finds nothing only where there is none.
pub proof fn lemma_empty_line_from(s: Seq<char>, from: int)
    requires
        0 <= from,
    ensures
        match empty_line_from(s, from) {
            Some(end) => {
                &&& from < end <= s.len()
                &&& closes_blank_line(s, end - 1)
                &&& forall|j: int| from <= j < end - 1 ==> !closes_blank_line(s, j)
            },
            None => forall|j: int| from <= j ==> !closes_blank_line(s, j),
        },
    decreases s.len() - from,
{
    if from < s.len() && !closes_blank_line(s, from) {
        lemma_empty_line_from(s, from + 1);
    }
}

/// The first blank line is found by the positions before it alone: if no
/// position before `upto` closes a blank line, the search resumes there.
pub proof fn lemma_empty_line_resume(s: Seq<char>, from: int, upto: int)
    requires
        0 <= from <= upto,
        forall|j: int| from <= j < upto ==> !closes_blank_line(s, j),
    ensures
        empty_line_from(s, from) == empty_line_from(s, upto),
    decreases upto - from,
{
    if from < upto {
        if from < s.len() {
            lemma_empty_line_resume(s, from + 1, upto);
        } else {
            assert(empty_line_from(s, upto) is None);
        }
    }
}

/// One past the newline that closes the first blank line of `input`: the first
/// line after the first that holds nothing but whitespace and is terminated.
pub fn empty_line_in(input: &[char]) -> (r: Option<usize>)
    ensures
        match r {
            Some(end) => empty_line_end(input@) == Some(end as int),
            None => empty_line_end(input@) is None,
        },
{
    let ghost s = input@;
    let mut seen_newline = false;
    let mut blank = false;
    let ghost mut last: int = -1;
    let mut i: usize = 0;
    while i < input.len()
        invariant
            i <= input.len(),
            s == input@,
            forall|j: int| 0 <= j < i ==> !closes_blank_line(s, j),
            seen_newline <==> last >= 0,
            -1 <= last < i,
            last >= 0 ==> s[last] == '\n',
            forall|m: int| last < m < i ==> s[m] != '\n',
            seen_newline ==> (blank <==> blank_between(s, last, i as int)),
        decreases input.len() - i,
    {
        let c = input[i];
        if c == '\n' {
            if seen_newline && blank {
                proof {
                    assert(closes_blank_line(s, i as int));
                    lemma_empty_line_resume(s, 0, i as int);
                }
                return Some(i + 1);
            }
            proof {
                if closes_blank_line(s, i as int) {
                    let p = choose|p: int|
                        0 <= p < i && s[p] == '\n' && #[trigger] blank_between(s, p, i as int);
                    assert(p <= last);
                    assert(blank_between(s, last, i as int));
                }
                last = i as int;
            }
            seen_newline = true;
            blank = true;
        } else if !is_whitespace_char(c) {
            blank = false;
            proof {
                if seen_newline {
                    assert(!is_whitespace(s[i as int]));
                }
            }
        }
        i += 1;
    }
    proof {
        lemma_empty_line_resume(s, 0, i as int);
    }
    None
}

/// Where the text up to and including the first blank line of `input` ends.
/// When `coerce_to_one_line` is set the whole input is taken instead.
pub fn index_after_empty_line(input: &[char], coerce_to_one_line: bool) -> (r: Option<usize>)
    ensures
        coerce_to_one_line ==> r == Some(input.len()),
        !coerce_to_one_line ==> match r {
            Some(end) => empty_line_end(input@) == Some(end as int) && 0 < end <= input.len(),
            None => empty_line_end(input@) is None,
        },
{
    if coerce_to_one_line {
        Some(input.len())
    } else {
        proof {
            lemma_empty_line_from(input@, 0);
        }
        empty_line_in(input)
    }
}

/// The search for a blank line on text: see [`empty_line_in`].
pub fn find_empty_line(input: &str) -> (r: Option<usize>)
    ensures
        match r {
            Some(end) => empty_line_end(input@) == Some(end as int),
            None => empty_line_end(input@) is None,
        },
{
    let chars = chars_of(input);
    empty_line_in(chars.as_slice())
}

/// The end of the first blank line of `s` that lies wholly at or after `from`.
pub open spec fn empty_line_after(s: Seq<char>, from: int) -> Option<int> {
    match empty_line_end(s.skip(from)) {
        Some(end) => Some(from + end),
        None => None,
    }
}

/// Whether a position closes a blank line is decided by the text up to it.
pub proof fn lemma_closes_blank_line_prefix(a: Seq<char>, b: Seq<char>, j: int)
    requires
        0 <= j < a.len(),
        j < b.len(),
        a.take(j + 1) == b.take(j + 1),
    ensures
        closes_blank_line(a, j) == closes_blank_line(b, j),
{
    assert forall|m: int| 0 <= m <= j implies a[m] == b[m] by {
        assert(a.take(j + 1)[m] == a[m]);
        assert(b.take(j + 1)[m] == b[m]);
    }
    if closes_blank_line(a, j) {
        let i = choose|i: int| 0 <= i < j && a[i] == '\n' && #[trigger] blank_between(a, i, j);
        assert(blank_between(b, i, j));
    }
    if closes_blank_line(b, j) {
        let i = choose|i: int| 0 <= i < j && b[i] == '\n' && #[trigger] blank_between(b, i, j);
        assert(blank_between(a, i, j));
    }
}

/// A blank line that closes at or after the end of some content opens after
/// that content too, so the positions that close a blank line in the rest of
/// `s` are those of `s`, shifted.
proof fn lemma_closes_after_content(s: Seq<char>, end: int, j: int)
    requires
        0 <= end <= s.len(),
        end == 0 || !is_whitespace(s[end - 1]),
        0 <= j,
    ensures
        closes_blank_line(s.skip(end), j) == closes_blank_line(s, end + j),
{
    let rest = s.skip(end);
    if closes_blank_line(rest, j) {
        let i = choose|i: int| 0 <= i < j && rest[i] == '\n' && #[trigger] blank_between(rest, i, j);
        assert forall|m: int| end + i < m < end + j implies is_whitespace(#[trigger] s[m]) by {
            assert(rest[m - end] == s[m]);
        }
        assert(blank_between(s, end + i, end + j));
    }
    if closes_blank_line(s, end + j) {
        let i = choose|i: int|
            0 <= i < end + j && s[i] == '\n' && #[trigger] blank_between(s, i, end + j);
        if i < end {
            if i < end - 1 {
                assert(is_whitespace(s[end - 1]));
            }
        }
        assert forall|m: int| i - end < m < j implies is_whitespace(#[trigger] rest[m]) by {
            assert(rest[m] == s[end + m]);
        }
        assert(rest[i - end] == s[i]);
        assert(blank_between(rest, i - end, j));
    }
}

proof fn lemma_empty_line_from_shift(s: Seq<char>, end: int, from: int)
    requires
        0 <= end <= s.len(),
        end == 0 || !is_whitespace(s[end - 1]),
        0 <= from,
    ensures
        empty_line_from(s, end + from) == match empty_line_from(s.skip(end), from) {
            Some(e) => Some(end + e),
            None => None,
        },
    decreases s.len() - end - from,
{
    let rest = s.skip(end);
    if from < rest.len() {
        lemma_closes_after_content(s, end, from);
        if !closes_blank_line(rest, from) {
            lemma_empty_line_from_shift(s, end, from + 1);
        }
    }
}

/// Searching for a blank line after some content finds the first blank line
/// of the whole text, provided none closes within the content: for `end` at
/// the start of `s` or just after a character that is not whitespace.
pub proof fn lemma_empty_line_after_content(s: Seq<char>, end: int)
    requires
        0 <= end <= s.len(),
        end == 0 || !is_whitespace(s[end - 1]),
        forall|j: int| 0 <= j < end ==> !closes_blank_line(s, j),
    ensures
        empty_line_after(s, end) == empty_line_end(s),
{
    lemma_empty_line_resume(s, 0, end);
    lemma_empty_line_from_shift(s, end, 0);
}

/// The text holds one statement at most: no blank line closes in it, nor by
/// the newline that may follow it.
pub open spec fn is_single_statement(statement: Seq<char>) -> bool {
    forall|j: int| !closes_blank_line(statement.push('\n'), j)
}

/// The statements, each followed by a blank line, as one buffer.
pub open spec fn joined(statements: Seq<Seq<char>>) -> Seq<char>
    decreases statements.len(),
{
    if statements.len() == 0 {
        Seq::empty()
    } else {
        statements[0] + seq!['\n', '\n'] + joined(statements.skip(1))
    }
}

/// In a buffer that starts with a single statement and a blank line, the first
/// blank line is that one.
pub proof fn lemma_first_blank_line_of_joined(statement: Seq<char>, tail: Seq<char>)
    requires
        is_single_statement(statement),
    ensures
        empty_line_end(statement + seq!['\n', '\n'] + tail) == Some(statement.len() as int + 2),
        forall|j: int|
            0 <= j <= statement.len() ==> !closes_blank_line(
                statement + seq!['\n', '\n'] + tail,
                j,
            ),
{
    let n = statement.len() as int;
    let s = statement + seq!['\n', '\n'] + tail;
    let closed = statement.push('\n');
    assert(s[n] == '\n');
    assert(s[n + 1] == '\n');
    assert forall|j: int| 0 <= j <= n implies !closes_blank_line(s, j) by {
        assert(s.take(j + 1) =~= closed.take(j + 1));
        lemma_closes_blank_line_prefix(s, closed, j);
    }
    assert(blank_between(s, n, n + 1));
    assert(closes_blank_line(s, n + 1));
    lemma_empty_line_resume(s, 0, n + 1);
}

} // verus!
