//! Literal keywords and how they are matched at the start of an input.

use vstd::prelude::*;
use vstd::slice::slice_subrange;
use crate::text::{
    chars_of, first_non_whitespace, is_whitespace, is_whitespace_char, skip_whitespace, starts_with,
    string_of, trim, trimmed_end,
};

verus! {

/// The characters that may stand before a token: whitespace, but no newline
/// where the input is to be read as a single line.
pub open spec fn is_separator(c: char, single_line: bool) -> bool {
    is_whitespace(c) && !(single_line && c == '\n')
}

/// Index of the first character at or after `from` that is no separator, or
/// the length of `s` if there is none.
pub open spec fn skip_separators(s: Seq<char>, from: int, single_line: bool) -> int
    decreases s.len() - from,
{
    if 0 <= from < s.len() && is_separator(s[from], single_line) {
        skip_separators(s, from + 1, single_line)
    } else {
        from
    }
}

/// Where input may span lines, the separators are the whitespace.
pub proof fn lemma_skip_separators_plain(s: Seq<char>, from: int)
    ensures
        skip_separators(s, from, false) == skip_whitespace(s, from),
    decreases s.len() - from,
{
    if 0 <= from < s.len() && is_whitespace(s[from]) {
        lemma_skip_separators_plain(s, from + 1);
    }
}

/// The literal `token` occurs in `input` at position `p`.
pub open spec fn occurs_at(token: Seq<char>, input: Seq<char>, p: int) -> bool {
    0 <= p <= input.len() && starts_with(input.skip(p), token)
}

/// The first position at or after `from` at which `token` occurs in `input`.
pub open spec fn first_occurrence(token: Seq<char>, input: Seq<char>, from: int) -> Option<int>
    decreases input.len() + 1 - from,
{
    if from < 0 || from > input.len() {
        None
    } else if occurs_at(token, input, from) {
        Some(from)
    } else {
        first_occurrence(token, input, from + 1)
    }
}

/// Where the literal `token` ends in `input`, if `input` starts with it.
///
/// The token matches where its first occurrence in `input` has nothing but
/// separators before it: whitespace, which in single-line mode reaches no
/// further than the first newline. The empty token occurs at the very start
/// and so matches without consuming anything.
pub open spec fn token_match(token: Seq<char>, input: Seq<char>, single_line: bool) -> Option<int> {
    match first_occurrence(token, input, 0) {
        Some(p) => if p <= skip_separators(input, 0, single_line) {
            Some(p + token.len())
        } else {
            None
        },
        None => None,
    }
}

/// What the search finds is the first occurrence at or after `from`; it finds
/// nothing only where there is none.
pub proof fn lemma_first_occurrence(token: Seq<char>, input: Seq<char>, from: int)
    requires
        0 <= from,
    ensures
        match first_occurrence(token, input, from) {
            Some(p) => {
                &&& from <= p <= input.len()
                &&& occurs_at(token, input, p)
                &&& forall|q: int| from <= q < p ==> !occurs_at(token, input, q)
            },
            None => forall|q: int| from <= q ==> !occurs_at(token, input, q),
        },
    decreases input.len() + 1 - from,
{
    if from <= input.len() && !occurs_at(token, input, from) {
        lemma_first_occurrence(token, input, from + 1);
    }
}

/// Where no occurrence lies before `upto`, the search resumes there.
pub proof fn lemma_first_occurrence_resume(token: Seq<char>, input: Seq<char>, from: int, upto: int)
    requires
        0 <= from <= upto,
        forall|q: int| from <= q < upto ==> !occurs_at(token, input, q),
    ensures
        first_occurrence(token, input, from) == first_occurrence(token, input, upto),
    decreases upto - from,
{
    if from < upto {
        if from <= input.len() {
            lemma_first_occurrence_resume(token, input, from + 1, upto);
        }
    }
}

/// A token that stands right after the leading whitespace of an input, or
/// within it, matches.
pub proof fn lemma_token_after_whitespace_matches(token: Seq<char>, input: Seq<char>, at: int)
    requires
        0 <= at <= skip_whitespace(input, 0),
        occurs_at(token, input, at),
    ensures
        token_match(token, input, false) is Some,
{
    lemma_first_occurrence(token, input, 0);
    lemma_skip_separators_plain(input, 0);
}

/// `a` comes before `b` in the order of tokens, given that the two agree on
/// their first `from` characters.
pub open spec fn token_before_from(a: Seq<char>, b: Seq<char>, from: int) -> bool
    decreases b.len() - from,
{
    if from < 0 || from >= b.len() {
        false
    } else if from >= a.len() {
        true
    } else if (a[from] as u32) < (b[from] as u32) {
        true
    } else if (a[from] as u32) > (b[from] as u32) {
        false
    } else {
        token_before_from(a, b, from + 1)
    }
}

/// `a` comes before `b` in the order of tokens: the order of the dictionary,
/// character by character, in which a token comes after each of its proper
/// initial segments.
pub open spec fn token_before(a: Seq<char>, b: Seq<char>) -> bool {
    token_before_from(a, b, 0)
}

/// The order of tokens is transitive.
pub proof fn lemma_token_before_transitive(a: Seq<char>, b: Seq<char>, c: Seq<char>, from: int)
    requires
        token_before_from(a, b, from),
        token_before_from(b, c, from),
    ensures
        token_before_from(a, c, from),
    decreases b.len() - from,
{
    if from < a.len() && (a[from] as u32) == (b[from] as u32) && (b[from] as u32) == (
    c[from] as u32) {
        lemma_token_before_transitive(a, b, c, from + 1);
    }
}

/// No token comes before itself.
pub proof fn lemma_token_before_irreflexive(a: Seq<char>, from: int)
    ensures
        !token_before_from(a, a, from),
    decreases a.len() - from,
{
    if 0 <= from < a.len() {
        lemma_token_before_irreflexive(a, from + 1);
    }
}

/// `input`, once trimmed, is an initial segment of `token`: the token is a
/// candidate to complete what has been typed.
pub open spec fn token_completes(token: Seq<char>, input: Seq<char>) -> bool {
    starts_with(token, trim(input))
}

/// Whether `pattern` occurs in `s` at position `from`.
pub fn has_prefix_at(s: &[char], from: usize, pattern: &[char]) -> (r: bool)
    requires
        from <= s.len(),
    ensures
        r == starts_with(s@.skip(from as int), pattern@),
{
    if pattern.len() > s.len() - from {
        return false;
    }
    let ghost rest = s@.skip(from as int);
    let mut i: usize = 0;
    while i < pattern.len()
        invariant
            i <= pattern.len(),
            from + pattern.len() <= s.len(),
            rest == s@.skip(from as int),
            rest.take(i as int) == pattern@.take(i as int),
        decreases pattern.len() - i,
    {
        if s[from + i] != pattern[i] {
            proof {
                let whole = rest.take(pattern.len() as int);
                assert(whole[i as int] == rest[i as int]);
            }
            return false;
        }
        proof {
            assert(rest.take(i + 1) == rest.take(i as int).push(rest[i as int]));
            assert(pattern@.take(i + 1) == pattern@.take(i as int).push(pattern@[i as int]));
        }
        i += 1;
    }
    proof {
        assert(pattern@.take(pattern.len() as int) == pattern@);
    }
    true
}

/// Position of the first character of `s` at or after `from` that is no
/// separator.
pub fn first_non_separator(s: &[char], from: usize, single_line: bool) -> (r: usize)
    requires
        from <= s.len(),
    ensures
        r == skip_separators(s@, from as int, single_line),
        from <= r <= s.len(),
{
    let mut i = from;
    while i < s.len() && is_whitespace_char(s[i]) && !(single_line && s[i] == '\n')
        invariant
            from <= i <= s.len(),
            skip_separators(s@, i as int, single_line) == skip_separators(
                s@,
                from as int,
                single_line,
            ),
        decreases s.len() - i,
    {
        i += 1;
    }
    i
}

/// An immutable literal keyword. The empty token stands for "no keyword".
#[derive(Debug)]
pub struct CommandToken {
    pub literal: Vec<char>,
}

impl View for CommandToken {
    type V = Seq<char>;

    open spec fn view(&self) -> Seq<char> {
        self.literal@
    }
}

impl CommandToken {
/// The token with the literal `token`.
    pub fn new(token: &'static str) -> (r: Self)
        ensures
            r@ == token@,
    {
        CommandToken { literal: chars_of(token) }
    }

    /// The literal as a string.
    pub fn to_string(&self) -> (r: String)
        ensures
            r@ == self@,
    {
        string_of(self.literal.as_slice())
    }

    /// Number of characters of the literal.
    pub fn len(&self) -> (r: usize)
        ensures
            r == self@.len(),
    {
        self.literal.len()
    }

    /// Whether this token comes before `other` in the order of tokens.
    pub fn less_than(&self, other: &CommandToken) -> (r: bool)
        ensures
            r == token_before(self@, other@),
    {
        let mut i: usize = 0;
        loop
            invariant
                i <= self.literal.len(),
                i <= other.literal.len(),
                token_before_from(self@, other@, i as int) == token_before(self@, other@),
            decreases other.literal.len() - i,
        {
            if i >= other.literal.len() {
                return false;
            }
            if i >= self.literal.len() {
                return true;
            }
            let mine = self.literal[i] as u32;
            let theirs = other.literal[i] as u32;
            if mine < theirs {
                return true;
            }
            if mine > theirs {
                return false;
            }
            i += 1;
        }
    }

    /// Whether the two tokens are the same literal.
    pub fn same_as(&self, other: &CommandToken) -> (r: bool)
        ensures
            r == (self@ == other@),
    {
        let r = self.literal.len() == other.literal.len() && has_prefix_at(
            self.literal.as_slice(),
            0,
            other.literal.as_slice(),
        );
        proof {
            assert(self@.skip(0) == self@);
            if self@.len() == other@.len() {
                assert(self@.take(self@.len() as int) == self@);
            }
        }
        r
    }

    /// Matches the token at the start of `input`, leading whitespace aside;
    /// in single-line mode a newline before the token is not passed over.
    /// Returns the part of `input` up to the end of the token, the part after
    /// it, and the offset that separates the two.
    pub fn match_<'a>(&self, input: &'a [char], single_line: bool) -> (r: Option<
        (&'a [char], &'a [char], usize),
    >)
        ensures
            match r {
                Some((matched, remaining, end)) => {
                    &&& token_match(self@, input@, single_line) == Some(end as int)
                    &&& end <= input.len()
                    &&& matched@ == input@.take(end as int)
                    &&& remaining@ == input@.skip(end as int)
                },
                None => token_match(self@, input@, single_line) is None,
            },
    {
        let limit = first_non_separator(input, 0, single_line);
        let mut at: usize = 0;
        loop
            invariant
                at <= limit,
                limit <= input.len(),
                limit == skip_separators(input@, 0, single_line),
                forall|q: int| 0 <= q < at ==> !occurs_at(self@, input@, q),
            decreases limit - at,
        {
            proof {
                lemma_first_occurrence_resume(self@, input@, 0, at as int);
                lemma_first_occurrence(self@, input@, at as int);
            }
            if has_prefix_at(input, at, self.literal.as_slice()) {
                let end = at + self.literal.len();
                let matched = slice_subrange(input, 0, end);
                let remaining = slice_subrange(input, end, input.len());
                proof {
                    assert(matched@ == input@.take(end as int));
                    assert(remaining@ == input@.skip(end as int));
                }
                return Some((matched, remaining, end));
            }
            if at == limit {
                proof {
                    lemma_first_occurrence_resume(self@, input@, 0, at + 1);
                    lemma_first_occurrence(self@, input@, at + 1);
                }
                return None;
            }
            at += 1;
        }
    }

    /// Whether the token starts with `input` once `input` is trimmed.
    pub fn completes(&self, input: &[char]) -> (r: bool)
        ensures
            r == token_completes(self@, input@),
    {
        let start = first_non_whitespace(input, 0);
        let rest = slice_subrange(input, start, input.len());
        let end = trimmed_end(rest);
        let trimmed = slice_subrange(rest, 0, end);
        proof {
            assert(rest@ == input@.skip(start as int));
            assert(trimmed@ == rest@.take(end as int));
            assert(self@.skip(0) == self@);
        }
        has_prefix_at(self.literal.as_slice(), 0, trimmed)
    }
}

} // verus!
