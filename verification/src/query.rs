//! The statement boundary detector: how much of a buffer is one query.
//!
//! The grammar itself belongs to the `typeql` crate. Its verdict on a buffer is
//! brought into the library as a [`QueryParse`]; everything that is decided
//! from that verdict is decided here.

use vstd::prelude::*;
use vstd::slice::slice_subrange;
use crate::statement::{
    closes_blank_line, empty_line_after, empty_line_end, empty_line_in, is_single_statement,
    joined, lemma_empty_line_after_content, lemma_first_blank_line_of_joined,
};
use crate::text::{
    chars_of, content_end, first_non_whitespace, is_blank, is_whitespace, lemma_blank_iff_skipped,
    trimmed_end,
};

verus! {

/// One error reported by the grammar.
#[derive(Clone, Copy, Debug, PartialEq, Eq)]
pub enum ParseIssue {
    /// A syntax error with the number of its line, counted from 1.
    Syntax { line_nr: usize },
    /// Any other error: it carries no position.
    Other,
}

/// What the grammar made of a buffer.
#[derive(Debug)]
pub enum QueryParse {
    /// A query was read from the start of the buffer. `end_offset` is the
    /// number of bytes of the buffer's UTF-8 encoding that it covers.
    Parsed { end_offset: usize, explicit_end: bool },
    /// No query could be read; `issues` are the errors in the order reported.
    Failed { issues: Vec<ParseIssue> },
}

/// The mathematical content of a [`QueryParse`].
pub enum QueryParseModel {
    Parsed { end_offset: nat, explicit_end: bool },
    Failed { issues: Seq<ParseIssue> },
}

impl View for QueryParse {
    type V = QueryParseModel;

    open spec fn view(&self) -> QueryParseModel {
        match *self {
            QueryParse::Parsed { end_offset, explicit_end } => QueryParseModel::Parsed {
                end_offset: end_offset as nat,
                explicit_end,
            },
            QueryParse::Failed { issues } => QueryParseModel::Failed { issues: issues@ },
        }
    }
}

/// The verdict of `typeql::parse_query_from` on the text `input`.
pub uninterp spec fn typeql_prefix(input: Seq<char>) -> QueryParseModel;

/// Calls `typeql::parse_query_from`, which reads one query from the start of
/// `input`. On success it keeps the byte offset at which the query's span ends
/// and whether the query closed with its explicit end marker; on failure it
/// keeps, for each reported error in order, the line number of a detailed
/// syntax error and nothing of any other. The parser is a function of its
/// input alone, which is all the contract claims; that holds as long as
/// nothing in the process sets the call limit of the parser generator, which
/// this library never does. The grammar nests patterns without a bound, so a
/// query nested deeply enough exhausts the stack of the parser, as it would
/// exhaust memory.
#[verifier::external_body]
pub(crate) fn parse_prefix(input: &str) -> (outcome: QueryParse)
    ensures
        outcome@ == typeql_prefix(input@),
{
    match typeql::parse_query_from(input) {
        Ok((query, end_offset)) => QueryParse::Parsed { end_offset, explicit_end: query.has_explicit_end() },
        Err(err) => QueryParse::Failed {
            issues: err.errors().iter().map(|error| match error {
                typeql::common::error::TypeQLError::SyntaxErrorDetailed { error_line_nr, .. } =>
                    ParseIssue::Syntax { line_nr: *error_line_nr },
                _ => ParseIssue::Other,
            }).collect(),
        },
    }
}

/// Number of bytes in the UTF-8 encoding of `c`.
pub open spec fn utf8_width(c: char) -> int {
    let u = c as u32;
    if u < 0x80 {
        1
    } else if u < 0x800 {
        2
    } else if u < 0x10000 {
        3
    } else {
        4
    }
}

/// Index of the first character at or after `from` whose encoding does not fit
/// in the `bytes` bytes that start with the encoding of character `from`.
pub open spec fn char_offset_from(s: Seq<char>, from: int, bytes: int) -> int
    decreases s.len() - from,
{
    if 0 <= from < s.len() && utf8_width(s[from]) <= bytes {
        char_offset_from(s, from + 1, bytes - utf8_width(s[from]))
    } else {
        from
    }
}

/// Number of leading characters of `s` that lie within the first `bytes` bytes
/// of its UTF-8 encoding.
pub open spec fn char_offset(s: Seq<char>, bytes: int) -> int {
    char_offset_from(s, 0, bytes)
}

/// Number of bytes in the UTF-8 encoding of the characters of `s` from `from` on.
pub open spec fn utf8_len_from(s: Seq<char>, from: int) -> int
    decreases s.len() - from,
{
    if 0 <= from < s.len() {
        utf8_width(s[from]) + utf8_len_from(s, from + 1)
    } else {
        0
    }
}

/// Number of bytes in the UTF-8 encoding of `s`.
pub open spec fn utf8_len(s: Seq<char>) -> int {
    utf8_len_from(s, 0)
}

/// Index of the first newline of `s` at or after `from`, or the length of `s`.
pub open spec fn next_newline(s: Seq<char>, from: int) -> int
    decreases s.len() - from,
{
    if 0 <= from < s.len() && s[from] != '\n' {
        next_newline(s, from + 1)
    } else {
        from
    }
}

/// Index at which line `line` of `s` starts, lines counted from 0 and
/// separated by newlines; `None` if `s` has fewer lines.
pub open spec fn line_start(s: Seq<char>, line: nat) -> Option<int>
    decreases line,
{
    if line == 0 {
        Some(0)
    } else {
        match line_start(s, (line - 1) as nat) {
            Some(start) => {
                let newline = next_newline(s, start);
                if newline < s.len() {
                    Some(newline + 1)
                } else {
                    None
                }
            },
            None => None,
        }
    }
}

/// The line, counted from 0, at which the search for a blank line resumes
/// after a failed parse: the deepest line below the first on which a syntax
/// error is reported, or the first line if there is none.
pub open spec fn deepest_issue(issues: Seq<ParseIssue>) -> int
    decreases issues.len(),
{
    if issues.len() == 0 {
        0
    } else {
        let earlier = deepest_issue(issues.drop_last());
        match issues.last() {
            ParseIssue::Syntax { line_nr } => if line_nr - 1 > earlier {
                line_nr - 1
            } else {
                earlier
            },
            ParseIssue::Other => earlier,
        }
    }
}

/// How many characters of the buffer `s` make up one statement, given the
/// grammar's verdict on `s`; `None` when more input is needed.
///
/// A blank buffer holds no statement. A parsed query that closed with its end
/// marker ends where the parser stopped, less trailing whitespace. One without
/// the marker ends with the first blank line after it. After a failed parse
/// the statement ends with the first blank line from the start of the deepest
/// line with a syntax error; where the buffer has no such line, with the first
/// blank line of the buffer.
pub open spec fn spec_query_end(s: Seq<char>, outcome: QueryParseModel) -> Option<int> {
    if is_blank(s) {
        None
    } else {
        match outcome {
            QueryParseModel::Parsed { end_offset, explicit_end } => {
                let end = content_end(s.take(char_offset(s, end_offset as int)));
                if explicit_end {
                    Some(end)
                } else {
                    empty_line_after(s, end)
                }
            },
            QueryParseModel::Failed { issues } => match line_start(
                s,
                deepest_issue(issues) as nat,
            ) {
                Some(start) => empty_line_after(s, start),
                None => empty_line_end(s),
            },
        }
    }
}

/// The conversion of an offset stays within the text.
pub proof fn lemma_char_offset_from(s: Seq<char>, from: int, bytes: int)
    requires
        0 <= from <= s.len(),
    ensures
        from <= char_offset_from(s, from, bytes) <= s.len(),
    decreases s.len() - from,
{
    if from < s.len() && utf8_width(s[from]) <= bytes {
        lemma_char_offset_from(s, from + 1, bytes - utf8_width(s[from]));
    }
}

proof fn lemma_next_newline_bounds(s: Seq<char>, from: int)
    requires
        0 <= from <= s.len(),
    ensures
        from <= next_newline(s, from) <= s.len(),
    decreases s.len() - from,
{
    if from < s.len() && s[from] != '\n' {
        lemma_next_newline_bounds(s, from + 1);
    }
}

proof fn lemma_line_start_bounds(s: Seq<char>, line: nat)
    ensures
        line_start(s, line) matches Some(start) ==> 0 <= start <= s.len(),
    decreases line,
{
    if line > 0 {
        lemma_line_start_bounds(s, (line - 1) as nat);
        if let Some(start) = line_start(s, (line - 1) as nat) {
            lemma_next_newline_bounds(s, start);
        }
    }
}

proof fn lemma_empty_line_after_bounds(s: Seq<char>, from: int)
    requires
        0 <= from <= s.len(),
    ensures
        empty_line_after(s, from) matches Some(end) ==> from < end <= s.len(),
{
    crate::statement::lemma_empty_line_from(s.skip(from), 0);
}

/// A statement lies within its buffer: the boundary is an offset into it.
pub proof fn lemma_query_end_bounds(s: Seq<char>, outcome: QueryParseModel)
    ensures
        spec_query_end(s, outcome) matches Some(end) ==> 0 <= end <= s.len(),
{
    if !is_blank(s) {
        match outcome {
            QueryParseModel::Parsed { end_offset, explicit_end } => {
                lemma_char_offset_from(s, 0, end_offset as int);
                let read = s.take(char_offset(s, end_offset as int));
                crate::text::lemma_content_end(read);
                lemma_empty_line_after_bounds(s, content_end(read));
            },
            QueryParseModel::Failed { issues } => {
                lemma_line_start_bounds(s, deepest_issue(issues) as nat);
                match line_start(s, deepest_issue(issues) as nat) {
                    Some(start) => {
                        lemma_empty_line_after_bounds(s, start);
                    },
                    None => {
                        crate::statement::lemma_empty_line_from(s, 0);
                    },
                }
            },
        }
    }
}

proof fn lemma_char_offset_prefix(s: Seq<char>, suffix: Seq<char>, from: int, bytes: int)
    requires
        0 <= from <= s.len(),
        bytes <= utf8_len_from(s, from),
    ensures
        char_offset_from(s + suffix, from, bytes) == char_offset_from(s, from, bytes),
    decreases s.len() - from,
{
    let t = s + suffix;
    if from < s.len() {
        assert(t[from] == s[from]);
        if utf8_width(s[from]) <= bytes {
            lemma_char_offset_prefix(s, suffix, from + 1, bytes - utf8_width(s[from]));
        }
    }
}

/// A statement that closed with its explicit end marker keeps its boundary when
/// the buffer grows at its end: for a buffer `s` that holds such a statement
/// within its first `end_offset` bytes, and for any text appended to `s`, the
/// same verdict of the grammar gives the same boundary.
pub proof fn lemma_explicit_end_is_stable(s: Seq<char>, suffix: Seq<char>, end_offset: nat)
    requires
        !is_blank(s),
        end_offset <= utf8_len(s),
    ensures
        spec_query_end(
            s + suffix,
            QueryParseModel::Parsed { end_offset, explicit_end: true },
        ) == spec_query_end(s, QueryParseModel::Parsed { end_offset, explicit_end: true }),
{
    let t = s + suffix;
    lemma_char_offset_prefix(s, suffix, 0, end_offset as int);
    lemma_char_offset_from(s, 0, end_offset as int);
    let consumed = char_offset(s, end_offset as int);
    assert(t.take(consumed) == s.take(consumed));
    let i = choose|i: int| 0 <= i < s.len() && !is_whitespace(#[trigger] s[i]);
    assert(t[i] == s[i]);
}

/// A statement without end marker and without a blank line inside it ends
/// with the first blank line of the buffer: where the grammar read a query
/// from the start of `s` up to a point before which no blank line closes, the
/// detector's boundary is that of cutting `s` at its first blank line.
pub proof fn lemma_unterminated_ends_at_first_blank_line(s: Seq<char>, end_offset: nat)
    requires
        !is_blank(s),
        forall|j: int|
            0 <= j < content_end(s.take(char_offset(s, end_offset as int)))
                ==> !closes_blank_line(s, j),
    ensures
        spec_query_end(s, QueryParseModel::Parsed { end_offset, explicit_end: false })
            == empty_line_end(s),
{
    let consumed = char_offset(s, end_offset as int);
    lemma_char_offset_from(s, 0, end_offset as int);
    let read = s.take(consumed);
    crate::text::lemma_content_end(read);
    let end = content_end(read);
    if end > 0 {
        assert(read[end - 1] == s[end - 1]);
    }
    lemma_empty_line_after_content(s, end);
}

/// The statements that the detector delimits in `s` when it is applied again
/// and again, each time to what the statement before has left.
pub open spec fn detected_statements(s: Seq<char>) -> Seq<Seq<char>>
    decreases s.len(),
{
    match spec_query_end(s, typeql_prefix(s)) {
        Some(end) => if 0 < end <= s.len() {
            seq![s.take(end)] + detected_statements(s.skip(end))
        } else {
            Seq::empty()
        },
        None => Seq::empty(),
    }
}

/// What the detector leaves of `s` after the statements that it delimits.
pub open spec fn undetected_rest(s: Seq<char>) -> Seq<char>
    decreases s.len(),
{
    match spec_query_end(s, typeql_prefix(s)) {
        Some(end) => if 0 < end <= s.len() {
            undetected_rest(s.skip(end))
        } else {
            s
        },
        None => s,
    }
}

/// The grammar reads from the start of `s` a query without end marker that
/// ends, trailing whitespace aside, within the first `limit` characters.
pub open spec fn parses_unterminated_within(s: Seq<char>, limit: int) -> bool {
    &&& typeql_prefix(s) matches QueryParseModel::Parsed { end_offset, explicit_end }
    &&& !explicit_end
    &&& content_end(s.take(char_offset(s, end_offset as int))) <= limit
}

/// Cutting a buffer with the detector gives back the statements it was made
/// of. Let every statement hold no blank line and not be blank, and let the
/// buffer be the statements, each followed by a blank line. Where the grammar
/// reads from each statement onwards a query without end marker that ends
/// within that statement, the detector, applied again and again, delimits the
/// given statements in their order, each with its blank line, and leaves
/// nothing; trimmed, each piece is its statement, trimmed. These are the
/// pieces that cutting the buffer at its blank lines gives.
pub proof fn lemma_detector_round_trip(statements: Seq<Seq<char>>)
    requires
        forall|k: int|
            0 <= k < statements.len() ==> {
                &&& is_single_statement(#[trigger] statements[k])
                &&& !is_blank(statements[k])
                &&& parses_unterminated_within(joined(statements.skip(k)), statements[k].len() as int)
            },
    ensures
        detected_statements(joined(statements)) == statements.map_values(
            |s: Seq<char>| s + seq!['\n', '\n'],
        ),
        undetected_rest(joined(statements)).len() == 0,
        forall|k: int|
            0 <= k < statements.len() ==> crate::text::trim(
                #[trigger] detected_statements(joined(statements))[k],
            ) == crate::text::trim(statements[k]),
    decreases statements.len(),
{
    let whole = joined(statements);
    let expected = statements.map_values(|s: Seq<char>| s + seq!['\n', '\n']);
    if statements.len() == 0 {
        assert(is_blank(whole));
        assert(detected_statements(whole) =~= expected);
    } else {
        let first = statements[0];
        let others = statements.skip(1);
        let tail = joined(others);
        let n = first.len() as int;
        assert(statements.skip(0) == statements);
        assert(whole == first + seq!['\n', '\n'] + tail);
        lemma_first_blank_line_of_joined(first, tail);
        let i = choose|i: int| 0 <= i < first.len() && !is_whitespace(#[trigger] first[i]);
        assert(whole[i] == first[i]);
        let end_offset = typeql_prefix(whole)->Parsed_end_offset;
        lemma_unterminated_ends_at_first_blank_line(whole, end_offset);
        assert(spec_query_end(whole, typeql_prefix(whole)) == Some(n + 2));
        assert(whole.take(n + 2) =~= first + seq!['\n', '\n']);
        assert(whole.skip(n + 2) =~= tail);
        assert forall|k: int| 0 <= k < others.len() implies {
            &&& is_single_statement(#[trigger] others[k])
            &&& !is_blank(others[k])
            &&& parses_unterminated_within(joined(others.skip(k)), others[k].len() as int)
        } by {
            assert(others[k] == statements[k + 1]);
            assert(others.skip(k) =~= statements.skip(k + 1));
        }
        lemma_detector_round_trip(others);
        let rest = others.map_values(|s: Seq<char>| s + seq!['\n', '\n']);
        assert(detected_statements(whole) == seq![first + seq!['\n', '\n']] + rest);
        assert(seq![first + seq!['\n', '\n']] + rest =~= expected);
    }
    assert forall|k: int| 0 <= k < statements.len() implies crate::text::trim(
        #[trigger] detected_statements(whole)[k],
    ) == crate::text::trim(statements[k]) by {
        let blank_line = seq!['\n', '\n'];
        assert(is_blank(blank_line));
        assert(detected_statements(whole)[k] == statements[k] + blank_line);
        crate::text::lemma_trim_drops_blank_tail(statements[k], blank_line);
    }
}

/// Number of bytes in the UTF-8 encoding of `c`.
pub fn utf8_width_of(c: char) -> (w: usize)
    ensures
        w == utf8_width(c),
        1 <= w <= 4,
{
    let u = c as u32;
    if u < 0x80 {
        1
    } else if u < 0x800 {
        2
    } else if u < 0x10000 {
        3
    } else {
        4
    }
}

/// Converts an offset into the UTF-8 encoding of `input` to a count of
/// characters: the number of leading characters that lie within `bytes` bytes.
pub fn char_offset_in(input: &[char], bytes: usize) -> (r: usize)
    ensures
        r == char_offset(input@, bytes as int),
        r <= input.len(),
{
    let mut i: usize = 0;
    let mut left = bytes;
    while i < input.len() && utf8_width_of(input[i]) <= left
        invariant
            i <= input.len(),
            char_offset_from(input@, i as int, left as int) == char_offset(input@, bytes as int),
        decreases input.len() - i,
    {
        left -= utf8_width_of(input[i]);
        i += 1;
    }
    i
}

/// Index of the first newline of `input` at or after `from`, or its length.
pub fn next_newline_in(input: &[char], from: usize) -> (r: usize)
    requires
        from <= input.len(),
    ensures
        r == next_newline(input@, from as int),
        from <= r <= input.len(),
{
    let mut i = from;
    while i < input.len() && input[i] != '\n'
        invariant
            from <= i <= input.len(),
            next_newline(input@, i as int) == next_newline(input@, from as int),
        decreases input.len() - i,
    {
        i += 1;
    }
    i
}

/// Index at which the zero-based line `line` of `input` starts.
pub fn line_start_in(input: &[char], line: usize) -> (r: Option<usize>)
    ensures
        match r {
            Some(start) => line_start(input@, line as nat) == Some(start as int) && start
                <= input.len(),
            None => line_start(input@, line as nat) is None,
        },
{
    let mut start: usize = 0;
    let mut k: usize = 0;
    while k < line
        invariant
            k <= line,
            start <= input.len(),
            line_start(input@, k as nat) == Some(start as int),
        decreases line - k,
    {
        let newline = next_newline_in(input, start);
        if newline >= input.len() {
            proof {
                lemma_line_start_none(input@, (k + 1) as nat, line as nat);
            }
            return None;
        }
        start = newline + 1;
        k += 1;
    }
    Some(start)
}

/// Once a line is missing, so is every later one.
pub proof fn lemma_line_start_none(s: Seq<char>, line: nat, later: nat)
    requires
        line <= later,
        line_start(s, line) is None,
    ensures
        line_start(s, later) is None,
    decreases later - line,
{
    if line < later {
        lemma_line_start_none(s, line, (later - 1) as nat);
    }
}

/// The line, counted from 0, at which the search for a blank line resumes
/// after a failed parse.
pub fn deepest_issue_of(issues: &[ParseIssue]) -> (r: usize)
    ensures
        r == deepest_issue(issues@),
{
    let mut line: usize = 0;
    let mut i: usize = 0;
    while i < issues.len()
        invariant
            i <= issues.len(),
            line == deepest_issue(issues@.take(i as int)),
        decreases issues.len() - i,
    {
        proof {
            assert(issues@.take(i + 1).drop_last() == issues@.take(i as int));
        }
        match issues[i] {
            ParseIssue::Syntax { line_nr } => {
                if line_nr > 0 && line_nr - 1 > line {
                    line = line_nr - 1;
                }
            },
            ParseIssue::Other => {},
        }
        i += 1;
    }
    proof {
        assert(issues@.take(i as int) == issues@);
    }
    line
}

/// The end of the first blank line of `input` that lies at or after `from`.
pub fn empty_line_after_in(input: &[char], from: usize) -> (r: Option<usize>)
    requires
        from <= input.len(),
    ensures
        match r {
            Some(end) => empty_line_after(input@, from as int) == Some(end as int) && end
                <= input.len(),
            None => empty_line_after(input@, from as int) is None,
        },
{
    let rest = slice_subrange(input, from, input.len());
    proof {
        assert(rest@ == input@.skip(from as int));
        crate::statement::lemma_empty_line_from(rest@, 0);
    }
    match empty_line_in(rest) {
        Some(end) => Some(from + end),
        None => None,
    }
}

/// How many characters of `input` make up one statement, given the grammar's
/// verdict `outcome` on `input`; `None` when more input is needed.
pub fn query_end(input: &[char], outcome: &QueryParse) -> (r: Option<usize>)
    ensures
        match r {
            Some(end) => spec_query_end(input@, outcome@) == Some(end as int) && end <= input.len(),
            None => spec_query_end(input@, outcome@) is None,
        },
{
    let ghost s = input@;
    proof {
        lemma_blank_iff_skipped(s);
    }
    if first_non_whitespace(input, 0) == input.len() {
        return None;
    }
    match outcome {
        QueryParse::Parsed { end_offset, explicit_end } => {
            let consumed = char_offset_in(input, *end_offset);
            let end = trimmed_end(slice_subrange(input, 0, consumed));
            proof {
                assert(s.subrange(0, consumed as int) == s.take(consumed as int));
            }
            if *explicit_end {
                Some(end)
            } else {
                empty_line_after_in(input, end)
            }
        },
        QueryParse::Failed { issues } => {
            let line = deepest_issue_of(issues.as_slice());
            match line_start_in(input, line) {
                Some(start) => empty_line_after_in(input, start),
                None => {
                    proof {
                        crate::statement::lemma_empty_line_from(s, 0);
                    }
                    empty_line_in(input)
                },
            }
        },
    }
}

/// Reads a query of maximal length from the start of `input` and returns how
/// many characters it takes. When `coerce_to_one_line` is set the whole input
/// is the query. Otherwise the grammar is asked and [`query_end`] decides.
pub fn parse_one_query(input: &str, coerce_to_one_line: bool) -> (r: Option<usize>)
    ensures
        coerce_to_one_line ==> r == Some(input@.len() as usize),
        !coerce_to_one_line ==> match r {
            Some(end) => spec_query_end(input@, typeql_prefix(input@)) == Some(end as int),
            None => spec_query_end(input@, typeql_prefix(input@)) is None,
        },
{
    let chars = chars_of(input);
    if coerce_to_one_line {
        Some(chars.len())
    } else {
        let outcome = parse_prefix(input);
        query_end(chars.as_slice(), &outcome)
    }
}

} // verus!
