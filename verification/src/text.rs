//! Character-level primitives: whitespace, trimming, words and blank lines.

use vstd::prelude::*;
use vstd::slice::slice_subrange;

verus! {

/// The characters with the Unicode `White_Space` property.
pub open spec fn is_whitespace(c: char) -> bool {
    let u = c as u32;
    ||| 0x09 <= u <= 0x0D
    ||| u == 0x20
    ||| u == 0x85
    ||| u == 0xA0
    ||| u == 0x1680
    ||| 0x2000 <= u <= 0x200A
    ||| u == 0x2028
    ||| u == 0x2029
    ||| u == 0x202F
    ||| u == 0x205F
    ||| u == 0x3000
}

/// Every character of `s` is whitespace.
pub open spec fn is_blank(s: Seq<char>) -> bool {
    forall|i: int| 0 <= i < s.len() ==> is_whitespace(#[trigger] s[i])
}

/// Index of the first character at or after `from` that is not whitespace,
/// or the length of `s` if there is none.
pub open spec fn skip_whitespace(s: Seq<char>, from: int) -> int
    decreases s.len() - from,
{
    if 0 <= from < s.len() && is_whitespace(s[from]) {
        skip_whitespace(s, from + 1)
    } else {
        from
    }
}

/// Index of the first whitespace character at or after `from`, or the length
/// of `s` if there is none.
pub open spec fn skip_word(s: Seq<char>, from: int) -> int
    decreases s.len() - from,
{
    if 0 <= from < s.len() && !is_whitespace(s[from]) {
        skip_word(s, from + 1)
    } else {
        from
    }
}

/// One past the last character of `s` that is not whitespace; 0 if `s` is blank.
pub open spec fn content_end(s: Seq<char>) -> int
    decreases s.len(),
{
    if s.len() > 0 && is_whitespace(s.last()) {
        content_end(s.drop_last())
    } else {
        s.len() as int
    }
}

/// `s` without its leading whitespace.
pub open spec fn trim_start(s: Seq<char>) -> Seq<char> {
    s.skip(skip_whitespace(s, 0))
}

/// `s` without its trailing whitespace.
pub open spec fn trim_end(s: Seq<char>) -> Seq<char> {
    s.take(content_end(s))
}

/// `s` without leading and trailing whitespace.
pub open spec fn trim(s: Seq<char>) -> Seq<char> {
    trim_end(trim_start(s))
}

/// `prefix` is an initial segment of `s`.
pub open spec fn starts_with(s: Seq<char>, prefix: Seq<char>) -> bool {
    prefix.len() <= s.len() && s.take(prefix.len() as int) == prefix
}

/// The scan stops within the text, passes nothing but whitespace, and stops at
/// a character that is not whitespace or at the end.
pub proof fn lemma_skip_whitespace(s: Seq<char>, from: int)
    requires
        0 <= from <= s.len(),
    ensures
        from <= skip_whitespace(s, from) <= s.len(),
        forall|i: int| from <= i < skip_whitespace(s, from) ==> is_whitespace(#[trigger] s[i]),
        skip_whitespace(s, from) < s.len() ==> !is_whitespace(s[skip_whitespace(s, from)]),
    decreases s.len() - from,
{
    if from < s.len() && is_whitespace(s[from]) {
        lemma_skip_whitespace(s, from + 1);
    }
}

/// The scan stops within the text, passes no whitespace, and stops at a
/// whitespace character or at the end.
pub proof fn lemma_skip_word(s: Seq<char>, from: int)
    requires
        0 <= from <= s.len(),
    ensures
        from <= skip_word(s, from) <= s.len(),
        forall|i: int| from <= i < skip_word(s, from) ==> !is_whitespace(#[trigger] s[i]),
        skip_word(s, from) < s.len() ==> is_whitespace(s[skip_word(s, from)]),
    decreases s.len() - from,
{
    if from < s.len() && !is_whitespace(s[from]) {
        lemma_skip_word(s, from + 1);
    }
}

/// Nothing but whitespace follows the content, and the content does not end
/// with whitespace.
pub proof fn lemma_content_end(s: Seq<char>)
    ensures
        0 <= content_end(s) <= s.len(),
        forall|i: int| content_end(s) <= i < s.len() ==> is_whitespace(#[trigger] s[i]),
        content_end(s) > 0 ==> !is_whitespace(s[content_end(s) - 1]),
    decreases s.len(),
{
    if s.len() > 0 && is_whitespace(s.last()) {
        let shorter = s.drop_last();
        lemma_content_end(shorter);
        assert forall|i: int| content_end(s) <= i < s.len() implies is_whitespace(
            #[trigger] s[i],
        ) by {
            if i < shorter.len() {
                assert(s[i] == shorter[i]);
            }
        }
    }
}

/// What has been trimmed neither starts nor ends with whitespace, so that
/// trimming it again changes nothing.
pub proof fn lemma_trim_is_trimmed(s: Seq<char>)
    ensures
        trim(trim(s)) == trim(s),
        trim(s).len() > 0 ==> !is_whitespace(trim(s)[0]) && !is_whitespace(trim(s).last()),
        trim(s).len() <= s.len(),
{
    lemma_skip_whitespace(s, 0);
    let rest = trim_start(s);
    lemma_content_end(rest);
    let v = trim(s);
    let end = content_end(rest);
    assert(v == rest.take(end));
    if v.len() > 0 {
        assert(v[0] == rest[0]);
        assert(v.last() == rest[end - 1]);
        assert(skip_whitespace(v, 0) == 0);
        assert(trim_start(v) == v);
        assert(content_end(v) == v.len());
        assert(trim_end(v) == v);
    } else {
        assert(trim_start(v) =~= v);
        assert(trim_end(trim_start(v)) =~= v);
    }
}

proof fn lemma_skip_whitespace_prefix(s: Seq<char>, tail: Seq<char>, from: int)
    requires
        0 <= from <= s.len(),
        skip_whitespace(s, from) < s.len(),
    ensures
        skip_whitespace(s + tail, from) == skip_whitespace(s, from),
    decreases s.len() - from,
{
    assert((s + tail)[from] == s[from]);
    if is_whitespace(s[from]) {
        lemma_skip_whitespace_prefix(s, tail, from + 1);
    }
}

proof fn lemma_content_end_blank_tail(s: Seq<char>, tail: Seq<char>)
    requires
        is_blank(tail),
    ensures
        content_end(s + tail) == content_end(s),
    decreases tail.len(),
{
    if tail.len() > 0 {
        let whole = s + tail;
        assert(whole.last() == tail.last());
        assert(whole.drop_last() =~= s + tail.drop_last());
        assert forall|i: int| 0 <= i < tail.drop_last().len() implies is_whitespace(
            #[trigger] tail.drop_last()[i],
        ) by {
            assert(tail.drop_last()[i] == tail[i]);
        }
        lemma_content_end_blank_tail(s, tail.drop_last());
    } else {
        assert(s + tail =~= s);
    }
}

/// Whitespace after a text that is not blank is trimmed away with the rest.
pub proof fn lemma_trim_drops_blank_tail(s: Seq<char>, tail: Seq<char>)
    requires
        !is_blank(s),
        is_blank(tail),
    ensures
        trim(s + tail) == trim(s),
{
    lemma_blank_iff_skipped(s);
    lemma_skip_whitespace(s, 0);
    lemma_skip_whitespace_prefix(s, tail, 0);
    let start = skip_whitespace(s, 0);
    assert(trim_start(s + tail) =~= trim_start(s) + tail);
    lemma_content_end_blank_tail(trim_start(s), tail);
    lemma_content_end(trim_start(s));
    assert(trim(s + tail) =~= trim(s));
}

/// A blank sequence is exactly one whose leading whitespace reaches its end.
pub proof fn lemma_blank_iff_skipped(s: Seq<char>)
    ensures
        is_blank(s) <==> skip_whitespace(s, 0) == s.len(),
        is_blank(s) <==> content_end(s) == 0,
{
    lemma_skip_whitespace(s, 0);
    lemma_content_end(s);
}

/// Whether `c` has the Unicode `White_Space` property.
pub fn is_whitespace_char(c: char) -> (b: bool)
    ensures
        b == is_whitespace(c),
{
    let u = c as u32;
    (0x09 <= u && u <= 0x0D) || u == 0x20 || u == 0x85 || u == 0xA0 || u == 0x1680 || (0x2000 <= u
        && u <= 0x200A) || u == 0x2028 || u == 0x2029 || u == 0x202F || u == 0x205F || u == 0x3000
}

/// The characters of `s`, in order.
pub fn chars_of(s: &str) -> (v: Vec<char>)
    ensures
        v@ == s@,
{
    let mut v: Vec<char> = Vec::new();
    for c in it: s.chars()
        invariant
            v@ == it.seq().take(it.index() as int),
            it.seq() == s@,
    {
        v.push(c);
    }
    v
}

/// `String::push` of the standard library appends the given character to the
/// end of the string: the characters after the call are those before it and
/// then `c`.
pub assume_specification[ String::push ](s: &mut String, c: char)
    ensures
        final(s)@ == old(s)@.push(c),
;

/// The string made of the characters of `chars`, in order.
pub fn string_of(chars: &[char]) -> (s: String)
    ensures
        s@ == chars@,
{
    let mut s = String::new();
    let mut i: usize = 0;
    while i < chars.len()
        invariant
            i <= chars.len(),
            s@ == chars@.take(i as int),
        decreases chars.len() - i,
    {
        s.push(chars[i]);
        i += 1;
    }
    s
}

/// Position of the first non-whitespace character of `s` at or after `from`.
pub fn first_non_whitespace(s: &[char], from: usize) -> (r: usize)
    requires
        from <= s.len(),
    ensures
        r == skip_whitespace(s@, from as int),
        from <= r <= s.len(),
{
    let mut i = from;
    while i < s.len() && is_whitespace_char(s[i])
        invariant
            from <= i <= s.len(),
            skip_whitespace(s@, i as int) == skip_whitespace(s@, from as int),
        decreases s.len() - i,
    {
        i += 1;
    }
    proof {
        lemma_skip_whitespace(s@, from as int);
    }
    i
}

/// Position of the first whitespace character of `s` at or after `from`.
pub fn first_whitespace(s: &[char], from: usize) -> (r: usize)
    requires
        from <= s.len(),
    ensures
        r == skip_word(s@, from as int),
        from <= r <= s.len(),
{
    let mut i = from;
    while i < s.len() && !is_whitespace_char(s[i])
        invariant
            from <= i <= s.len(),
            skip_word(s@, i as int) == skip_word(s@, from as int),
        decreases s.len() - i,
    {
        i += 1;
    }
    proof {
        lemma_skip_word(s@, from as int);
    }
    i
}

/// Length of `s` without its trailing whitespace.
pub fn trimmed_end(s: &[char]) -> (r: usize)
    ensures
        r == content_end(s@),
        r <= s.len(),
{
    let mut n = s.len();
    proof {
        assert(s@.take(n as int) == s@);
    }
    while n > 0 && is_whitespace_char(s[n - 1])
        invariant
            n <= s.len(),
            content_end(s@.take(n as int)) == content_end(s@),
        decreases n,
    {
        proof {
            assert(s@.take(n as int).drop_last() == s@.take(n - 1));
        }
        n -= 1;
    }
    proof {
        lemma_content_end(s@.take(n as int));
    }
    n
}

/// `s` without leading and trailing whitespace, as a string.
pub fn trimmed_string(s: &[char]) -> (r: String)
    ensures
        r@ == trim(s@),
{
    let start = first_non_whitespace(s, 0);
    let rest = slice_subrange(s, start, s.len());
    let end = trimmed_end(rest);
    let kept = slice_subrange(rest, 0, end);
    proof {
        assert(rest@ == s@.skip(start as int));
        assert(kept@ == rest@.take(end as int));
    }
    string_of(kept)
}

/// Whether `s` holds nothing but whitespace.
pub fn is_blank_text(s: &[char]) -> (r: bool)
    ensures
        r == is_blank(s@),
{
    proof {
        lemma_blank_iff_skipped(s@);
    }
    first_non_whitespace(s, 0) == s.len()
}

} // verus!
