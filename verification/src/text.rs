//! Character-level text helpers: whitespace, trimming, fields, substrings.

use vstd::prelude::*;
use vstd::string::{StrSliceExecFns, StringExecFns};

verus! {

/// The characters of a string, in order.
pub fn chars_of(s: &str) -> (r: Vec<char>)
    ensures
        r@ == s@,
{
    let mut v: Vec<char> = Vec::new();
    for c in it: s.chars()
        invariant
            v@ == it.seq().take(it.index() as int),
            it.seq() == s@,
    {
        v.push(c);
    }
    v
}

/// Unicode `White_Space`, the set `char::is_whitespace` tests.
pub open spec fn is_whitespace(c: char) -> bool {
    ||| '\u{9}' <= c <= '\u{d}'
    ||| c == ' '
    ||| c == '\u{85}'
    ||| c == '\u{a0}'
    ||| c == '\u{1680}'
    ||| '\u{2000}' <= c <= '\u{200a}'
    ||| c == '\u{2028}'
    ||| c == '\u{2029}'
    ||| c == '\u{202f}'
    ||| c == '\u{205f}'
    ||| c == '\u{3000}'
}

/// Whether `c` is Unicode whitespace.
pub fn whitespace(c: char) -> (r: bool)
    ensures
        r == is_whitespace(c),
{
    ('\u{9}' <= c && c <= '\u{d}') || c == ' ' || c == '\u{85}' || c == '\u{a0}' || c == '\u{1680}'
        || ('\u{2000}' <= c && c <= '\u{200a}') || c == '\u{2028}' || c == '\u{2029}' || c
        == '\u{202f}' || c == '\u{205f}' || c == '\u{3000}'
}

/// First index at or after `i` (and before `end`) that is not whitespace, or `end`.
pub open spec fn skip_whitespace(s: Seq<char>, i: int, end: int) -> int
    decreases end - i,
{
    if i >= end {
        end
    } else if is_whitespace(s[i]) {
        skip_whitespace(s, i + 1, end)
    } else {
        i
    }
}

/// First index at or after `i` (and before `end`) that is whitespace, or `end`.
pub open spec fn skip_word(s: Seq<char>, i: int, end: int) -> int
    decreases end - i,
{
    if i >= end {
        end
    } else if !is_whitespace(s[i]) {
        skip_word(s, i + 1, end)
    } else {
        i
    }
}

/// The maximal runs of non-whitespace characters of `s[i..end]`, in order:
/// what `str::split_whitespace` yields.
pub open spec fn fields(s: Seq<char>, i: int, end: int) -> Seq<Seq<char>>
    decreases end - i,
{
    let a = skip_whitespace(s, i, end);
    if i >= end || a >= end {
        Seq::empty()
    } else {
        let b = skip_word(s, a, end);
        proof {
            lemma_skip_whitespace_bounds(s, i, end);
            lemma_skip_word_bounds(s, a, end);
        }
        if b <= a {
            Seq::empty()
        } else {
            seq![s.subrange(a, b)] + fields(s, b, end)
        }
    }
}

/// Skipping whitespace stays within `[i, end]` and stops at a non-whitespace character.
pub proof fn lemma_skip_whitespace_bounds(s: Seq<char>, i: int, end: int)
    requires
        i <= end,
    ensures
        i <= skip_whitespace(s, i, end) <= end,
        skip_whitespace(s, i, end) < end ==> !is_whitespace(s[skip_whitespace(s, i, end)]),
    decreases end - i,
{
    if i < end && is_whitespace(s[i]) {
        lemma_skip_whitespace_bounds(s, i + 1, end);
    }
}

/// Skipping a word stays within `[i, end]` and advances past a non-whitespace character.
pub proof fn lemma_skip_word_bounds(s: Seq<char>, i: int, end: int)
    requires
        i <= end,
    ensures
        i <= skip_word(s, i, end) <= end,
        i < end && !is_whitespace(s[i]) ==> i < skip_word(s, i, end),
    decreases end - i,
{
    if i < end && !is_whitespace(s[i]) {
        lemma_skip_word_bounds(s, i + 1, end);
    }
}

/// Finds the first index at or after `i`, before `end`, that is not whitespace.
pub fn find_non_whitespace(s: &Vec<char>, i: usize, end: usize) -> (r: usize)
    requires
        i <= end <= s@.len(),
    ensures
        r == skip_whitespace(s@, i as int, end as int),
{
    let mut j = i;
    while j < end && whitespace(s[j])
        invariant
            i <= j <= end <= s@.len(),
            skip_whitespace(s@, i as int, end as int) == skip_whitespace(s@, j as int, end as int),
        decreases end - j,
    {
        j = j + 1;
    }
    j
}

/// Finds the first index at or after `i`, before `end`, that is whitespace.
pub fn find_whitespace(s: &Vec<char>, i: usize, end: usize) -> (r: usize)
    requires
        i <= end <= s@.len(),
    ensures
        r == skip_word(s@, i as int, end as int),
{
    let mut j = i;
    while j < end && !whitespace(s[j])
        invariant
            i <= j <= end <= s@.len(),
            skip_word(s@, i as int, end as int) == skip_word(s@, j as int, end as int),
        decreases end - j,
    {
        j = j + 1;
    }
    j
}

/// Index one past the last non-whitespace character of `s[..end]`, or 0.
pub open spec fn trimmed_end(s: Seq<char>, end: int) -> int
    decreases end,
{
    if end <= 0 {
        0
    } else if is_whitespace(s[end - 1]) {
        trimmed_end(s, end - 1)
    } else {
        end
    }
}

/// The text without leading and trailing whitespace, as `str::trim`.
pub open spec fn trim_spec(s: Seq<char>) -> Seq<char> {
    let a = skip_whitespace(s, 0, s.len() as int);
    let b = trimmed_end(s, s.len() as int);
    if a >= b {
        Seq::empty()
    } else {
        s.subrange(a, b)
    }
}

proof fn lemma_trimmed_end_bounds(s: Seq<char>, end: int)
    requires
        0 <= end <= s.len(),
    ensures
        0 <= trimmed_end(s, end) <= end,
    decreases end,
{
    if end > 0 && is_whitespace(s[end - 1]) {
        lemma_trimmed_end_bounds(s, end - 1);
    }
}

/// The text without leading and trailing whitespace.
pub fn trim(s: &str) -> (r: String)
    ensures
        r@ == trim_spec(s@),
{
    let chars = chars_of(s);
    let n = chars.len();
    let a = find_non_whitespace(&chars, 0, n);
    let mut b = n;
    while b > 0 && whitespace(chars[b - 1])
        invariant
            b <= n == chars@.len(),
            trimmed_end(chars@, n as int) == trimmed_end(chars@, b as int),
        decreases b,
    {
        b = b - 1;
    }
    proof {
        lemma_trimmed_end_bounds(chars@, n as int);
        lemma_skip_whitespace_bounds(chars@, 0, n as int);
    }
    if a >= b {
        let e = String::new();
        assert(e@ =~= trim_spec(s@));
        e
    } else {
        String::from_str(s.substring_char(a, b))
    }
}

/// `needle` occurs in `hay` starting at `i`.
pub open spec fn occurs_at(hay: Seq<char>, needle: Seq<char>, i: int) -> bool {
    0 <= i && i + needle.len() <= hay.len() && hay.subrange(i, i + needle.len()) == needle
}

/// `needle` occurs somewhere in `hay`, as `str::contains`.
pub open spec fn contains_spec(hay: Seq<char>, needle: Seq<char>) -> bool {
    exists|i: int| occurs_at(hay, needle, i)
}

/// Whether `needle` occurs in `hay`.
pub fn contains(hay: &str, needle: &str) -> (r: bool)
    ensures
        r == contains_spec(hay@, needle@),
{
    let h = chars_of(hay);
    let n = chars_of(needle);
    if n.len() > h.len() {
        assert forall|i: int| !occurs_at(hay@, needle@, i) by {}
        return false;
    }
    let mut i: usize = 0;
    while i <= h.len() - n.len()
        invariant
            n@.len() <= h@.len(),
            h@ == hay@,
            n@ == needle@,
            i <= h@.len() - n@.len() + 1,
            forall|j: int| 0 <= j < i ==> !occurs_at(hay@, needle@, j),
        decreases h@.len() - i,
    {
        let mut k: usize = 0;
        while k < n.len() && h[i + k] == n[k]
            invariant
                k <= n@.len(),
                i + n@.len() <= h.len(),
                forall|q: int| 0 <= q < k ==> h@[i + q] == n@[q],
            decreases n@.len() - k,
        {
            k = k + 1;
        }
        if k == n.len() {
            assert(h@.subrange(i as int, i + n@.len()) =~= n@);
            assert(occurs_at(hay@, needle@, i as int));
            return true;
        }
        assert(h@.subrange(i as int, i + n@.len())[k as int] != n@[k as int]);
        i = i + 1;
    }
    assert forall|j: int| !occurs_at(hay@, needle@, j) by {
        if 0 <= j && j + needle@.len() <= hay@.len() {
            assert(j < i);
        }
    }
    false
}

/// The characters of Unicode `White_Space`, listed one by one: tab, line
/// feed, vertical tab, form feed, carriage return, space, next line,
/// no-break space, ogham space mark, the eleven spaces from en quad to hair
/// space, line separator, paragraph separator, narrow no-break space,
/// medium mathematical space and ideographic space.
pub open spec fn white_space_chars() -> Seq<char> {
    seq![
        '\t', '\n', '\u{b}', '\u{c}', '\r', ' ', '\u{85}', '\u{a0}', '\u{1680}',
        '\u{2000}', '\u{2001}', '\u{2002}', '\u{2003}', '\u{2004}', '\u{2005}', '\u{2006}',
        '\u{2007}', '\u{2008}', '\u{2009}', '\u{200a}',
        '\u{2028}', '\u{2029}', '\u{202f}', '\u{205f}', '\u{3000}',
    ]
}

/// A character is whitespace exactly when it is one of the listed
/// `White_Space` characters; carriage return and line feed among them.
pub proof fn lemma_whitespace_is_white_space(c: char)
    ensures
        is_whitespace(c) <==> white_space_chars().contains(c),
        is_whitespace('\r') && is_whitespace('\n') && is_whitespace('\t') && is_whitespace(' '),
{
    let w = white_space_chars();
    if is_whitespace(c) {
        if '\u{9}' <= c <= '\u{d}' {
            let k = (c as int) - 9;
            assert(w[k] == c);
        } else if '\u{2000}' <= c <= '\u{200a}' {
            let k = (c as int) - 0x2000 + 9;
            assert(w[k] == c);
        } else if c == ' ' {
            assert(w[5] == c);
        } else if c == '\u{85}' {
            assert(w[6] == c);
        } else if c == '\u{a0}' {
            assert(w[7] == c);
        } else if c == '\u{1680}' {
            assert(w[8] == c);
        } else if c == '\u{2028}' {
            assert(w[20] == c);
        } else if c == '\u{2029}' {
            assert(w[21] == c);
        } else if c == '\u{202f}' {
            assert(w[22] == c);
        } else if c == '\u{205f}' {
            assert(w[23] == c);
        } else {
            assert(w[24] == c);
        }
    }
    if w.contains(c) {
        let k = choose|k: int| 0 <= k < w.len() && w[k] == c;
        assert(is_whitespace(w[k]));
    }
}

/// Trimming removes exactly the leading and trailing whitespace: the result
/// is the part of the text between its first and last non-whitespace
/// characters, everything before and after it is whitespace, and it neither
/// starts nor ends with whitespace.
pub proof fn lemma_trim_strips_surrounding_whitespace(s: Seq<char>)
    ensures
        exists|a: int, b: int|
            #![trigger s.subrange(a, b)]
            0 <= a <= b <= s.len() && trim_spec(s) == s.subrange(a, b) && (forall|i: int|
                0 <= i < a ==> is_whitespace(#[trigger] s[i])) && (forall|i: int|
                b <= i < s.len() ==> is_whitespace(#[trigger] s[i])) && (a < b ==> !is_whitespace(s[a])
                && !is_whitespace(s[b - 1])),
{
    let n = s.len() as int;
    let a = skip_whitespace(s, 0, n);
    let b = trimmed_end(s, n);
    lemma_skip_whitespace_prefix(s, 0, n);
    lemma_trimmed_end_suffix(s, n);
    lemma_skip_whitespace_bounds(s, 0, n);
    lemma_trimmed_end_bounds(s, n);
    if a >= b {
        assert(trim_spec(s) =~= s.subrange(b, b));
        assert forall|i: int| 0 <= i < b implies is_whitespace(#[trigger] s[i]) by {}
    } else {
        assert(trim_spec(s) == s.subrange(a, b));
    }
}

proof fn lemma_skip_whitespace_prefix(s: Seq<char>, i: int, end: int)
    requires
        0 <= i <= end,
    ensures
        forall|k: int| i <= k < skip_whitespace(s, i, end) ==> is_whitespace(#[trigger] s[k]),
    decreases end - i,
{
    if i < end && is_whitespace(s[i]) {
        lemma_skip_whitespace_prefix(s, i + 1, end);
    }
}

proof fn lemma_trimmed_end_suffix(s: Seq<char>, end: int)
    requires
        0 <= end <= s.len(),
    ensures
        forall|k: int| trimmed_end(s, end) <= k < end ==> is_whitespace(#[trigger] s[k]),
        trimmed_end(s, end) > 0 ==> !is_whitespace(s[trimmed_end(s, end) - 1]),
    decreases end,
{
    if end > 0 && is_whitespace(s[end - 1]) {
        lemma_trimmed_end_suffix(s, end - 1);
    }
}

} // verus!
