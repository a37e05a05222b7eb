//! Character-level helpers: Unicode whitespace, trimming, conversions
//! between strings and character vectors, and decimal rendering.
use vstd::prelude::*;

verus! {

/// Unicode `White_Space`, the property that `char::is_whitespace` tests.
pub open spec fn is_space(c: char) -> bool {
    ('\t' <= c && c <= '\r') || c == ' ' || c == '\u{85}' || c == '\u{a0}' || c == '\u{1680}'
        || ('\u{2000}' <= c && c <= '\u{200a}') || c == '\u{2028}' || c == '\u{2029}'
        || c == '\u{202f}' || c == '\u{205f}' || c == '\u{3000}'
}

/// Whether `c` is Unicode whitespace.
pub fn space(c: char) -> (r: bool)
    ensures
        r == is_space(c),
{
    ('\t' <= c && c <= '\r') || c == ' ' || c == '\u{85}' || c == '\u{a0}' || c == '\u{1680}'
        || ('\u{2000}' <= c && c <= '\u{200a}') || c == '\u{2028}' || c == '\u{2029}'
        || c == '\u{202f}' || c == '\u{205f}' || c == '\u{3000}'
}

/// Every character of `s` is whitespace.
pub open spec fn all_space(s: Seq<char>) -> bool {
    forall|i: int| 0 <= i < s.len() ==> is_space(#[trigger] s[i])
}

/// Index of the first non-whitespace character of `s` at or after `i`, or `s.len()`.
pub open spec fn skip_space(s: Seq<char>, i: int) -> int
    decreases s.len() - i,
{
    if i < 0 || i >= s.len() {
        s.len() as int
    } else if is_space(s[i]) {
        skip_space(s, i + 1)
    } else {
        i
    }
}

/// One past the last non-whitespace character of `s` before `j`, or 0.
pub open spec fn skip_space_back(s: Seq<char>, j: int) -> int
    decreases j,
{
    if j <= 0 || j > s.len() {
        0
    } else if is_space(s[j - 1]) {
        skip_space_back(s, j - 1)
    } else {
        j
    }
}

/// `s` without leading and trailing whitespace, as `str::trim` gives it.
pub open spec fn trim_spec(s: Seq<char>) -> Seq<char> {
    let a = skip_space(s, 0);
    let b = skip_space_back(s, s.len() as int);
    if a < b {
        s.subrange(a, b)
    } else {
        Seq::empty()
    }
}

pub proof fn lemma_skip_space_back_bounds(s: Seq<char>, j: int)
    requires
        0 <= j <= s.len(),
    ensures
        0 <= skip_space_back(s, j) <= j,
        forall|k: int| skip_space_back(s, j) <= k < j ==> is_space(#[trigger] s[k]),
        skip_space_back(s, j) > 0 ==> !is_space(s[skip_space_back(s, j) - 1]),
    decreases j,
{
    if j > 0 && is_space(s[j - 1]) {
        lemma_skip_space_back_bounds(s, j - 1);
    }
}

/// The characters of `s`, in order.
/// Relies on `str::chars` with `Iterator::collect`: one element per character.
#[verifier::external_body]
pub(crate) fn chars_of(s: &str) -> (r: Vec<char>)
    ensures
        r@ == s@,
{
    s.chars().collect()
}

/// The string made of the characters of `v`, in order.
/// Relies on `String: FromIterator<&char>`: one character per element.
#[verifier::external_body]
pub(crate) fn text_of(v: &[char]) -> (r: String)
    ensures
        r@ == v@,
{
    v.iter().collect()
}

/// Index of the first non-whitespace character in `v[i..]`, or `v.len()`.
pub fn skip_space_exec(v: &[char], i: usize) -> (r: usize)
    requires
        i <= v@.len(),
    ensures
        r == skip_space(v@, i as int),
{
    let mut k = i;
    while k < v.len() && space(v[k])
        invariant
            i <= k <= v@.len(),
            skip_space(v@, k as int) == skip_space(v@, i as int),
        decreases v@.len() - k,
    {
        k = k + 1;
    }
    k
}

/// One past the last non-whitespace character in `v[..j]`, or 0.
pub fn skip_space_back_exec(v: &[char], j: usize) -> (r: usize)
    requires
        j <= v@.len(),
    ensures
        r == skip_space_back(v@, j as int),
{
    let mut k = j;
    while k > 0 && space(v[k - 1])
        invariant
            k <= j <= v@.len(),
            skip_space_back(v@, k as int) == skip_space_back(v@, j as int),
        decreases k,
    {
        k = k - 1;
    }
    k
}

/// `s` with leading and trailing whitespace removed.
pub fn trim(s: &str) -> (r: &str)
    ensures
        r@ == trim_spec(s@),
{
    let v = chars_of(s);
    let a = skip_space_exec(v.as_slice(), 0);
    let b = skip_space_back_exec(v.as_slice(), v.len());
    proof {
        lemma_skip_space_back_bounds(s@, s@.len() as int);
    }
    if a < b {
        s.substring_char(a, b)
    } else {
        s.substring_char(0, 0)
    }
}

} // verus!
