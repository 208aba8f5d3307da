//! String primitives shared by the pipeline: trimming, substring search,
//! word counting and equality, all specified over `Seq<char>` views.

use vstd::prelude::*;
use crate::chars::{is_whitespace_char, spec_is_whitespace};

verus! {

/// Index of the first character at or after `i` that is not whitespace,
/// or `s.len()` if none remains.
pub open spec fn first_non_ws(s: Seq<char>, i: int) -> int
    recommends
        0 <= i <= s.len(),
    decreases s.len() - i when 0 <= i <= s.len()
{
    if i < s.len() && spec_is_whitespace(s[i]) {
        first_non_ws(s, i + 1)
    } else {
        i
    }
}

/// Index just after the last character before `j` that is not whitespace,
/// or `0` if none.
pub open spec fn last_non_ws_end(s: Seq<char>, j: int) -> int
    recommends
        0 <= j <= s.len(),
    decreases j when 0 <= j <= s.len()
{
    if j > 0 && spec_is_whitespace(s[j - 1]) {
        last_non_ws_end(s, j - 1)
    } else {
        j
    }
}

/// The sequence with leading and trailing whitespace removed.
pub open spec fn spec_trim(s: Seq<char>) -> Seq<char> {
    let a = first_non_ws(s, 0);
    if a == s.len() {
        Seq::<char>::empty()
    } else {
        s.subrange(a, last_non_ws_end(s, s.len() as int))
    }
}

proof fn lemma_first_non_ws_bounds(s: Seq<char>, i: int)
    requires
        0 <= i <= s.len(),
    ensures
        i <= first_non_ws(s, i) <= s.len(),
        forall|k: int| i <= k < first_non_ws(s, i) ==> spec_is_whitespace(s[k]),
        first_non_ws(s, i) < s.len() ==> !spec_is_whitespace(s[first_non_ws(s, i)]),
    decreases s.len() - i,
{
    if i < s.len() && spec_is_whitespace(s[i]) {
        lemma_first_non_ws_bounds(s, i + 1);
    }
}

proof fn lemma_last_non_ws_end_bounds(s: Seq<char>, j: int)
    requires
        0 <= j <= s.len(),
    ensures
        0 <= last_non_ws_end(s, j) <= j,
        forall|k: int| last_non_ws_end(s, j) <= k < j ==> spec_is_whitespace(s[k]),
        last_non_ws_end(s, j) > 0 ==> !spec_is_whitespace(s[last_non_ws_end(s, j) - 1]),
    decreases j,
{
    if j > 0 && spec_is_whitespace(s[j - 1]) {
        lemma_last_non_ws_end_bounds(s, j - 1);
    }
}

/// Trims whitespace from both ends, as `str::trim` does.
pub fn trim_str<'a>(s: &'a str) -> (r: &'a str)
    ensures
        r@ == spec_trim(s@),
{
    let n: usize = s.unicode_len();
    let mut a: usize = 0;
    while a < n && is_whitespace_char(s.get_char(a))
        invariant
            0 <= a <= n,
            n == s@.len(),
            first_non_ws(s@, 0) == first_non_ws(s@, a as int),
        decreases n - a,
    {
        a = a + 1;
    }
    proof {
        lemma_first_non_ws_bounds(s@, a as int);
        assert(first_non_ws(s@, a as int) == a);
    }
    if a == n {
        let r = s.substring_char(n, n);
        proof {
            assert(r@ =~= spec_trim(s@));
        }
        return r;
    }
    let mut b: usize = n;
    while b > 0 && is_whitespace_char(s.get_char(b - 1))
        invariant
            0 <= b <= n,
            n == s@.len(),
            last_non_ws_end(s@, n as int) == last_non_ws_end(s@, b as int),
        decreases b,
    {
        b = b - 1;
    }
    proof {
        lemma_last_non_ws_end_bounds(s@, b as int);
        assert(last_non_ws_end(s@, b as int) == b);
        assert(a < n && !spec_is_whitespace(s@[a as int]));
        if b <= a {
            lemma_last_non_ws_end_bounds(s@, n as int);
            assert(spec_is_whitespace(s@[a as int]));
        }
        assert(a < b);
    }
    let r = s.substring_char(a, b);
    proof {
        assert(r@ =~= spec_trim(s@));
    }
    r
}

/// Whether `needle` occurs in `s` starting at position `i`.
pub open spec fn matches_at(s: Seq<char>, i: int, needle: Seq<char>) -> bool {
    0 <= i && i + needle.len() <= s.len() && s.subrange(i, i + needle.len()) == needle
}

/// Whether `needle` occurs anywhere in `s`.
pub open spec fn spec_contains(s: Seq<char>, needle: Seq<char>) -> bool {
    exists|i: int| matches_at(s, i, needle)
}

/// Whether `s` starts with `prefix`.
pub open spec fn spec_starts_with(s: Seq<char>, prefix: Seq<char>) -> bool {
    matches_at(s, 0, prefix)
}

/// Tests `needle` at one position of `s`.
pub fn matches_at_exec(s: &str, i: usize, needle: &str) -> (r: bool)
    requires
        i <= s@.len(),
    ensures
        r == matches_at(s@, i as int, needle@),
{
    let n: usize = s.unicode_len();
    let m: usize = needle.unicode_len();
    if m > n - i {
        return false;
    }
    let mut j: usize = 0;
    while j < m
        invariant
            0 <= j <= m,
            n == s@.len(),
            m == needle@.len(),
            i + m <= n,
            forall|k: int| 0 <= k < j ==> s@[i + k] == needle@[k],
        decreases m - j,
    {
        if s.get_char(i + j) != needle.get_char(j) {
            proof {
                assert(s@.subrange(i as int, i + m) != needle@) by {
                    assert(s@.subrange(i as int, i + m)[j as int] != needle@[j as int]);
                }
            }
            return false;
        }
        j = j + 1;
    }
    proof {
        assert(s@.subrange(i as int, i + m) =~= needle@);
    }
    true
}

/// Substring search by scanning every position.
pub fn contains_substr(s: &str, needle: &str) -> (r: bool)
    ensures
        r == spec_contains(s@, needle@),
{
    let n: usize = s.unicode_len();
    let m: usize = needle.unicode_len();
    if m > n {
        proof {
            assert(forall|i: int| !matches_at(s@, i, needle@));
        }
        return false;
    }
    if m == 0 {
        proof {
            assert(s@.subrange(0, 0) =~= needle@);
            assert(matches_at(s@, 0, needle@));
        }
        return true;
    }
    let mut i: usize = 0;
    while i <= n - m
        invariant
            0 <= i <= n - m + 1,
            0 < m <= n,
            n == s@.len(),
            m == needle@.len(),
            forall|k: int| 0 <= k < i ==> !matches_at(s@, k, needle@),
        decreases n - i,
    {
        if matches_at_exec(s, i, needle) {
            return true;
        }
        i = i + 1;
    }
    proof {
        assert(forall|k: int| !matches_at(s@, k, needle@)) by {
            assert(forall|k: int| k + needle@.len() > s@.len() ==> !matches_at(s@, k, needle@));
        }
    }
    false
}

/// Prefix test.
pub fn starts_with_str(s: &str, prefix: &str) -> (r: bool)
    ensures
        r == spec_starts_with(s@, prefix@),
{
    matches_at_exec(s, 0, prefix)
}

/// Character-for-character string equality.
pub fn str_eq_str(a: &str, b: &str) -> (r: bool)
    ensures
        r == (a@ == b@),
{
    let n: usize = a.unicode_len();
    let m: usize = b.unicode_len();
    if n != m {
        return false;
    }
    let mut i: usize = 0;
    while i < n
        invariant
            0 <= i <= n,
            n == a@.len(),
            n == b@.len(),
            forall|k: int| 0 <= k < i ==> a@[k] == b@[k],
        decreases n - i,
    {
        if a.get_char(i) != b.get_char(i) {
            return false;
        }
        i = i + 1;
    }
    proof {
        assert(a@ =~= b@);
    }
    true
}

/// Number of whitespace-separated words remaining from position `i`,
/// given whether position `i` is inside a word.
pub open spec fn words_from(s: Seq<char>, i: int, in_word: bool) -> nat
    recommends
        0 <= i <= s.len(),
    decreases s.len() - i when 0 <= i <= s.len()
{
    if i >= s.len() {
        0
    } else if spec_is_whitespace(s[i]) {
        words_from(s, i + 1, false)
    } else if in_word {
        words_from(s, i + 1, true)
    } else {
        1 + words_from(s, i + 1, true)
    }
}

/// Number of whitespace-separated words, as `str::split_whitespace` counts them.
pub open spec fn spec_word_count(s: Seq<char>) -> nat {
    words_from(s, 0, false)
}

/// Counts whitespace-separated words.
pub fn count_words(s: &str) -> (r: usize)
    ensures
        r as nat == spec_word_count(s@),
{
    let n: usize = s.unicode_len();
    let mut count: usize = 0;
    let mut in_word: bool = false;
    let mut i: usize = 0;
    proof {
        lemma_words_from_le(s@, 0, false);
    }
    while i < n
        invariant
            0 <= i <= n,
            n == s@.len(),
            count + words_from(s@, i as int, in_word) == spec_word_count(s@),
            count <= i,
        decreases n - i,
    {
        if is_whitespace_char(s.get_char(i)) {
            in_word = false;
        } else if !in_word {
            count = count + 1;
            in_word = true;
        }
        i = i + 1;
    }
    count
}

proof fn lemma_words_from_le(s: Seq<char>, i: int, in_word: bool)
    requires
        0 <= i <= s.len(),
    ensures
        words_from(s, i, in_word) <= s.len() - i,
    decreases s.len() - i,
{
    if i < s.len() {
        lemma_words_from_le(s, i + 1, false);
        lemma_words_from_le(s, i + 1, true);
    }
}

/// Whether every character of `s` satisfies the whitespace-or-punctuation test.
pub open spec fn all_ws_or_punct(s: Seq<char>) -> bool {
    forall|k: int|
        0 <= k < s.len() ==> spec_is_whitespace(s[k]) || crate::chars::spec_is_ascii_punct(s[k])
}

/// Decides `all_ws_or_punct`.
pub fn is_all_ws_or_punct(s: &str) -> (r: bool)
    ensures
        r == all_ws_or_punct(s@),
{
    let n: usize = s.unicode_len();
    let mut i: usize = 0;
    while i < n
        invariant
            0 <= i <= n,
            n == s@.len(),
            forall|k: int|
                0 <= k < i ==> spec_is_whitespace(s@[k]) || crate::chars::spec_is_ascii_punct(
                    s@[k],
                ),
        decreases n - i,
    {
        let c = s.get_char(i);
        if !is_whitespace_char(c) && !crate::chars::is_ascii_punct_char(c) {
            return false;
        }
        i = i + 1;
    }
    true
}

/// Whether every character is whitespace, ASCII punctuation or an ASCII digit.
pub open spec fn all_ws_punct_digit(s: Seq<char>) -> bool {
    forall|k: int|
        0 <= k < s.len() ==> spec_is_whitespace(s[k]) || crate::chars::spec_is_ascii_punct(s[k])
            || crate::chars::spec_is_ascii_digit(s[k])
}

/// Decides `all_ws_punct_digit`.
pub fn is_all_ws_punct_digit(s: &str) -> (r: bool)
    ensures
        r == all_ws_punct_digit(s@),
{
    let n: usize = s.unicode_len();
    let mut i: usize = 0;
    while i < n
        invariant
            0 <= i <= n,
            n == s@.len(),
            forall|k: int|
                0 <= k < i ==> spec_is_whitespace(s@[k]) || crate::chars::spec_is_ascii_punct(
                    s@[k],
                ) || crate::chars::spec_is_ascii_digit(s@[k]),
        decreases n - i,
    {
        let c = s.get_char(i);
        if !is_whitespace_char(c) && !crate::chars::is_ascii_punct_char(c)
            && !crate::chars::is_ascii_digit_char(c) {
            return false;
        }
        i = i + 1;
    }
    true
}

/// Membership of a string view in a vector of strings.
pub fn vec_contains_str(v: &Vec<String>, s: &str) -> (r: bool)
    ensures
        r == v.deep_view().contains(s@),
{
    let n: usize = v.len();
    let mut i: usize = 0;
    while i < n
        invariant
            0 <= i <= n,
            n == v@.len(),
            forall|k: int| 0 <= k < i ==> v.deep_view()[k] != s@,
        decreases n - i,
    {
        if str_eq_str(v[i].as_str(), s) {
            proof {
                assert(v.deep_view()[i as int] == s@);
            }
            return true;
        }
        i = i + 1;
    }
    proof {
        assert(forall|k: int| 0 <= k < v.deep_view().len() ==> v.deep_view()[k] != s@);
    }
    false
}

} // verus!
