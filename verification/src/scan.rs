//! Heuristic candidate scanners.
//!
//! Each scanner is a pure function from a string to the sequence of
//! candidate strings that one extraction heuristic finds in it, mirroring
//! left-to-right, non-overlapping pattern matching: script string literals,
//! JSON-like `"text"` values, JSON key names, values under interface-text
//! keys, text between markup tags, and capitalized phrases.

use vstd::prelude::*;
use crate::chars::spec_is_whitespace;
use crate::chars::is_whitespace_char;
use crate::strutil::{matches_at, matches_at_exec, str_eq_str};

verus! {

/// First position at or after `i` whose character satisfies `stop`,
/// or `s.len()` if none does.
pub open spec fn first_from(s: Seq<char>, i: int, stop: spec_fn(char) -> bool) -> int
    recommends
        0 <= i <= s.len(),
    decreases s.len() - i when 0 <= i <= s.len()
{
    if i < s.len() && !stop(s[i]) {
        first_from(s, i + 1, stop)
    } else {
        i
    }
}

pub proof fn lemma_first_from_bounds(s: Seq<char>, i: int, stop: spec_fn(char) -> bool)
    requires
        0 <= i <= s.len(),
    ensures
        i <= first_from(s, i, stop) <= s.len(),
        forall|k: int| i <= k < first_from(s, i, stop) ==> !stop(s[k]),
        first_from(s, i, stop) < s.len() ==> stop(s[first_from(s, i, stop)]),
    decreases s.len() - i,
{
    if i < s.len() && !stop(s[i]) {
        lemma_first_from_bounds(s, i + 1, stop);
    }
}

/// A single-quote, double-quote or backtick character.
pub open spec fn is_quote_char(c: char) -> bool {
    c == '\'' || c == '"' || c == '`'
}

/// An angle-bracket character.
pub open spec fn is_angle_char(c: char) -> bool {
    c == '<' || c == '>'
}

/// An ASCII upper-case letter.
pub open spec fn is_upper_char(c: char) -> bool {
    'A' <= c && c <= 'Z'
}

/// An ASCII lower-case letter.
pub open spec fn is_lower_char(c: char) -> bool {
    'a' <= c && c <= 'z'
}

/// An ASCII letter.
pub open spec fn is_alpha_char(c: char) -> bool {
    is_upper_char(c) || is_lower_char(c)
}

/// First quote character at or after `i`.
pub open spec fn quote_end(s: Seq<char>, i: int) -> int {
    first_from(s, i, |c: char| is_quote_char(c))
}

/// First double quote at or after `i`.
pub open spec fn dquote_end(s: Seq<char>, i: int) -> int {
    first_from(s, i, |c: char| c == '"')
}

/// First angle bracket at or after `i`.
pub open spec fn angle_end(s: Seq<char>, i: int) -> int {
    first_from(s, i, |c: char| is_angle_char(c))
}

/// First non-whitespace position at or after `i`.
pub open spec fn skip_ws_end(s: Seq<char>, i: int) -> int {
    first_from(s, i, |c: char| !spec_is_whitespace(c))
}

/// End of the ASCII lower-case run starting at `i`.
pub open spec fn lower_run_end(s: Seq<char>, i: int) -> int {
    first_from(s, i, |c: char| !is_lower_char(c))
}

/// Decides `is_quote_char`.
fn is_quote(c: char) -> (r: bool)
    ensures
        r == is_quote_char(c),
{
    c == '\'' || c == '"' || c == '`'
}

/// Decides `is_angle_char`.
fn is_angle(c: char) -> (r: bool)
    ensures
        r == is_angle_char(c),
{
    c == '<' || c == '>'
}

/// Decides `is_lower_char`.
fn is_lower(c: char) -> (r: bool)
    ensures
        r == is_lower_char(c),
{
    'a' <= c && c <= 'z'
}

/// Decides `is_upper_char`.
fn is_upper(c: char) -> (r: bool)
    ensures
        r == is_upper_char(c),
{
    'A' <= c && c <= 'Z'
}

/// Decides `is_alpha_char`.
fn is_alpha(c: char) -> (r: bool)
    ensures
        r == is_alpha_char(c),
{
    ('A' <= c && c <= 'Z') || ('a' <= c && c <= 'z')
}

/// Finds `quote_end`.
fn find_quote(s: &str, i: usize) -> (r: usize)
    requires
        i <= s@.len(),
    ensures
        r == quote_end(s@, i as int),
        i <= r <= s@.len(),
        forall|k: int| i <= k < r ==> !is_quote_char(s@[k]),
        r < s@.len() ==> is_quote_char(s@[r as int]),
{
    proof {
        lemma_first_from_bounds(s@, i as int, |c: char| is_quote_char(c));
    }
    let n: usize = s.unicode_len();
    let mut j: usize = i;
    while j < n && !is_quote(s.get_char(j))
        invariant
            i <= j <= n,
            n == s@.len(),
            quote_end(s@, i as int) == quote_end(s@, j as int),
        decreases n - j,
    {
        j = j + 1;
    }
    j
}

/// Finds `dquote_end`.
fn find_dquote(s: &str, i: usize) -> (r: usize)
    requires
        i <= s@.len(),
    ensures
        r == dquote_end(s@, i as int),
        i <= r <= s@.len(),
        forall|k: int| i <= k < r ==> s@[k] != '"',
        r < s@.len() ==> s@[r as int] == '"',
{
    proof {
        lemma_first_from_bounds(s@, i as int, |c: char| c == '"');
    }
    let n: usize = s.unicode_len();
    let mut j: usize = i;
    while j < n && s.get_char(j) != '"'
        invariant
            i <= j <= n,
            n == s@.len(),
            dquote_end(s@, i as int) == dquote_end(s@, j as int),
        decreases n - j,
    {
        j = j + 1;
    }
    j
}

/// Finds `angle_end`.
fn find_angle(s: &str, i: usize) -> (r: usize)
    requires
        i <= s@.len(),
    ensures
        r == angle_end(s@, i as int),
        i <= r <= s@.len(),
{
    proof {
        lemma_first_from_bounds(s@, i as int, |c: char| is_angle_char(c));
    }
    let n: usize = s.unicode_len();
    let mut j: usize = i;
    while j < n && !is_angle(s.get_char(j))
        invariant
            i <= j <= n,
            n == s@.len(),
            angle_end(s@, i as int) == angle_end(s@, j as int),
        decreases n - j,
    {
        j = j + 1;
    }
    j
}

/// Finds `skip_ws_end`.
fn find_non_ws(s: &str, i: usize) -> (r: usize)
    requires
        i <= s@.len(),
    ensures
        r == skip_ws_end(s@, i as int),
        i <= r <= s@.len(),
{
    proof {
        lemma_first_from_bounds(s@, i as int, |c: char| !spec_is_whitespace(c));
    }
    let n: usize = s.unicode_len();
    let mut j: usize = i;
    while j < n && is_whitespace_char(s.get_char(j))
        invariant
            i <= j <= n,
            n == s@.len(),
            skip_ws_end(s@, i as int) == skip_ws_end(s@, j as int),
        decreases n - j,
    {
        j = j + 1;
    }
    j
}

/// Finds `lower_run_end`.
fn find_lower_end(s: &str, i: usize) -> (r: usize)
    requires
        i <= s@.len(),
    ensures
        r == lower_run_end(s@, i as int),
        i <= r <= s@.len(),
{
    proof {
        lemma_first_from_bounds(s@, i as int, |c: char| !is_lower_char(c));
    }
    let n: usize = s.unicode_len();
    let mut j: usize = i;
    while j < n && is_lower(s.get_char(j))
        invariant
            i <= j <= n,
            n == s@.len(),
            lower_run_end(s@, i as int) == lower_run_end(s@, j as int),
        decreases n - j,
    {
        j = j + 1;
    }
    j
}

/// The captures of the quoted-string heuristic, scanning from position `i`:
/// a quote of any kind, at least three characters that are not quotes, and
/// a closing quote of any kind.
pub open spec fn scan_quoted_from(s: Seq<char>, i: int) -> Seq<Seq<char>>
    recommends
        0 <= i <= s.len(),
    decreases s.len() - i when 0 <= i <= s.len()
{
    if i >= s.len() {
        Seq::empty()
    } else if is_quote_char(s[i]) {
        let e = quote_end(s, i + 1);
        if e < s.len() && e - (i + 1) >= 3 {
            seq![s.subrange(i + 1, e)] + scan_quoted_from(s, e + 1)
        } else {
            scan_quoted_from(s, i + 1)
        }
    } else {
        scan_quoted_from(s, i + 1)
    }
}

/// All captures of the quoted-string heuristic.
pub open spec fn spec_scan_quoted(s: Seq<char>) -> Seq<Seq<char>> {
    scan_quoted_from(s, 0)
}

/// Runs the quoted-string heuristic.
pub fn scan_quoted(s: &str) -> (r: Vec<String>)
    ensures
        r.deep_view() == spec_scan_quoted(s@),
{
    let n: usize = s.unicode_len();
    let mut out: Vec<String> = Vec::new();
    let mut i: usize = 0;
    proof {
        assert(out.deep_view() + scan_quoted_from(s@, 0) =~= spec_scan_quoted(s@));
    }
    while i < n
        invariant
            0 <= i <= n,
            n == s@.len(),
            spec_scan_quoted(s@) == out.deep_view() + scan_quoted_from(s@, i as int),
        decreases n - i,
    {
        let c = s.get_char(i);
        if c == '\'' || c == '"' || c == '`' {
            let e = find_quote(s, i + 1);
            if e < n && e - (i + 1) >= 3 {
                let ghost pre = out.deep_view();
                let cap = String::from_str(s.substring_char(i + 1, e));
                out.push(cap);
                proof {
                    assert(out.deep_view() =~= pre.push(s@.subrange(i + 1, e as int)));
                    assert(scan_quoted_from(s@, i as int) == seq![s@.subrange(i + 1, e as int)]
                        + scan_quoted_from(s@, e + 1));
                    assert(pre + (seq![s@.subrange(i + 1, e as int)] + scan_quoted_from(
                        s@,
                        e + 1,
                    )) =~= out.deep_view() + scan_quoted_from(s@, e + 1));
                }
                i = e + 1;
            } else {
                i = i + 1;
            }
        } else {
            i = i + 1;
        }
    }
    proof {
        assert(out.deep_view() + scan_quoted_from(s@, i as int) =~= out.deep_view());
    }
    out
}

/// The captures of the `"text"` value heuristic, scanning from `i`:
/// the literal `"text":`, optional whitespace, and a double-quoted value of
/// at least three characters.
pub open spec fn scan_text_values_from(s: Seq<char>, i: int) -> Seq<Seq<char>>
    recommends
        0 <= i <= s.len(),
    decreases s.len() - i when 0 <= i <= s.len()
    via scan_text_values_decreases
{
    if i >= s.len() {
        Seq::empty()
    } else if matches_at(s, i, "\"text\":"@) {
        let w = skip_ws_end(s, i + "\"text\":"@.len());
        if w < s.len() && s[w] == '"' {
            let e = dquote_end(s, w + 1);
            if e < s.len() && e - (w + 1) >= 3 {
                seq![s.subrange(w + 1, e)] + scan_text_values_from(s, e + 1)
            } else {
                scan_text_values_from(s, i + 1)
            }
        } else {
            scan_text_values_from(s, i + 1)
        }
    } else {
        scan_text_values_from(s, i + 1)
    }
}

#[via_fn]
proof fn scan_text_values_decreases(s: Seq<char>, i: int) {
    if 0 <= i < s.len() && matches_at(s, i, "\"text\":"@) {
        lemma_first_from_bounds(s, i + "\"text\":"@.len(), |c: char| !spec_is_whitespace(c));
        let w = skip_ws_end(s, i + "\"text\":"@.len());
        if 0 <= w + 1 <= s.len() {
            lemma_first_from_bounds(s, w + 1, |c: char| c == '"');
        }
    }
}

/// All captures of the `"text"` value heuristic.
pub open spec fn spec_scan_text_values(s: Seq<char>) -> Seq<Seq<char>> {
    scan_text_values_from(s, 0)
}

/// Runs the `"text"` value heuristic.
pub fn scan_text_values(s: &str) -> (r: Vec<String>)
    ensures
        r.deep_view() == spec_scan_text_values(s@),
{
    let n: usize = s.unicode_len();
    let mut out: Vec<String> = Vec::new();
    let mut i: usize = 0;
    proof {
        reveal_strlit("\"text\":");
        assert(out.deep_view() + scan_text_values_from(s@, 0) =~= spec_scan_text_values(s@));
    }
    while i < n
        invariant
            0 <= i <= n,
            n == s@.len(),
            "\"text\":"@.len() == 7,
            spec_scan_text_values(s@) == out.deep_view() + scan_text_values_from(s@, i as int),
        decreases n - i,
    {
        let mut stepped = false;
        if matches_at_exec(s, i, "\"text\":") {
            let w = find_non_ws(s, i + 7);
            if w < n && s.get_char(w) == '"' {
                let e = find_dquote(s, w + 1);
                if e < n && e - (w + 1) >= 3 {
                    let ghost pre = out.deep_view();
                    let cap = String::from_str(s.substring_char(w + 1, e));
                    out.push(cap);
                    proof {
                        assert(out.deep_view() =~= pre.push(s@.subrange(w + 1, e as int)));
                        assert(scan_text_values_from(s@, i as int) == seq![s@.subrange(
                            w + 1,
                            e as int,
                        )] + scan_text_values_from(s@, e + 1));
                        assert(pre + (seq![s@.subrange(w + 1, e as int)] + scan_text_values_from(
                            s@,
                            e + 1,
                        )) =~= out.deep_view() + scan_text_values_from(s@, e + 1));
                    }
                    i = e + 1;
                    stepped = true;
                }
            }
        }
        if !stepped {
            i = i + 1;
        }
    }
    proof {
        assert(out.deep_view() + scan_text_values_from(s@, i as int) =~= out.deep_view());
    }
    out
}

/// The captures of the JSON key-name heuristic, scanning from `i`: a
/// double-quoted run of at least three characters followed by optional
/// whitespace and a colon.
pub open spec fn scan_json_keys_from(s: Seq<char>, i: int) -> Seq<Seq<char>>
    recommends
        0 <= i <= s.len(),
    decreases s.len() - i when 0 <= i <= s.len()
    via scan_json_keys_decreases
{
    if i >= s.len() {
        Seq::empty()
    } else if s[i] == '"' {
        let e = dquote_end(s, i + 1);
        if e < s.len() && e - (i + 1) >= 3 {
            let w = skip_ws_end(s, e + 1);
            if w < s.len() && s[w] == ':' {
                seq![s.subrange(i + 1, e)] + scan_json_keys_from(s, w + 1)
            } else {
                scan_json_keys_from(s, i + 1)
            }
        } else {
            scan_json_keys_from(s, i + 1)
        }
    } else {
        scan_json_keys_from(s, i + 1)
    }
}

#[via_fn]
proof fn scan_json_keys_decreases(s: Seq<char>, i: int) {
    if 0 <= i < s.len() && s[i] == '"' {
        lemma_first_from_bounds(s, i + 1, |c: char| c == '"');
        let e = dquote_end(s, i + 1);
        if 0 <= e + 1 <= s.len() {
            lemma_first_from_bounds(s, e + 1, |c: char| !spec_is_whitespace(c));
        }
    }
}

/// All captures of the JSON key-name heuristic.
pub open spec fn spec_scan_json_keys(s: Seq<char>) -> Seq<Seq<char>> {
    scan_json_keys_from(s, 0)
}

/// Runs the JSON key-name heuristic.
pub fn scan_json_keys(s: &str) -> (r: Vec<String>)
    ensures
        r.deep_view() == spec_scan_json_keys(s@),
{
    let n: usize = s.unicode_len();
    let mut out: Vec<String> = Vec::new();
    let mut i: usize = 0;
    proof {
        assert(out.deep_view() + scan_json_keys_from(s@, 0) =~= spec_scan_json_keys(s@));
    }
    while i < n
        invariant
            0 <= i <= n,
            n == s@.len(),
            spec_scan_json_keys(s@) == out.deep_view() + scan_json_keys_from(s@, i as int),
        decreases n - i,
    {
        let mut stepped = false;
        if s.get_char(i) == '"' {
            let e = find_dquote(s, i + 1);
            if e < n && e - (i + 1) >= 3 {
                let w = find_non_ws(s, e + 1);
                if w < n && s.get_char(w) == ':' {
                    let ghost pre = out.deep_view();
                    let cap = String::from_str(s.substring_char(i + 1, e));
                    out.push(cap);
                    proof {
                        assert(out.deep_view() =~= pre.push(s@.subrange(i + 1, e as int)));
                        assert(scan_json_keys_from(s@, i as int) == seq![s@.subrange(
                            i + 1,
                            e as int,
                        )] + scan_json_keys_from(s@, w + 1));
                        assert(pre + (seq![s@.subrange(i + 1, e as int)] + scan_json_keys_from(
                            s@,
                            w + 1,
                        )) =~= out.deep_view() + scan_json_keys_from(s@, w + 1));
                    }
                    i = w + 1;
                    stepped = true;
                }
            }
        }
        if !stepped {
            i = i + 1;
        }
    }
    proof {
        assert(out.deep_view() + scan_json_keys_from(s@, i as int) =~= out.deep_view());
    }
    out
}

/// Whether a key names user-interface text: `text`, `title`, `name` or
/// `description`.
pub open spec fn is_ui_key(k: Seq<char>) -> bool {
    k == "text"@ || k == "title"@ || k == "name"@ || k == "description"@
}

/// The captures of the key/value heuristic, scanning from `i`: a
/// double-quoted key starting with an ASCII letter, a colon, optional
/// whitespace and a double-quoted value of at least three characters.
/// Only values under user-interface keys are kept.
pub open spec fn scan_ui_values_from(s: Seq<char>, i: int) -> Seq<Seq<char>>
    recommends
        0 <= i <= s.len(),
    decreases s.len() - i when 0 <= i <= s.len()
    via scan_ui_values_decreases
{
    if i >= s.len() {
        Seq::empty()
    } else if s[i] == '"' && i + 1 < s.len() && is_alpha_char(s[i + 1]) {
        let e = dquote_end(s, i + 1);
        if e + 1 < s.len() && s[e + 1] == ':' {
            let w = skip_ws_end(s, e + 2);
            if w < s.len() && s[w] == '"' {
                let v = dquote_end(s, w + 1);
                if v < s.len() && v - (w + 1) >= 3 {
                    (if is_ui_key(s.subrange(i + 1, e)) {
                        seq![s.subrange(w + 1, v)]
                    } else {
                        Seq::empty()
                    }) + scan_ui_values_from(s, v + 1)
                } else {
                    scan_ui_values_from(s, i + 1)
                }
            } else {
                scan_ui_values_from(s, i + 1)
            }
        } else {
            scan_ui_values_from(s, i + 1)
        }
    } else {
        scan_ui_values_from(s, i + 1)
    }
}

#[via_fn]
proof fn scan_ui_values_decreases(s: Seq<char>, i: int) {
    if 0 <= i < s.len() {
        lemma_first_from_bounds(s, i + 1, |c: char| c == '"');
        let e = dquote_end(s, i + 1);
        if 0 <= e + 2 <= s.len() {
            lemma_first_from_bounds(s, e + 2, |c: char| !spec_is_whitespace(c));
            let w = skip_ws_end(s, e + 2);
            if 0 <= w + 1 <= s.len() {
                lemma_first_from_bounds(s, w + 1, |c: char| c == '"');
            }
        }
    }
}

/// All captures of the key/value heuristic.
pub open spec fn spec_scan_ui_values(s: Seq<char>) -> Seq<Seq<char>> {
    scan_ui_values_from(s, 0)
}

/// Runs the key/value heuristic.
pub fn scan_ui_values(s: &str) -> (r: Vec<String>)
    ensures
        r.deep_view() == spec_scan_ui_values(s@),
{
    let n: usize = s.unicode_len();
    let mut out: Vec<String> = Vec::new();
    let mut i: usize = 0;
    proof {
        assert(out.deep_view() + scan_ui_values_from(s@, 0) =~= spec_scan_ui_values(s@));
    }
    while i < n
        invariant
            0 <= i <= n,
            n == s@.len(),
            spec_scan_ui_values(s@) == out.deep_view() + scan_ui_values_from(s@, i as int),
        decreases n - i,
    {
        let mut stepped = false;
        if s.get_char(i) == '"' && i + 1 < n && is_alpha(s.get_char(i + 1)) {
            let e = find_dquote(s, i + 1);
            if e < n && e + 1 < n && s.get_char(e + 1) == ':' {
                let w = find_non_ws(s, e + 2);
                if w < n && s.get_char(w) == '"' {
                    let v = find_dquote(s, w + 1);
                    if v < n && v - (w + 1) >= 3 {
                        let key = s.substring_char(i + 1, e);
                        let is_ui = str_eq_str(key, "text") || str_eq_str(key, "title")
                            || str_eq_str(key, "name") || str_eq_str(key, "description");
                        let ghost pre = out.deep_view();
                        if is_ui {
                            let cap = String::from_str(s.substring_char(w + 1, v));
                            out.push(cap);
                            proof {
                                assert(out.deep_view() =~= pre.push(s@.subrange(w + 1, v as int)));
                            }
                        }
                        proof {
                            assert(scan_ui_values_from(s@, i as int) == (if is_ui_key(
                                s@.subrange(i + 1, e as int),
                            ) {
                                seq![s@.subrange(w + 1, v as int)]
                            } else {
                                Seq::<Seq<char>>::empty()
                            }) + scan_ui_values_from(s@, v + 1));
                            assert(pre + ((if is_ui_key(s@.subrange(i + 1, e as int)) {
                                seq![s@.subrange(w + 1, v as int)]
                            } else {
                                Seq::<Seq<char>>::empty()
                            }) + scan_ui_values_from(s@, v + 1)) =~= out.deep_view()
                                + scan_ui_values_from(s@, v + 1));
                        }
                        i = v + 1;
                        stepped = true;
                    }
                }
            }
        }
        if !stepped {
            i = i + 1;
        }
    }
    proof {
        assert(out.deep_view() + scan_ui_values_from(s@, i as int) =~= out.deep_view());
    }
    out
}

/// The captures of the between-tags heuristic, scanning from `i`: a `>`,
/// at least three characters that are not angle brackets, and a `<`.
pub open spec fn scan_tag_texts_from(s: Seq<char>, i: int) -> Seq<Seq<char>>
    recommends
        0 <= i <= s.len(),
    decreases s.len() - i when 0 <= i <= s.len()
{
    if i >= s.len() {
        Seq::empty()
    } else if s[i] == '>' {
        let e = angle_end(s, i + 1);
        if e < s.len() && s[e] == '<' && e - (i + 1) >= 3 {
            seq![s.subrange(i + 1, e)] + scan_tag_texts_from(s, e + 1)
        } else {
            scan_tag_texts_from(s, i + 1)
        }
    } else {
        scan_tag_texts_from(s, i + 1)
    }
}

/// All captures of the between-tags heuristic.
pub open spec fn spec_scan_tag_texts(s: Seq<char>) -> Seq<Seq<char>> {
    scan_tag_texts_from(s, 0)
}

/// Runs the between-tags heuristic.
pub fn scan_tag_texts(s: &str) -> (r: Vec<String>)
    ensures
        r.deep_view() == spec_scan_tag_texts(s@),
{
    let n: usize = s.unicode_len();
    let mut out: Vec<String> = Vec::new();
    let mut i: usize = 0;
    proof {
        assert(out.deep_view() + scan_tag_texts_from(s@, 0) =~= spec_scan_tag_texts(s@));
    }
    while i < n
        invariant
            0 <= i <= n,
            n == s@.len(),
            spec_scan_tag_texts(s@) == out.deep_view() + scan_tag_texts_from(s@, i as int),
        decreases n - i,
    {
        let mut stepped = false;
        if s.get_char(i) == '>' {
            let e = find_angle(s, i + 1);
            if e < n && s.get_char(e) == '<' && e - (i + 1) >= 3 {
                let ghost pre = out.deep_view();
                let cap = String::from_str(s.substring_char(i + 1, e));
                out.push(cap);
                proof {
                    assert(out.deep_view() =~= pre.push(s@.subrange(i + 1, e as int)));
                    assert(scan_tag_texts_from(s@, i as int) == seq![s@.subrange(i + 1, e as int)]
                        + scan_tag_texts_from(s@, e + 1));
                    assert(pre + (seq![s@.subrange(i + 1, e as int)] + scan_tag_texts_from(
                        s@,
                        e + 1,
                    )) =~= out.deep_view() + scan_tag_texts_from(s@, e + 1));
                }
                i = e + 1;
                stepped = true;
            }
        }
        if !stepped {
            i = i + 1;
        }
    }
    proof {
        assert(out.deep_view() + scan_tag_texts_from(s@, i as int) =~= out.deep_view());
    }
    out
}

/// The end of a capitalized phrase whose words so far end at `i`: further
/// words are joined by whitespace, may start with one ASCII capital, and
/// continue with at least one ASCII lower-case letter.
pub open spec fn phrase_end(s: Seq<char>, i: int) -> int
    recommends
        0 <= i <= s.len(),
    decreases s.len() - i when 0 <= i <= s.len()
    via phrase_end_decreases
{
    let w = skip_ws_end(s, i);
    if i < w < s.len() {
        let p = if is_upper_char(s[w]) {
            w + 1
        } else {
            w
        };
        if p < s.len() && is_lower_char(s[p]) {
            phrase_end(s, lower_run_end(s, p + 1))
        } else {
            i
        }
    } else {
        i
    }
}

#[via_fn]
proof fn phrase_end_decreases(s: Seq<char>, i: int) {
    if 0 <= i <= s.len() {
        lemma_first_from_bounds(s, i, |c: char| !spec_is_whitespace(c));
        let w = skip_ws_end(s, i);
        if i < w < s.len() {
            let p = if is_upper_char(s[w]) {
                w + 1
            } else {
                w
            };
            if 0 <= p + 1 <= s.len() {
                lemma_first_from_bounds(s, p + 1, |c: char| !is_lower_char(c));
            }
        }
    }
}

proof fn lemma_phrase_end_bounds(s: Seq<char>, i: int)
    requires
        0 <= i <= s.len(),
    ensures
        i <= phrase_end(s, i) <= s.len(),
    decreases s.len() - i,
{
    lemma_first_from_bounds(s, i, |c: char| !spec_is_whitespace(c));
    let w = skip_ws_end(s, i);
    if i < w < s.len() {
        let p = if is_upper_char(s[w]) {
            w + 1
        } else {
            w
        };
        if p < s.len() && is_lower_char(s[p]) {
            lemma_first_from_bounds(s, p + 1, |c: char| !is_lower_char(c));
            lemma_phrase_end_bounds(s, lower_run_end(s, p + 1));
        }
    }
}

/// Finds `phrase_end`.
fn find_phrase_end(s: &str, i: usize) -> (r: usize)
    requires
        i <= s@.len(),
    ensures
        r == phrase_end(s@, i as int),
        i <= r <= s@.len(),
{
    let n: usize = s.unicode_len();
    let mut cur: usize = i;
    proof {
        lemma_phrase_end_bounds(s@, i as int);
    }
    loop
        invariant
            i <= cur <= n,
            n == s@.len(),
            phrase_end(s@, i as int) == phrase_end(s@, cur as int),
        decreases n - cur,
    {
        let w = find_non_ws(s, cur);
        if !(cur < w && w < n) {
            proof {
                assert(phrase_end(s@, cur as int) == cur);
            }
            return cur;
        }
        let p: usize = if is_upper(s.get_char(w)) {
            w + 1
        } else {
            w
        };
        if !(p < n && is_lower(s.get_char(p))) {
            proof {
                assert(phrase_end(s@, cur as int) == cur);
            }
            return cur;
        }
        let e = find_lower_end(s, p + 1);
        proof {
            assert(phrase_end(s@, cur as int) == phrase_end(s@, e as int));
        }
        cur = e;
    }
}

/// The captures of the capitalized-phrase heuristic, scanning from `i`:
/// an ASCII capital, at least one lower-case letter, and further words as
/// `phrase_end` describes.
pub open spec fn scan_phrases_from(s: Seq<char>, i: int) -> Seq<Seq<char>>
    recommends
        0 <= i <= s.len(),
    decreases s.len() - i when 0 <= i <= s.len()
{
    if i >= s.len() {
        Seq::empty()
    } else if is_upper_char(s[i]) && i + 1 < s.len() && is_lower_char(s[i + 1]) {
        let e = phrase_end(s, lower_run_end(s, i + 2));
        if i < e <= s.len() {
            seq![s.subrange(i, e)] + scan_phrases_from(s, e)
        } else {
            scan_phrases_from(s, i + 1)
        }
    } else {
        scan_phrases_from(s, i + 1)
    }
}

/// All captures of the capitalized-phrase heuristic.
pub open spec fn spec_scan_phrases(s: Seq<char>) -> Seq<Seq<char>> {
    scan_phrases_from(s, 0)
}

/// Runs the capitalized-phrase heuristic.
pub fn scan_phrases(s: &str) -> (r: Vec<String>)
    ensures
        r.deep_view() == spec_scan_phrases(s@),
{
    let n: usize = s.unicode_len();
    let mut out: Vec<String> = Vec::new();
    let mut i: usize = 0;
    proof {
        assert(out.deep_view() + scan_phrases_from(s@, 0) =~= spec_scan_phrases(s@));
    }
    while i < n
        invariant
            0 <= i <= n,
            n == s@.len(),
            spec_scan_phrases(s@) == out.deep_view() + scan_phrases_from(s@, i as int),
        decreases n - i,
    {
        let mut stepped = false;
        if is_upper(s.get_char(i)) && i + 1 < n && is_lower(s.get_char(i + 1)) {
            let e0 = find_lower_end(s, i + 2);
            let e = find_phrase_end(s, e0);
            if e > i {
                let ghost pre = out.deep_view();
                let cap = String::from_str(s.substring_char(i, e));
                out.push(cap);
                proof {
                    assert(out.deep_view() =~= pre.push(s@.subrange(i as int, e as int)));
                    assert(scan_phrases_from(s@, i as int) == seq![s@.subrange(i as int, e as int)]
                        + scan_phrases_from(s@, e as int));
                    assert(pre + (seq![s@.subrange(i as int, e as int)] + scan_phrases_from(
                        s@,
                        e as int,
                    )) =~= out.deep_view() + scan_phrases_from(s@, e as int));
                }
                i = e;
                stepped = true;
            }
        }
        if !stepped {
            i = i + 1;
        }
    }
    proof {
        assert(out.deep_view() + scan_phrases_from(s@, i as int) =~= out.deep_view());
    }
    out
}

} // verus!
