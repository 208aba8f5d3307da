//! The response parser: recovers `(global index, translated text)` pairs
//! from one batch's reply.  Only well-formed `[index] text` lines count;
//! reordered lines, dropped indices and surrounding prose are tolerated
//! and ignored.

use vstd::prelude::*;
use crate::chars::{is_ascii_digit_char, spec_is_ascii_digit};
use crate::digits::{parse_decimal_range, spec_decimal_value};
use crate::scan::{first_from, lemma_first_from_bounds};
use crate::strutil::{spec_trim, trim_str};

verus! {

/// End of the decimal digit run starting at `i`.
pub open spec fn digit_end(s: Seq<char>, i: int) -> int {
    first_from(s, i, |c: char| !spec_is_ascii_digit(c))
}

/// First newline at or after `i`.
pub open spec fn newline_end(s: Seq<char>, i: int) -> int {
    first_from(s, i, |c: char| c == '\n')
}

/// The pair recovered from one line, if the trimmed line matches
/// `[<digits>] <text>` with a representable index and non-empty text.
pub open spec fn spec_parse_line(line: Seq<char>) -> Option<(usize, Seq<char>)> {
    let t = spec_trim(line);
    if t.len() > 0 && t[0] == '[' {
        let e = digit_end(t, 1);
        if 1 < e < t.len() && t[e] == ']' {
            let v = spec_decimal_value(t.subrange(1, e));
            let rest = spec_trim(t.subrange(e + 1, t.len() as int));
            if v <= usize::MAX && rest.len() > 0 {
                Some((v as usize, rest))
            } else {
                None
            }
        } else {
            None
        }
    } else {
        None
    }
}

/// The pairs recovered from the lines of `s` starting at position `i`,
/// in line order.
pub open spec fn parse_response_from(s: Seq<char>, i: int) -> Seq<(usize, Seq<char>)>
    recommends
        0 <= i <= s.len(),
    decreases s.len() - i when 0 <= i <= s.len()
    via parse_response_from_decreases
{
    if i >= s.len() {
        Seq::empty()
    } else {
        let e = newline_end(s, i);
        let this = spec_parse_line(s.subrange(i, e));
        let rest = if e < s.len() {
            parse_response_from(s, e + 1)
        } else {
            Seq::empty()
        };
        match this {
            Some(p) => seq![p] + rest,
            None => rest,
        }
    }
}

#[via_fn]
proof fn parse_response_from_decreases(s: Seq<char>, i: int) {
    if 0 <= i < s.len() {
        lemma_first_from_bounds(s, i, |c: char| c == '\n');
    }
}

/// All pairs recovered from a response text.
pub open spec fn spec_parse_response(s: Seq<char>) -> Seq<(usize, Seq<char>)> {
    parse_response_from(s, 0)
}

/// Finds `digit_end`.
fn find_digit_end(s: &str, i: usize) -> (r: usize)
    requires
        i <= s@.len(),
    ensures
        r == digit_end(s@, i as int),
        i <= r <= s@.len(),
        forall|k: int| i <= k < r ==> spec_is_ascii_digit(s@[k]),
        r < s@.len() ==> !spec_is_ascii_digit(s@[r as int]),
{
    proof {
        lemma_first_from_bounds(s@, i as int, |c: char| !spec_is_ascii_digit(c));
    }
    let n: usize = s.unicode_len();
    let mut j: usize = i;
    while j < n && is_ascii_digit_char(s.get_char(j))
        invariant
            i <= j <= n,
            n == s@.len(),
            digit_end(s@, i as int) == digit_end(s@, j as int),
        decreases n - j,
    {
        j = j + 1;
    }
    j
}

/// Finds `newline_end`.
fn find_newline(s: &str, i: usize) -> (r: usize)
    requires
        i <= s@.len(),
    ensures
        r == newline_end(s@, i as int),
        i <= r <= s@.len(),
{
    proof {
        lemma_first_from_bounds(s@, i as int, |c: char| c == '\n');
    }
    let n: usize = s.unicode_len();
    let mut j: usize = i;
    while j < n && s.get_char(j) != '\n'
        invariant
            i <= j <= n,
            n == s@.len(),
            newline_end(s@, i as int) == newline_end(s@, j as int),
        decreases n - j,
    {
        j = j + 1;
    }
    j
}

/// Parses one line.
fn parse_line(line: &str) -> (r: Option<(usize, String)>)
    ensures
        match r {
            Some(p) => spec_parse_line(line@) == Some((p.0, p.1@)),
            None => spec_parse_line(line@) is None,
        },
{
    let t = trim_str(line);
    let n: usize = t.unicode_len();
    if n == 0 || t.get_char(0) != '[' {
        return None;
    }
    let e = find_digit_end(t, 1);
    if !(1 < e && e < n && t.get_char(e) == ']') {
        return None;
    }
    match parse_decimal_range(t, 1, e) {
        Some(v) => {
            let rest = trim_str(t.substring_char(e + 1, n));
            if rest.unicode_len() > 0 {
                Some((v, String::from_str(rest)))
            } else {
                None
            }
        },
        None => None,
    }
}

/// Recovers as many `(global index, translated text)` pairs as possible
/// from a response text: exactly the well-formed `[index] text` lines, in
/// line order, with indices read in decimal and texts trimmed.
pub fn parse_indexed_response(text: &str) -> (r: Vec<(usize, String)>)
    ensures
        r.deep_view() == spec_parse_response(text@),
{
    let n: usize = text.unicode_len();
    let mut out: Vec<(usize, String)> = Vec::new();
    let mut i: usize = 0;
    proof {
        assert(out.deep_view() + parse_response_from(text@, 0) =~= spec_parse_response(text@));
    }
    while i < n
        invariant
            0 <= i <= n,
            n == text@.len(),
            spec_parse_response(text@) == out.deep_view() + parse_response_from(
                text@,
                i as int,
            ),
        decreases n - i,
    {
        let e = find_newline(text, i);
        let line = text.substring_char(i, e);
        let ghost pre = out.deep_view();
        match parse_line(line) {
            Some(p) => {
                let ghost pv = (p.0, p.1@);
                out.push(p);
                proof {
                    assert(out.deep_view() =~= pre.push(pv));
                }
            },
            None => {},
        }
        proof {
            let rest = if e < n {
                parse_response_from(text@, e + 1)
            } else {
                Seq::<(usize, Seq<char>)>::empty()
            };
            match spec_parse_line(text@.subrange(i as int, e as int)) {
                Some(p) => {
                    assert(parse_response_from(text@, i as int) == seq![p] + rest);
                    assert(pre + (seq![p] + rest) =~= out.deep_view() + rest);
                },
                None => {
                    assert(parse_response_from(text@, i as int) == rest);
                },
            }
            if e >= n {
                assert(parse_response_from(text@, n as int) =~= Seq::<(usize, Seq<char>)>::empty());
                assert(out.deep_view() + rest =~= out.deep_view() + parse_response_from(
                    text@,
                    n as int,
                ));
            }
        }
        if e < n {
            i = e + 1;
        } else {
            i = n;
        }
    }
    proof {
        assert(out.deep_view() + parse_response_from(text@, i as int) =~= out.deep_view());
    }
    out
}

} // verus!
