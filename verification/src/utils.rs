//! Input-independent helpers: the translatability filter, data-URI payload
//! extraction, output-path derivation and content hashing.

use vstd::prelude::*;
use crate::strutil::{
    all_ws_punct_digit, contains_substr, is_all_ws_punct_digit, spec_contains, spec_starts_with,
    spec_word_count, starts_with_str, count_words,
};
use std::collections::hash_map::DefaultHasher;
use std::hash::{Hash, Hasher};

verus! {

/// The translatability filter: a candidate is worth sending to the
/// translation service iff its length lies strictly between 2 and 200
/// characters, it is not made of whitespace, punctuation and digits alone,
/// it is not a URL-like or code-like string, and it has at most ten words.
pub open spec fn spec_is_translatable(s: Seq<char>) -> bool {
    &&& s.len() > 2
    &&& s.len() < 200
    &&& !all_ws_punct_digit(s)
    &&& !spec_starts_with(s, "http"@)
    &&& !spec_starts_with(s, "www."@)
    &&& !spec_contains(s, "function"@)
    &&& !spec_contains(s, "var "@)
    &&& spec_word_count(s) <= 10
}

/// Decides whether a candidate string should be offered for translation.
pub fn is_translatable_text(text: &str) -> (r: bool)
    ensures
        r == spec_is_translatable(text@),
{
    let n: usize = text.unicode_len();
    n > 2 && n < 200 && !is_all_ws_punct_digit(text) && !starts_with_str(text, "http")
        && !starts_with_str(text, "www.") && !contains_substr(text, "function")
        && !contains_substr(text, "var ") && count_words(text) <= 10
}

/// Index of the first comma at or after `i`, or `s.len()` if none.
pub open spec fn first_comma(s: Seq<char>, i: int) -> int
    recommends
        0 <= i <= s.len(),
    decreases s.len() - i when 0 <= i <= s.len()
{
    if i < s.len() && s[i] != ',' {
        first_comma(s, i + 1)
    } else {
        i
    }
}

/// The base64 payload of a data URI: everything after the first comma.
pub open spec fn spec_base64_payload(s: Seq<char>) -> Option<Seq<char>> {
    let c = first_comma(s, 0);
    if c < s.len() {
        Some(s.subrange(c + 1, s.len() as int))
    } else {
        None
    }
}

/// Extracts the base64 payload of a data URI, when the URI has one.
pub fn extract_base64_from_data_uri(data_uri: &str) -> (r: Option<String>)
    ensures
        match r {
            Some(p) => spec_base64_payload(data_uri@) == Some(p@),
            None => spec_base64_payload(data_uri@) is None,
        },
{
    let n: usize = data_uri.unicode_len();
    let mut i: usize = 0;
    while i < n && data_uri.get_char(i) != ','
        invariant
            0 <= i <= n,
            n == data_uri@.len(),
            first_comma(data_uri@, 0) == first_comma(data_uri@, i as int),
        decreases n - i,
    {
        i = i + 1;
    }
    proof {
        assert(first_comma(data_uri@, i as int) == i);
    }
    if i < n {
        Some(String::from_str(data_uri.substring_char(i + 1, n)))
    } else {
        None
    }
}

/// The hash value that `std::collections::hash_map::DefaultHasher` computes
/// for a string; it depends on the string's characters alone.
pub uninterp spec fn content_hash_of(s: Seq<char>) -> u64;

/// Relies on `DefaultHasher::new` and `Hasher::finish` of std: hashers made
/// by `new` are documented to be identical, so the digest is a function of
/// the hashed content alone.
#[verifier::external_body]
pub fn calculate_content_hash(content: &str) -> (r: u64)
    ensures
        r == content_hash_of(content@),
{
    let mut hasher = DefaultHasher::new();
    content.hash(&mut hasher);
    hasher.finish()
}

/// Index just after the last `/` in `s`, or `0` when `s` has none.
pub open spec fn after_last_slash(s: Seq<char>, j: int) -> int
    recommends
        0 <= j <= s.len(),
    decreases j when 0 <= j <= s.len()
{
    if j > 0 && s[j - 1] != '/' {
        after_last_slash(s, j - 1)
    } else {
        j
    }
}

/// Index of the last `.` after position `from` in `s`, or `from` when the
/// remainder has none strictly after its first character.
pub open spec fn last_dot_after(s: Seq<char>, from: int, j: int) -> int
    recommends
        0 <= from <= j <= s.len(),
    decreases j - from when 0 <= from <= j <= s.len()
{
    if j > from + 1 && s[j - 1] != '.' {
        last_dot_after(s, from, j - 1)
    } else if j > from + 1 {
        j - 1
    } else {
        from
    }
}

/// The derived output path: the stem of the input file name, an underscore,
/// the language code, and the input's extension, in the input's directory.
pub open spec fn spec_output_path(input: Seq<char>, lang: Seq<char>) -> Seq<char> {
    let base = after_last_slash(input, input.len() as int);
    let dot = last_dot_after(input, base, input.len() as int);
    let stem = if dot == base {
        input.subrange(base, input.len() as int)
    } else {
        input.subrange(base, dot)
    };
    let ext = if dot == base {
        Seq::<char>::empty()
    } else {
        input.subrange(dot + 1, input.len() as int)
    };
    input.subrange(0, base) + stem + "_"@ + lang + "."@ + ext
}

/// Derives the output path for a translated file.  A caller-supplied output
/// path wins; otherwise the language code is inserted before the extension
/// of the input path.
pub fn generate_output_path(input: &String, output: &Option<String>, lang: &str) -> (r: String)
    ensures
        match output {
            Some(o) => r@ == o@,
            None => r@ == spec_output_path(input@, lang@),
        },
{
    match output {
        Some(o) => o.clone(),
        None => {
            let s = input.as_str();
            let n: usize = s.unicode_len();
            let mut base: usize = n;
            while base > 0 && s.get_char(base - 1) != '/'
                invariant
                    0 <= base <= n,
                    n == s@.len(),
                    after_last_slash(s@, n as int) == after_last_slash(s@, base as int),
                decreases base,
            {
                base = base - 1;
            }
            proof {
                assert(after_last_slash(s@, base as int) == base);
            }
            let mut dot: usize = n;
            while dot - base > 1 && s.get_char(dot - 1) != '.'
                invariant
                    base <= dot <= n,
                    n == s@.len(),
                    last_dot_after(s@, base as int, n as int) == last_dot_after(
                        s@,
                        base as int,
                        dot as int,
                    ),
                decreases dot,
            {
                dot = dot - 1;
            }
            let dot: usize = if dot - base > 1 { dot - 1 } else { base };
            let mut r = String::from_str(s.substring_char(0, base));
            if dot == base {
                r.append(s.substring_char(base, n));
            } else {
                r.append(s.substring_char(base, dot));
            }
            r.append("_");
            r.append(lang);
            r.append(".");
            if dot != base {
                r.append(s.substring_char(dot + 1, n));
            }
            proof {
                reveal_strlit("_");
                reveal_strlit(".");
                assert(r@ =~= spec_output_path(input@, lang@));
            }
            r
        },
    }
}

} // verus!
