//! The path-pattern language: direct regular-expression search, relative-prefix
//! stripping and parent-hop counting.
use vstd::prelude::*;
use crate::text::{
    after_last, after_last_chars, chars_of, contains, count_hops, count_hops_chars, ends_with,
    ends_with_char, ends_with_char_exec, ends_with_chars, normalize, normalize_chars,
    string_of, strip_relative, strip_relative_chars,
};

verus! {

/// Whether the regular-expression engine accepts this pattern.
pub uninterp spec fn regex_compiles(pattern: Seq<char>) -> bool;

/// Whether a compiled pattern finds a match anywhere in the haystack.
pub uninterp spec fn regex_finds(pattern: Seq<char>, haystack: Seq<char>) -> bool;

/// The path without its final component, as the platform's path type computes it.
pub uninterp spec fn parent_of(path: Seq<char>) -> Option<Seq<char>>;

/// Characters that the regular-expression syntax reads as themselves: all but its
/// meta characters.
pub open spec fn is_plain_char(c: char) -> bool {
    !(c == '\\' || c == '.' || c == '+' || c == '*' || c == '?' || c == '(' || c == ')' || c == '|'
        || c == '[' || c == ']' || c == '{' || c == '}' || c == '^' || c == '$' || c == '#' || c
        == '&' || c == '-' || c == '~')
}

pub open spec fn plain_literal(s: Seq<char>) -> bool {
    forall|i: int| 0 <= i < s.len() ==> is_plain_char(#[trigger] s[i])
}

/// Why a pattern could not be evaluated.
#[derive(Debug, Clone, Copy, PartialEq, Eq, Structural)]
pub enum PatternError {
    /// The reduced pattern is not a valid regular expression.
    InvalidRegex,
}

/// Relies on `regex::Regex::new`, which fails on a pattern it cannot compile, and on
/// `regex::Regex::is_match`, which reports a match anywhere in the haystack. The regex
/// syntax reads every character but its meta characters (`regex_syntax::is_meta_character`)
/// as itself, so a pattern without them matches exactly where it occurs as text.
#[verifier::external_body]
fn regex_search(pattern: &str, haystack: &str) -> (r: Option<bool>)
    ensures
        r is Some <==> regex_compiles(pattern@),
        r matches Some(b) ==> b == regex_finds(pattern@, haystack@),
        plain_literal(pattern@) ==> (r matches Some(b) ==> b == contains(haystack@, pattern@)),
{
    match regex::Regex::new(pattern) {
        Ok(re) => Some(re.is_match(haystack)),
        Err(_) => None,
    }
}

/// Relies on `std::path::Path::parent`: the path without its final component, or
/// nothing for a root or an empty path. The parent of a `str` path is valid UTF-8.
#[verifier::external_body]
fn parent_path(path: &str) -> (r: Option<String>)
    ensures
        match r {
            Some(q) => parent_of(path@) == Some(q@),
            None => parent_of(path@) is None,
        },
{
    match std::path::Path::new(path).parent() {
        Some(q) => Some(q.to_string_lossy().into_owned()),
        None => None,
    }
}

/// The pattern after separator normalization and relative-prefix stripping.
pub open spec fn reduce(pattern: Seq<char>) -> Seq<char> {
    strip_relative(normalize(pattern))
}

/// How many parents to climb: the marker count, less one when the pattern does not
/// end with a separator.
pub open spec fn hop_count(reduced: Seq<char>) -> nat {
    let c = count_hops(reduced);
    if c == 0 {
        0
    } else if ends_with_char(reduced, '/') {
        c
    } else {
        (c - 1) as nat
    }
}

/// The path reached by taking the parent `n` times, if every step has one.
pub open spec fn ancestor(path: Seq<char>, n: nat) -> Option<Seq<char>>
    decreases n,
{
    if n == 0 {
        Some(path)
    } else {
        match parent_of(path) {
            Some(q) => ancestor(q, (n - 1) as nat),
            None => None,
        }
    }
}

/// The parent-hop rule: a positive hop count, an ancestor that far up, and either a
/// reduced pattern ending in a separator or an ancestor ending in the normalized
/// pattern's last `/`-delimited segment.
pub open spec fn hop_match(path: Seq<char>, pattern: Seq<char>) -> bool {
    let red = reduce(pattern);
    let n = hop_count(red);
    n > 0 && match ancestor(path, n) {
        Some(a) => ends_with_char(red, '/') || ends_with(a, after_last(normalize(pattern), '/')),
        None => false,
    }
}

/// What matching `path` against `pattern` gives: nothing for a pattern that does not
/// compile, else a direct match or the parent-hop rule.
pub open spec fn pattern_outcome(path: Seq<char>, pattern: Seq<char>) -> Option<bool> {
    let red = reduce(pattern);
    if !regex_compiles(red) {
        None
    } else if regex_finds(red, normalize(path)) {
        Some(true)
    } else {
        Some(hop_match(path, pattern))
    }
}

/// Climbs `up_folders_count` parents from `path`; nothing if a step has no parent.
pub fn do_up_folders_of_path(path: &str, up_folders_count: usize) -> (r: Option<String>)
    ensures
        match r {
            Some(a) => ancestor(path@, up_folders_count as nat) == Some(a@),
            None => ancestor(path@, up_folders_count as nat) is None,
        },
{
    let mut current: String = path.to_owned();
    let mut step: usize = 0;
    while step < up_folders_count
        invariant
            step <= up_folders_count,
            ancestor(path@, up_folders_count as nat) == ancestor(
                current@,
                (up_folders_count - step) as nat,
            ),
        decreases up_folders_count - step,
    {
        match parent_path(current.as_str()) {
            Some(parent) => {
                current = parent;
            },
            None => {
                return None;
            },
        }
        step += 1;
    }
    Some(current)
}

/// The number of parents that the (reduced) pattern asks to climb.
pub fn match_up_folder_count(path: &str) -> (r: usize)
    ensures
        r == hop_count(path@),
{
    let chars = chars_of(path);
    let count = count_hops_chars(&chars);
    if count == 0 {
        return 0;
    }
    if ends_with_char_exec(&chars, '/') {
        count
    } else {
        count - 1
    }
}

/// Matches `path` against `regex` in the pattern language; the reduced pattern must
/// be a valid regular expression. A pattern without regex meta characters that occurs
/// in the normalized path matches; one that has no parent-hop marker and does not
/// occur there does not.
pub fn is_folder_path_regex_match(path: &str, regex: &str) -> (r: bool)
    requires
        regex_compiles(reduce(regex@)),
    ensures
        pattern_outcome(path@, regex@) == Some(r),
        plain_literal(reduce(regex@)) && contains(normalize(path@), reduce(regex@)) ==> r,
        plain_literal(reduce(regex@)) && count_hops(reduce(regex@)) == 0 && !contains(
            normalize(path@),
            reduce(regex@),
        ) ==> !r,
{
    let regex_chars = normalize_chars(&chars_of(regex));
    let clean = strip_relative_chars(&regex_chars);
    let clean_regex = string_of(&clean);
    let path_clean = string_of(&normalize_chars(&chars_of(path)));
    match regex_search(clean_regex.as_str(), path_clean.as_str()) {
        None => {
            return false;
        },
        Some(found) => {
            if found {
                return true;
            }
        },
    }
    let matches_any_folder_or_file = !ends_with_char_exec(&clean, '/');
    let up_folders_count = match_up_folder_count(clean_regex.as_str());
    if up_folders_count > 0 {
        if let Some(final_path) = do_up_folders_of_path(path, up_folders_count) {
            if !matches_any_folder_or_file {
                return true;
            }
            let folder_or_file_name = after_last_chars(&regex_chars, '/');
            return ends_with_chars(&chars_of(final_path.as_str()), &folder_or_file_name);
        }
    }
    false
}

/// Matches `path` against any `regex`: an error for a pattern that is not a valid
/// regular expression once reduced, else the match.
pub fn checked_folder_path_match(path: &str, regex: &str) -> (r: Result<bool, PatternError>)
    ensures
        match pattern_outcome(path@, regex@) {
            Some(b) => r == Ok::<bool, PatternError>(b),
            None => r == Err::<bool, PatternError>(PatternError::InvalidRegex),
        },
{
    match check_pattern(regex) {
        Err(e) => Err(e),
        Ok(()) => Ok(is_folder_path_regex_match(path, regex)),
    }
}

/// Checks that a pattern, once reduced, is a valid regular expression.
pub fn check_pattern(pattern: &str) -> (r: Result<(), PatternError>)
    ensures
        r is Ok <==> regex_compiles(reduce(pattern@)),
{
    let clean = string_of(&strip_relative_chars(&normalize_chars(&chars_of(pattern))));
    let empty = string_of(&Vec::new());
    match regex_search(clean.as_str(), empty.as_str()) {
        Some(_) => Ok(()),
        None => Err(PatternError::InvalidRegex),
    }
}

/// With no parent-hop marker in the reduced pattern and no direct match, a pattern
/// never matches.
pub proof fn lemma_no_hops_no_direct_match(path: Seq<char>, pattern: Seq<char>)
    requires
        count_hops(reduce(pattern)) == 0,
        !regex_finds(reduce(pattern), normalize(path)),
    ensures
        pattern_outcome(path, pattern) != Some(true),
{
}

/// A direct match decides the outcome before any parent is looked at.
pub proof fn lemma_direct_match_short_circuits(path: Seq<char>, pattern: Seq<char>)
    requires
        regex_compiles(reduce(pattern)),
        regex_finds(reduce(pattern), normalize(path)),
    ensures
        pattern_outcome(path, pattern) == Some(true),
{
}

} // verus!
