//! What the `regex` crate finds in a text, handed over as plain values.
//!
//! The outer `None` of each result stands for a pattern that `Regex::new` rejects. Which
//! text a pattern matches is named, not restated.

use vstd::prelude::*;

verus! {

/// The text of the leftmost-first match of `pattern` in `haystack`; `Some(None)` where
/// there is none; `None` where `pattern` does not compile.
pub uninterp spec fn regex_first_match(pattern: Seq<char>, haystack: Seq<char>) -> Option<
    Option<Seq<char>>,
>;

/// For each successive non-overlapping match of `pattern` in `haystack`, the text of every
/// capture group (group 0 first), `None` for a group that did not take part; `None` where
/// `pattern` does not compile.
pub uninterp spec fn regex_captures(pattern: Seq<char>, haystack: Seq<char>) -> Option<
    Seq<Seq<Option<Seq<char>>>>,
>;

/// `Regex::new(pattern)` then `Regex::find(haystack)` and `Match::as_str`. The contract names
/// the result; it says nothing of what the pattern matches.
#[verifier::external_body]
pub(crate) fn find_first(pattern: &str, haystack: &str) -> (r: Option<Option<String>>)
    ensures
        r.deep_view() == regex_first_match(pattern@, haystack@),
{
    match regex::Regex::new(pattern) {
        Ok(re) => Some(re.find(haystack).map(|m| m.as_str().to_string())),
        Err(_) => None,
    }
}

/// `Regex::new(pattern)` then `Regex::captures_iter(haystack)`, each match's groups through
/// `Captures::iter` and `Match::as_str`. The contract names the result; it says nothing of
/// what the pattern matches.
#[verifier::external_body]
pub(crate) fn all_captures(pattern: &str, haystack: &str) -> (r: Option<Vec<Vec<Option<String>>>>)
    ensures
        r.deep_view() == regex_captures(pattern@, haystack@),
{
    match regex::Regex::new(pattern) {
        Ok(re) => Some(
            re.captures_iter(haystack).map(
                |caps| caps.iter().map(|g| g.map(|m| m.as_str().to_string())).collect(),
            ).collect(),
        ),
        Err(_) => None,
    }
}

} // verus!
