//! Regular-expression matching, which is not verified here: the `regex`
//! crate does it.

use vstd::prelude::*;

verus! {

/// What `regex::Regex::captures` finds when the regular expression written
/// as `pattern` is run over `text`: `None` when `pattern` is no regular
/// expression or nothing in `text` matches it; otherwise the capture groups
/// of the first match, group 0 (the whole match) first, each either the text
/// it matched or `None` when it took no part in the match.
pub uninterp spec fn regex_captures(pattern: Seq<char>, text: Seq<char>) -> Option<
    Seq<Option<Seq<char>>>,
>;

/// Compiles `pattern` with `regex::Regex::new` and searches `text` with
/// `regex::Regex::captures`, copying each group of the first match out with
/// `regex::Match::as_str`.
///
/// Not verified. The contract only gives the result its name,
/// [`regex_captures`]: matching is deterministic, so equal arguments give
/// equal results, and nothing more is claimed of them.
#[verifier::external_body]
pub(crate) fn captures(pattern: &str, text: &str) -> (found: Option<Vec<Option<String>>>)
    ensures
        found.deep_view() == regex_captures(pattern@, text@),
{
    match regex::Regex::new(pattern) {
        Ok(re) => re.captures(text).map(
            |caps| caps.iter().map(|group| group.map(|m| m.as_str().to_string())).collect(),
        ),
        Err(_) => None,
    }
}

} // verus!
