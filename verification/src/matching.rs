//! Regular-expression matching, done by the `regex` crate.
use vstd::prelude::*;

verus! {

/// The text of capture group `group` of the leftmost match of regular
/// expression `pattern` in `text`, as the `regex` crate finds it; `None`
/// when the pattern does not compile, nothing matches, or the group took no
/// part in the match.
pub uninterp spec fn regex_group(pattern: Seq<char>, text: Seq<char>, group: nat) -> Option<Seq<char>>;

/// Whether regular expression `pattern` matches anywhere in `text`, as the
/// `regex` crate decides; false when the pattern does not compile.
pub uninterp spec fn regex_matches(pattern: Seq<char>, text: Seq<char>) -> bool;

/// Calls `regex::Regex::new`, then `Regex::captures` and `Captures::get`.
/// Its result is only named.
#[verifier::external_body]
pub(crate) fn capture_group(pattern: &str, text: &str, group: usize) -> (r: Option<String>)
    ensures
        match regex_group(pattern@, text@, group as nat) {
            Some(g) => r matches Some(s) && s@ == g,
            None => r is None,
        },
{
    regex::Regex::new(pattern).ok()?.captures(text)?.get(group).map(|m| m.as_str().to_owned())
}

/// Calls `regex::Regex::new`, then `Regex::is_match`. Its result is only
/// named.
#[verifier::external_body]
pub(crate) fn regex_is_match(pattern: &str, text: &str) -> (r: bool)
    ensures
        r == regex_matches(pattern@, text@),
{
    regex::Regex::new(pattern).map(|re| re.is_match(text)).unwrap_or(false)
}

} // verus!
