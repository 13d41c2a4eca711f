//! Regular expressions and identifier casing, delegated to the `regex` and
//! `heck` crates.

use vstd::prelude::*;

verus! {

/// What `regex::Regex::is_match` answers for `pattern` on `text`; `None`
/// where `regex::Regex::new` rejects the pattern.
pub uninterp spec fn regex_is_match_spec(pattern: Seq<char>, text: Seq<char>) -> Option<bool>;

/// The groups of the leftmost-first match of `pattern` in `text`, as
/// `regex::Regex::captures` reports them (group 0 is the whole match, a group
/// that took no part is `None`); `Some(None)` when there is no match, `None`
/// where `regex::Regex::new` rejects the pattern.
pub uninterp spec fn regex_captures_spec(pattern: Seq<char>, text: Seq<char>) -> Option<
    Option<Seq<Option<Seq<char>>>>,
>;

/// What `heck::AsSnakeCase` displays for `s`.
pub uninterp spec fn snake_case_spec(s: Seq<char>) -> Seq<char>;

/// `regex::Regex::new` then `Regex::is_match`. Claimed: the answer depends on
/// the pattern and the text alone; `None` exactly where compiling fails.
#[verifier::external_body]
pub(crate) fn regex_is_match(pattern: &str, text: &str) -> (r: Option<bool>)
    ensures
        r == regex_is_match_spec(pattern@, text@),
{
    match regex::Regex::new(pattern) {
        Ok(re) => Some(re.is_match(text)),
        Err(_) => None,
    }
}

/// `regex::Regex::new` then `Regex::captures`, each group taken as a string.
/// Claimed: the groups depend on the pattern and the text alone; `None`
/// exactly where compiling fails.
#[verifier::external_body]
pub(crate) fn regex_captures(pattern: &str, text: &str) -> (r: Option<Option<Vec<Option<String>>>>)
    ensures
        r.deep_view() == regex_captures_spec(pattern@, text@),
{
    match regex::Regex::new(pattern) {
        Ok(re) => Some(
            re.captures(text).map(|c| c.iter().map(|g| g.map(|m| m.as_str().to_string())).collect()),
        ),
        Err(_) => None,
    }
}

/// `heck::AsSnakeCase` displayed. Claimed: the result depends on `s` alone.
#[verifier::external_body]
pub(crate) fn snake_case(s: &str) -> (r: String)
    ensures
        r@ == snake_case_spec(s@),
{
    heck::AsSnakeCase(s).to_string()
}

} // verus!
