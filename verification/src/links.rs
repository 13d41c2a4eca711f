//! URL handling, delegated to the `url` crate. A URL is carried as the
//! string that `url::Url` serializes it to, which is also what `Url`'s own
//! equality and hashing compare.

use vstd::prelude::*;

verus! {

/// What `url::Url::parse` makes of `s`, serialized with `Url::as_str`;
/// `None` where it reports a parse error.
pub uninterp spec fn url_parse_spec(s: Seq<char>) -> Option<Seq<char>>;

/// What `url::Url::join` makes of `href` against the URL that
/// `url::Url::parse` reads from `base`, serialized; where either step
/// reports a parse error, that error as it is displayed.
pub uninterp spec fn url_join_result(base: Seq<char>, href: Seq<char>) -> Result<Seq<char>, Seq<char>>;

/// The joined URL, `None` where joining fails.
pub open spec fn url_join_spec(base: Seq<char>, href: Seq<char>) -> Option<Seq<char>> {
    match url_join_result(base, href) {
        Ok(u) => Some(u),
        Err(_) => None,
    }
}

/// `url::Url::parse` (what `str::parse::<Url>` calls). Claimed: the result
/// is the serialization of the parsed URL, `None` on a parse error, and it
/// depends on `s` alone.
#[verifier::external_body]
pub(crate) fn url_parse(s: &str) -> (r: Option<String>)
    ensures
        r.deep_view() == url_parse_spec(s@),
{
    match ::url::Url::parse(s) {
        Ok(u) => Some(String::from(u)),
        Err(_) => None,
    }
}

/// `url::Url::parse` of `base`, then `url::Url::join` of `href`. Claimed:
/// the result is the serialization of the joined URL, or the display of the
/// `url::ParseError` that either call reports, and it depends on `base` and
/// `href` alone.
#[verifier::external_body]
pub(crate) fn url_join_checked(base: &str, href: &str) -> (r: Result<String, String>)
    ensures
        match r {
            Ok(u) => url_join_result(base@, href@) == Ok::<Seq<char>, Seq<char>>(u@),
            Err(e) => url_join_result(base@, href@) == Err::<Seq<char>, Seq<char>>(e@),
        },
{
    match ::url::Url::parse(base).and_then(|u| u.join(href)) {
        Ok(j) => Ok(String::from(j)),
        Err(e) => Err(format!("{}", e)),
    }
}

/// The URL `href` joined to `base`; `None` where that fails.
pub(crate) fn url_join(base: &str, href: &str) -> (r: Option<String>)
    ensures
        r.deep_view() == url_join_spec(base@, href@),
{
    match url_join_checked(base, href) {
        Ok(u) => Some(u),
        Err(_) => None,
    }
}

} // verus!
