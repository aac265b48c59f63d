//! The two domain operations of the API client, reduced to their verified
//! pagination semantics: where each listing starts and with which query
//! parameters. The HTTP requests themselves are issued by the front end,
//! which drives the returned `Paginator`.

use vstd::prelude::*;

use crate::domain::{Org, Repo};
use crate::pagination::Paginator;

verus! {

/// Fixed endpoint listing the authenticated user's organizations.
pub const ORGS_URL: &'static str = "https://api.github.com/user/orgs";

/// Requested page size for repository listings, to minimize round-trips.
pub const REPOS_PER_PAGE: &'static str = "100";

/// Query-parameter name of the page-size hint.
pub const REPOS_PER_PAGE_KEY: &'static str = "per_page";

/// The serialization of `base` with the query pair `key=value` appended to
/// its query string, any parameters already present preserved — or `None`
/// when `base` does not parse as an absolute URL.
pub uninterp spec fn merged_url(base: Seq<char>, key: Seq<char>, value: Seq<char>) -> Option<
    Seq<char>,
>;

/// Relies on `url::Url::parse_with_params` and `url::Url::as_str`: whether
/// a base URL parses, and its serialization with one key/value pair
/// appended to the query string, are pure functions of the three strings.
#[verifier::external_body]
fn merge_query_param(base: &str, key: &str, value: &str) -> (r: Option<String>)
    ensures
        match r {
            Some(u) => merged_url(base@, key@, value@) == Some(u@),
            None => merged_url(base@, key@, value@) is None,
        },
{
    match url::Url::parse_with_params(base, &[(key, value)]) {
        Ok(u) => Some(u.as_str().to_owned()),
        Err(_) => None,
    }
}

/// Starts the organizations listing at the fixed endpoint. One page is
/// expected in practice, but any `Link` header the server sends is honored
/// like that of any other paginated resource.
pub fn orgs_paginator() -> (p: Paginator<Org>)
    ensures
        p.spec_results() == Seq::<Org>::empty(),
        p.spec_next_url() == Some(ORGS_URL@),
        p.spec_pages() == 0,
{
    Paginator::begin(ORGS_URL.to_owned())
}

/// Starts a repositories listing at `repos_url` with the page-size hint
/// merged into its query string; `None` exactly when the starting URL does
/// not parse, before any request is owed.
pub fn repos_paginator(repos_url: &str) -> (r: Option<Paginator<Repo>>)
    ensures
        match r {
            Some(p) => ({
                &&& p.spec_results() == Seq::<Repo>::empty()
                &&& p.spec_next_url() == merged_url(
                    repos_url@,
                    REPOS_PER_PAGE_KEY@,
                    REPOS_PER_PAGE@,
                )
                &&& p.spec_pages() == 0
            }),
            None => merged_url(repos_url@, REPOS_PER_PAGE_KEY@, REPOS_PER_PAGE@) is None,
        },
{
    match merge_query_param(repos_url, REPOS_PER_PAGE_KEY, REPOS_PER_PAGE) {
        Some(u) => Some(Paginator::begin(u)),
        None => None,
    }
}

} // verus!
