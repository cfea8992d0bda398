//! Endpoint descriptions: the URLs the surrounding tools fetch.
//!
//! An endpoint renders itself as a URL string; the application performs the
//! actual request.  A basic endpoint is a fixed URL; a paged endpoint keeps
//! a page counter and appends pagination parameters to its base URL.

use vstd::prelude::*;

use crate::decimal::{dec_chars, u64_to_string};

verus! {

/// Something that can be fetched: it renders itself as a URL string.
pub trait Endpoint {
    /// Which strings are acceptable renderings of this endpoint's URL.
    spec fn url_ok(&self, url: Seq<char>) -> bool;

    /// The URL to fetch.
    fn url(&self) -> (r: String)
        ensures
            self.url_ok(r@),
    ;
}

/// An endpoint with a fixed URL.
pub struct BasicEndpoint {
    pub base_url: String,
}

impl Endpoint for BasicEndpoint {
    /// A basic endpoint renders exactly its base URL.
    open spec fn url_ok(&self, url: Seq<char>) -> bool {
        url == self.base_url@
    }

    fn url(&self) -> (r: String) {
        self.base_url.clone()
    }
}

/// An endpoint over a paged listing: the base URL plus a page counter.
pub struct PagedEndpoint {
    pub base_url: String,
    pub page: u32,
}

/// Renderings per page are requested in batches of this many records.
pub const RECORDS_PER_PAGE: u64 = 100;

/// What `url::Url::parse_with_params` produces for a base URL and the two
/// pagination query pairs: the parsed, normalised URL text with `page` and
/// `per_page` appended to its query.  It depends on the three texts alone.
pub uninterp spec fn paged_url_chars(base: Seq<char>, page: Seq<char>, per_page: Seq<char>) -> Seq<
    char,
>;

/// Relies on `url::Url::parse_with_params` (and `Url::as_str`): parsing an
/// absolute URL and appending query pairs is deterministic in its inputs;
/// when the base URL does not parse, nothing is returned.
#[verifier::external_body]
fn parse_with_pagination(base: &str, page: &str, per_page: &str) -> (r: Option<String>)
    ensures
        r matches Some(s) ==> s@ == paged_url_chars(base@, page@, per_page@),
{
    let params = [("page", page), ("per_page", per_page)];
    match url::Url::parse_with_params(base, params) {
        Ok(u) => Some(u.as_str().to_string()),
        Err(_) => None,
    }
}

impl PagedEndpoint {
    /// Steps the endpoint to the next page of the listing.
    pub fn advance(&mut self)
        requires
            old(self).page < u32::MAX,
        ensures
            final(self).page == old(self).page + 1,
            final(self).base_url == old(self).base_url,
    {
        self.page += 1;
    }
}

impl Endpoint for PagedEndpoint {
    /// A paged endpoint renders its base URL with the current page number
    /// and the batch size appended as query parameters; if the base URL
    /// cannot be parsed it falls back to the bare base URL, so that a fetch
    /// can still be attempted without paging.
    open spec fn url_ok(&self, url: Seq<char>) -> bool {
        ||| url == paged_url_chars(
            self.base_url@,
            dec_chars(self.page as nat),
            dec_chars(RECORDS_PER_PAGE as nat),
        )
        ||| url == self.base_url@
    }

    fn url(&self) -> (r: String) {
        let page = u64_to_string(self.page as u64);
        let per_page = u64_to_string(RECORDS_PER_PAGE);
        match parse_with_pagination(self.base_url.as_str(), page.as_str(), per_page.as_str()) {
            Some(u) => u,
            None => self.base_url.clone(),
        }
    }
}

} // verus!
