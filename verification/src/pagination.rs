//! Cursor-style pagination, as a state machine the I/O front end drives.
//!
//! The front end issues one HTTP GET per pending URL and hands the response
//! back as `on_page`: the raw `Link` header, if any, and the page's decoded
//! items. All decisions — parse the header, follow the `next` relation or
//! stop, accumulate this page's items in arrival order, or abort — are made
//! and verified here. A fetch is strictly sequential: there is exactly one
//! pending URL at a time, or none once the last page was seen.
//!
//! Known limitation: the server's pagination metadata is trusted. A cursor
//! cycle — a `next` relation pointing at a URL already visited — is not
//! detected, so a misbehaving server can keep a fetch going indefinitely.

use vstd::prelude::*;

use crate::errors::FetchError;
use crate::link::{spec_find_rel, spec_parse_header, LinkHeader};

verus! {

/// The accumulator and cursor of one multi-page fetch.
pub struct Paginator<T> {
    results: Vec<T>,
    next_url: Option<String>,
    pages: usize,
}

impl<T> Paginator<T> {
    /// The items accumulated so far, pages in arrival order and each page's
    /// internal order preserved.
    pub closed spec fn spec_results(&self) -> Seq<T> {
        self.results@
    }

    /// The URL of the pending request, or `None` once the fetch is over.
    pub closed spec fn spec_next_url(&self) -> Option<Seq<char>> {
        match self.next_url {
            Some(u) => Some(u@),
            None => None,
        }
    }

    /// How many responses were consumed — with one GET per pending URL,
    /// exactly the number of requests issued.
    pub closed spec fn spec_pages(&self) -> int {
        self.pages as int
    }

    /// Starts a fetch: nothing accumulated, the first request pending.
    pub fn begin(start_url: String) -> (p: Self)
        ensures
            p.spec_results() == Seq::<T>::empty(),
            p.spec_next_url() == Some(start_url@),
            p.spec_pages() == 0,
    {
        Paginator { results: Vec::new(), next_url: Some(start_url), pages: 0 }
    }

    /// The URL the front end must GET next, or `None` when the fetch is over.
    pub fn current_url(&self) -> (r: Option<&String>)
        ensures
            match r {
                Some(u) => self.spec_next_url() == Some(u@),
                None => self.spec_next_url() is None,
            },
    {
        self.next_url.as_ref()
    }

    /// Whether the fetch is over (successfully or not): no request pending.
    pub fn is_done(&self) -> (r: bool)
        ensures
            r == (self.spec_next_url() is None),
    {
        self.next_url.is_none()
    }

    /// How many responses were consumed so far.
    pub fn pages(&self) -> (r: usize)
        ensures
            r as int == self.spec_pages(),
    {
        self.pages
    }

    /// Consumes one response: the raw `Link` header, if the response carried
    /// one, and the page's decoded items.
    ///
    /// An absent header means this was the final page: its items are
    /// appended and the fetch ends. A present header must parse in full, or
    /// the fetch aborts with `BadPagination`, keeping no partial results
    /// from this page. A parsed header's first `next` relation, if any,
    /// becomes the pending URL; without one, this page's items are still
    /// appended and the fetch ends.
    pub fn on_page(&mut self, link_header: Option<&str>, items: Vec<T>) -> (r: Result<
        (),
        FetchError,
    >)
        requires
            old(self).spec_next_url() is Some,
            old(self).spec_pages() < usize::MAX,
        ensures
            final(self).spec_pages() == old(self).spec_pages() + 1,
            match r {
                Ok(u) => ({
                    &&& final(self).spec_results() == old(self).spec_results() + items@
                    &&& match link_header {
                        None => final(self).spec_next_url() is None,
                        Some(h) => {
                            &&& spec_parse_header(h@) is Ok
                            &&& final(self).spec_next_url() == (match spec_find_rel(
                                spec_parse_header(h@)->Ok_0,
                                "next"@,
                            ) {
                                Some(it) => Some(it.0),
                                None => None::<Seq<char>>,
                            })
                        },
                    }
                }),
                Err(e) => ({
                    &&& e == FetchError::BadPagination
                    &&& link_header matches Some(h) && spec_parse_header(h@) is Err
                    &&& final(self).spec_results() == old(self).spec_results()
                    &&& final(self).spec_next_url() is None
                }),
            },
    {
        self.pages = self.pages + 1;
        let mut page_items = items;
        match link_header {
            None => {
                self.next_url = None;
                self.results.append(&mut page_items);
                Ok(())
            },
            Some(h) => match LinkHeader::create(h) {
                Err(_) => {
                    self.next_url = None;
                    Err(FetchError::BadPagination)
                },
                Ok(parsed) => {
                    match parsed.find_rel("next") {
                        Some(item) => {
                            self.next_url = Some(item.url.clone());
                        },
                        None => {
                            self.next_url = None;
                        },
                    }
                    self.results.append(&mut page_items);
                    Ok(())
                },
            },
        }
    }

    /// Hands the accumulated items out, once no request is pending.
    pub fn into_results(self) -> (r: Vec<T>)
        requires
            self.spec_next_url() is None,
        ensures
            r@ == self.spec_results(),
    {
        self.results
    }
}

} // verus!
