//! Error taxonomy: header-parse failures and multi-page fetch failures.

use vstd::prelude::*;

verus! {

/// Why a `Link` header value was rejected. A header is either parsed in
/// full or rejected with the error of its first unparseable item; no
/// partial header is ever produced.
#[derive(Clone, Copy, Debug, PartialEq, Eq, Structural)]
pub enum ParseError {
    /// An item carried no angle-bracket-delimited URL.
    MalformedLink,
    /// An item carried a URL but no `rel` attribute.
    MissingRelation,
}

/// Why a (possibly multi-page) fetch was aborted. Any of these is fatal
/// to the whole fetch: no partial result list is ever returned.
#[derive(Clone, Copy, Debug, PartialEq, Eq, Structural)]
pub enum FetchError {
    /// The transport layer failed (connection, protocol, invalid URL).
    Transport,
    /// The server answered with a failure status code.
    HttpStatus(u16),
    /// A `Link` header was present but could not be parsed.
    BadPagination,
    /// A page body could not be decoded into the expected items.
    BadPayload,
}

} // verus!
