use vstd::prelude::*;

verus! {

/// Errors surfaced by the traversal engine while expanding a node.
///
/// A value of this type is produced by a [`StorkClient`](crate::StorkClient)
/// when fetching or decoding the successors of an item fails; the engine
/// itself never fabricates one.  The failing expansion ends with the error as
/// its final element and sibling branches are unaffected.
#[derive(Clone, Copy, Debug, PartialEq, Eq, Structural)]
pub enum StorkError {
    /// A discovered reference could not be parsed or resolved as a locator.
    UrlParseError,
    /// A fetched payload could not be parsed as a document.
    HtmlParseError,
    /// The transport-level fetch itself failed.
    HttpError,
}

/// Errors of the HTTP/HTML instantiation: building locators and links.
#[derive(Clone, Copy, Debug, PartialEq, Eq, Structural)]
pub enum StorkHttpError {
    /// The input string is not an absolute locator, or resolution failed.
    UrlParseError,
    /// A fetched payload could not be parsed as a document.
    HtmlParseError,
    /// The transport-level fetch itself failed.
    HttpError,
}

/// How an HTTP-side error is reported through the engine's error type.
pub open spec fn http_error_as_stork(e: StorkHttpError) -> StorkError {
    match e {
        StorkHttpError::UrlParseError => StorkError::UrlParseError,
        StorkHttpError::HtmlParseError => StorkError::HtmlParseError,
        StorkHttpError::HttpError => StorkError::HttpError,
    }
}

impl StorkHttpError {
    /// Report this HTTP-side error as the engine's error type.
    pub fn into_stork_error(self) -> (r: StorkError)
        ensures
            r == http_error_as_stork(self),
    {
        match self {
            StorkHttpError::UrlParseError => StorkError::UrlParseError,
            StorkHttpError::HtmlParseError => StorkError::HtmlParseError,
            StorkHttpError::HttpError => StorkError::HttpError,
        }
    }
}

} // verus!
