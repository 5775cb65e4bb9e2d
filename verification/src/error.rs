//! The error type of the library's fallible operations.
use vstd::prelude::*;

verus! {

/// What went wrong in a fallible operation.
#[derive(Debug)]
pub enum ScraperError {
    /// The HTTP request failed; the text says how.
    Network(String),
    /// The response arrived, but its HTML or JSON was not laid out as expected.
    ParseError,
    /// The app is unknown to the Play Store, or the store refused the request.
    NotFound,
}

} // verus!
