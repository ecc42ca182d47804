//! Why a request could not be parsed.

use vstd::prelude::*;

verus! {

/// A parse failure. Each one ends the connection with a client error; the
/// parser does not try to recover.
#[derive(Clone, Copy, Debug, PartialEq, Eq, Structural)]
pub enum ParseError {
    /// The request line does not have exactly three space-separated fields,
    /// or its target is not UTF-8.
    MalformedRequestLine,
    /// The method is not one of the nine that HTTP/1.1 defines.
    UnsupportedMethod,
    /// The version is not HTTP/1.0, HTTP/1.1 or HTTP/2.0.
    UnsupportedVersion,
    /// A header line has no `:`, or its value is not UTF-8.
    MalformedHeaderLine,
    /// A header name is empty or holds a character outside the token class.
    InvalidHeaderKey,
    /// The byte source ended before the request was complete.
    TruncatedMessage,
}

} // verus!
