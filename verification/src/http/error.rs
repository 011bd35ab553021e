//! Error type for Host-header extraction.

use vstd::prelude::*;

verus! {

/// Why a Host header could not be extracted from a request.
#[derive(Debug, Clone)]
pub enum HttpError {
    /// The request line or headers are not HTTP.
    InvalidRequest(String),
    /// No Host header is present.
    HostNotFound,
    /// A Host header is present but carries no usable value.
    MalformedHost(String),
    /// The hostname a rule refused.
    DomainNotAllowed(String),
    /// The header bytes are not plain ASCII text.
    Utf8Error,
}

} // verus!
