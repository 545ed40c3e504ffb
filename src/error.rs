//! The ways in which reading a response head fails.

use vstd::prelude::*;

verus! {

/// A header name that http refuses.
#[verifier::external_type_specification]
#[verifier::external_body]
pub struct ExInvalidHeaderName(http::header::InvalidHeaderName);

/// A header value that http refuses.
#[verifier::external_type_specification]
#[verifier::external_body]
pub struct ExInvalidHeaderValue(http::header::InvalidHeaderValue);

/// A status code that http refuses.
#[verifier::external_type_specification]
#[verifier::external_body]
pub struct ExInvalidStatusCode(http::status::InvalidStatusCode);

/// What is malformed in a response head.
#[derive(Clone, Copy, Debug, PartialEq, Eq, Structural)]
pub enum InvalidResponse {
    /// The status line holds fewer than two tokens.
    StatusLine,
    /// The second token of the status line is no status code.
    StatusCode,
    /// A header line holds no colon.
    HeaderWithoutColon,
}

impl InvalidResponse {
    /// A short description, fit for a log.
    pub fn message(&self) -> &'static str {
        match self {
            InvalidResponse::StatusLine => "invalid status line",
            InvalidResponse::StatusCode => "invalid status code",
            InvalidResponse::HeaderWithoutColon => "header has no colon",
        }
    }
}

/// The failure of a parse, with the validation error of http where there is one.
#[derive(Debug)]
pub enum Error {
    /// The head is malformed.
    InvalidResponse(InvalidResponse),
    /// A header name is no valid token.
    InvalidHeaderName(http::header::InvalidHeaderName),
    /// A header value holds a byte that a header value cannot hold.
    InvalidHeaderValue(http::header::InvalidHeaderValue),
    /// The input ended before the terminator of a line.
    UnexpectedEof,
}

/// The kind of a failure, as the model of a parse speaks of it.
#[derive(Clone, Copy, Debug, PartialEq, Eq, Structural)]
pub enum Failure {
    /// The head is malformed in the way given.
    InvalidResponse(InvalidResponse),
    /// A header name is no valid token.
    InvalidHeaderName,
    /// A header value holds a byte that a header value cannot hold.
    InvalidHeaderValue,
    /// The input ended before the terminator of a line.
    UnexpectedEof,
}

impl Error {
    /// The kind of this failure.
    pub open spec fn failure(&self) -> Failure {
        match self {
            Error::InvalidResponse(k) => Failure::InvalidResponse(*k),
            Error::InvalidHeaderName(_) => Failure::InvalidHeaderName,
            Error::InvalidHeaderValue(_) => Failure::InvalidHeaderValue,
            Error::UnexpectedEof => Failure::UnexpectedEof,
        }
    }

    /// The kind of this failure.
    pub fn kind(&self) -> (r: Failure)
        ensures
            r == self.failure(),
    {
        match self {
            Error::InvalidResponse(k) => Failure::InvalidResponse(*k),
            Error::InvalidHeaderName(_) => Failure::InvalidHeaderName,
            Error::InvalidHeaderValue(_) => Failure::InvalidHeaderValue,
            Error::UnexpectedEof => Failure::UnexpectedEof,
        }
    }

    /// Whether the head was malformed, as opposed to cut short.
    pub fn is_invalid_response(&self) -> (r: bool)
        ensures
            r == !(self.failure() is UnexpectedEof),
    {
        !matches!(self, Error::UnexpectedEof)
    }
}

} // verus!
