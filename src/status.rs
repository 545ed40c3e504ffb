//! Status codes.

use crate::error::{Error, InvalidResponse};
use vstd::prelude::*;

verus! {

/// The smallest status code taken.
pub const MIN_STATUS: u16 = 100;

/// The largest status code taken.
pub const MAX_STATUS: u16 = 599;

/// An ASCII digit.
pub open spec fn is_digit(b: u8) -> bool {
    0x30 <= b <= 0x39
}

/// The number that three ASCII digits spell, the first of them not zero.
pub open spec fn three_digit_code(s: Seq<u8>) -> Option<u16> {
    if s.len() == 3 && is_digit(s[0]) && s[0] != 0x30 && is_digit(s[1]) && is_digit(s[2]) {
        Some(((s[0] - 0x30) * 100 + (s[1] - 0x30) * 10 + (s[2] - 0x30)) as u16)
    } else {
        None
    }
}

/// The status code that a token of a status line gives: three digits that
/// spell a number from `MIN_STATUS` to `MAX_STATUS`.
pub open spec fn status_code_of(token: Seq<u8>) -> Option<u16> {
    match three_digit_code(token) {
        Some(c) => if c <= MAX_STATUS {
            Some(c)
        } else {
            None
        },
        None => None,
    }
}

/// Relies on `http::StatusCode::from_bytes`: it accepts exactly three ASCII
/// digits, the first of them not zero, and its code (`StatusCode::as_u16`) is
/// the number they spell.
#[verifier::external_body]
fn status_from_bytes(b: &[u8]) -> (r: Result<u16, http::status::InvalidStatusCode>)
    ensures
        match three_digit_code(b@) {
            Some(c) => r == Ok::<u16, http::status::InvalidStatusCode>(c),
            None => r is Err,
        },
{
    match http::StatusCode::from_bytes(b) {
        Ok(s) => Ok(s.as_u16()),
        Err(e) => Err(e),
    }
}

/// The status code of a response: a number from `MIN_STATUS` to `MAX_STATUS`.
#[derive(Clone, Copy, Debug, PartialEq, Eq, Structural)]
pub struct StatusCode {
    code: u16,
}

impl View for StatusCode {
    type V = u16;

    closed spec fn view(&self) -> u16 {
        self.code
    }
}

impl StatusCode {
    /// Codes stay in their range.
    #[verifier::type_invariant]
    spec fn in_range(self) -> bool {
        MIN_STATUS <= self.code <= MAX_STATUS
    }

    /// Reads the status code token of a status line.
    pub fn from_token(token: &[u8]) -> (r: Result<StatusCode, Error>)
        ensures
            match status_code_of(token@) {
                Some(c) => r matches Ok(s) && s@ == c,
                None => r matches Err(Error::InvalidResponse(InvalidResponse::StatusCode)),
            },
    {
        match status_from_bytes(token) {
            Ok(c) => {
                if c <= MAX_STATUS {
                    proof {
                        assert(c >= MIN_STATUS);
                    }
                    Ok(StatusCode { code: c })
                } else {
                    Err(Error::InvalidResponse(InvalidResponse::StatusCode))
                }
            },
            Err(_) => Err(Error::InvalidResponse(InvalidResponse::StatusCode)),
        }
    }

    /// The code as a number.
    pub fn as_u16(&self) -> (r: u16)
        ensures
            r == self@,
            MIN_STATUS <= r <= MAX_STATUS,
    {
        proof {
            use_type_invariant(self);
        }
        self.code
    }

    /// A code from 100 to 199.
    pub fn is_informational(&self) -> (r: bool)
        ensures
            r == (100 <= self@ < 200),
    {
        100 <= self.code && self.code < 200
    }

    /// A code from 200 to 299.
    pub fn is_success(&self) -> (r: bool)
        ensures
            r == (200 <= self@ < 300),
    {
        200 <= self.code && self.code < 300
    }

    /// A code from 300 to 399.
    pub fn is_redirection(&self) -> (r: bool)
        ensures
            r == (300 <= self@ < 400),
    {
        300 <= self.code && self.code < 400
    }

    /// A code from 400 to 499.
    pub fn is_client_error(&self) -> (r: bool)
        ensures
            r == (400 <= self@ < 500),
    {
        400 <= self.code && self.code < 500
    }

    /// A code from 500 to 599.
    pub fn is_server_error(&self) -> (r: bool)
        ensures
            r == (500 <= self@ < 600),
    {
        500 <= self.code && self.code < 600
    }
}

} // verus!
