//! The status of a response: a three-digit code, with the digits and the
//! reason phrase that go on the status line.

use vstd::prelude::*;
use vstd::string::StringExecFns;
use crate::text::decimal;

verus! {

/// The reason phrase that `http` knows for the status code `code`, if it
/// knows one.
pub uninterp spec fn canonical_reason(code: u16) -> Option<Seq<char>>;

/// What stands for the reason phrase of a code that has none.
pub open spec fn unknown_reason() -> Seq<char> {
    "UNKNOWN"@
}

/// The reason phrase on the status line for `code`.
pub open spec fn reason_of(code: u16) -> Seq<char> {
    match canonical_reason(code) {
        Some(phrase) => phrase,
        None => unknown_reason(),
    }
}

/// Calls `http::StatusCode::canonical_reason` on the status code with the
/// number `code`. The contract gives the phrase a name and claims no more
/// than that the phrase depends on the number alone.
#[verifier::external_body]
fn canonical_reason_phrase(code: u16) -> (r: Option<String>)
    requires
        100 <= code <= 999,
    ensures
        match r {
            Some(phrase) => canonical_reason(code) == Some(phrase@),
            None => canonical_reason(code) is None,
        },
{
    match http::StatusCode::from_u16(code) {
        Ok(status) => status.canonical_reason().map(String::from),
        Err(_) => None,
    }
}

/// Calls `http::StatusCode::as_str` on the status code with the number
/// `code`. The contract claims that the result is the number in decimal,
/// which for a number from 100 to 999 is its three digits.
#[verifier::external_body]
fn code_digits(code: u16) -> (r: String)
    requires
        100 <= code <= 999,
    ensures
        r@ == decimal(code as nat),
{
    match http::StatusCode::from_u16(code) {
        Ok(status) => String::from(status.as_str()),
        Err(_) => String::new(),
    }
}

/// The status of a response. Its view is its number.
#[derive(Clone, Copy, Debug)]
pub struct Status {
    code: u16,
}

impl View for Status {
    type V = u16;

    /// The number of the status.
    closed spec fn view(&self) -> u16 {
        self.code
    }
}

impl Status {
    /// A status is a number from 100 to 999.
    pub open spec fn wf(&self) -> bool {
        100 <= self@ <= 999
    }

    /// The status with the number `code`, where there is one.
    pub fn from_u16(code: u16) -> (r: Option<Status>)
        ensures
            match r {
                Some(status) => 100 <= code <= 999 && status@ == code && status.wf(),
                None => !(100 <= code <= 999),
            },
    {
        if 100 <= code && code <= 999 {
            Some(Status { code })
        } else {
            None
        }
    }

    /// The number of the status.
    pub fn as_u16(&self) -> (code: u16)
        ensures
            code == self@,
    {
        self.code
    }

    /// 200 OK.
    pub fn ok() -> (s: Status)
        ensures
            s@ == 200,
            s.wf(),
    {
        Status { code: 200 }
    }

    /// 400 Bad Request.
    pub fn bad_request() -> (s: Status)
        ensures
            s@ == 400,
            s.wf(),
    {
        Status { code: 400 }
    }

    /// 404 Not Found.
    pub fn not_found() -> (s: Status)
        ensures
            s@ == 404,
            s.wf(),
    {
        Status { code: 404 }
    }

    /// 405 Method Not Allowed.
    pub fn method_not_allowed() -> (s: Status)
        ensures
            s@ == 405,
            s.wf(),
    {
        Status { code: 405 }
    }

    /// 500 Internal Server Error.
    pub fn internal_server_error() -> (s: Status)
        ensures
            s@ == 500,
            s.wf(),
    {
        Status { code: 500 }
    }

    /// 503 Service Unavailable.
    pub fn service_unavailable() -> (s: Status)
        ensures
            s@ == 503,
            s.wf(),
    {
        Status { code: 503 }
    }

    /// The digits of the status, as they stand on the status line.
    pub fn digits(&self) -> (r: String)
        requires
            self.wf(),
        ensures
            r@ == decimal(self@ as nat),
    {
        code_digits(self.code)
    }

    /// The reason phrase of the status, as it stands on the status line.
    pub fn reason(&self) -> (r: String)
        requires
            self.wf(),
        ensures
            r@ == reason_of(self@),
    {
        Status::reason_from(canonical_reason_phrase(self.code))
    }

    /// The reason phrase to write, given the phrase that is known for the
    /// status, if any.
    pub fn reason_from(known: Option<String>) -> (r: String)
        ensures
            r@ == match known {
                Some(phrase) => phrase@,
                None => unknown_reason(),
            },
    {
        match known {
            Some(phrase) => phrase,
            None => String::from_str("UNKNOWN"),
        }
    }
}

} // verus!
