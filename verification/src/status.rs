//! HTTP status codes.
use crate::text::{decimal, decimal_digits};
use vstd::prelude::*;
use vstd::string::StringExecFns;

verus! {

/// The range of status codes that HTTP knows.
pub open spec fn valid_status(code: u16) -> bool {
    100 <= code <= 999
}

/// The standard phrase for a status code, as
/// `http::StatusCode::canonical_reason` has it; a code without one has none.
pub uninterp spec fn reason_phrase(code: u16) -> Option<Seq<char>>;

/// `http::StatusCode::from_u16` accepts the codes from 100 to 999 and keeps
/// the number.
#[verifier::external_body]
fn checked_code(code: u16) -> (r: Option<u16>)
    ensures
        r == (if valid_status(code) {
            Some(code)
        } else {
            None
        }),
{
    http::StatusCode::from_u16(code).ok().map(|s| s.as_u16())
}

/// `http::StatusCode::is_success` holds of the codes from 200 to 299.
#[verifier::external_body]
fn success_code(code: u16) -> (r: bool)
    requires
        valid_status(code),
    ensures
        r == (200 <= code <= 299),
{
    http::StatusCode::from_u16(code).unwrap().is_success()
}

/// `http::StatusCode::canonical_reason` looks the code up in a fixed table;
/// what the table holds for it is [`reason_phrase`].
#[verifier::external_body]
fn canonical_reason(code: u16) -> (r: Option<&'static str>)
    requires
        valid_status(code),
    ensures
        r is Some <==> reason_phrase(code) is Some,
        r matches Some(s) ==> s@ == reason_phrase(code)->0,
{
    http::StatusCode::from_u16(code).unwrap().canonical_reason()
}

/// A number was no status code.
#[derive(Debug, Clone, Copy)]
pub struct InvalidStatusCode {}

/// An HTTP status code.
#[derive(Debug, Clone, Copy, PartialEq, Eq, Structural)]
pub struct StatusCode {
    code: u16,
}

impl View for StatusCode {
    type V = u16;

    closed spec fn view(&self) -> u16 {
        self.code
    }
}

/// `code`, a space and the reason phrase, or a stand-in where there is none.
pub open spec fn status_text(code: u16, reason: Option<Seq<char>>) -> Seq<char> {
    decimal_digits(code as nat) + " "@ + match reason {
        Some(phrase) => phrase,
        None => "<unknown status code>"@,
    }
}

impl StatusCode {
    #[verifier::type_invariant]
    spec fn in_range(self) -> bool {
        valid_status(self.code)
    }

    /// The status code `code`, if it is one.
    pub fn from_u16(code: u16) -> (r: Result<StatusCode, InvalidStatusCode>)
        ensures
            r is Ok <==> valid_status(code),
            r is Ok <==> 100 <= code <= 999,
            r matches Ok(s) ==> s@ == code,
    {
        match checked_code(code) {
            Some(code) => Ok(StatusCode { code }),
            None => Err(InvalidStatusCode {  }),
        }
    }

    /// The number.
    pub fn as_u16(&self) -> (code: u16)
        ensures
            code == self@,
            valid_status(code),
    {
        proof {
            use_type_invariant(self);
        }
        self.code
    }

    /// Whether the code is between 200 and 299.
    pub fn is_success(&self) -> (r: bool)
        ensures
            r == (200 <= self@ <= 299),
    {
        success_code(self.as_u16())
    }

    /// Whether the code is between 100 and 199.
    pub fn is_informational(&self) -> (r: bool)
        ensures
            r == (100 <= self@ <= 199),
    {
        100 <= self.code && self.code < 200
    }

    /// Whether the code is between 300 and 399.
    pub fn is_redirection(&self) -> (r: bool)
        ensures
            r == (300 <= self@ <= 399),
    {
        300 <= self.code && self.code < 400
    }

    /// Whether the code is between 400 and 499.
    pub fn is_client_error(&self) -> (r: bool)
        ensures
            r == (400 <= self@ <= 499),
    {
        400 <= self.code && self.code < 500
    }

    /// Whether the code is between 500 and 599.
    pub fn is_server_error(&self) -> (r: bool)
        ensures
            r == (500 <= self@ <= 599),
    {
        500 <= self.code && self.code < 600
    }

    /// The code as text, where `reason` is its standard phrase.
    pub fn text_with(&self, reason: Option<&str>) -> (s: String)
        ensures
            s@ == status_text(
                self@,
                match reason {
                    Some(phrase) => Some(phrase@),
                    None => None,
                },
            ),
    {
        let mut s = decimal(self.code as u32);
        s.append(" ");
        match reason {
            Some(phrase) => s.append(phrase),
            None => s.append("<unknown status code>"),
        }
        s
    }

    /// The code and its standard phrase, as in `404 Not Found`.
    pub fn text(&self) -> (s: String)
        ensures
            s@ == status_text(self@, reason_phrase(self@)),
            s@ == decimal_digits(self@ as nat) + " "@ + (match reason_phrase(self@) {
                Some(phrase) => phrase,
                None => "<unknown status code>"@,
            }),
    {
        self.text_with(canonical_reason(self.as_u16()))
    }
}

} // verus!
