//! The defects in data that end a call, as opposed to failures of the
//! transport.

use vstd::prelude::*;

verus! {

/// A defect in the request or in what the server sent. None of these is a
/// transport failure; a caller that cannot go on without the data treats
/// them as fatal.
#[derive(Clone, Copy, Debug, PartialEq, Eq, Structural)]
pub enum Fault {
    /// The URL of a `GET` request does not parse, or is too long to be
    /// merged with the parameters.
    Url,
    /// A header name of the request cannot be sent.
    HeaderName,
    /// A header value of the request cannot be sent.
    HeaderValue,
    /// A header value of the response is not UTF-8 text.
    ResponseHeader,
    /// The body of the response is not a JSON document.
    ResponseBody,
}

impl Fault {
    /// A short description of the defect.
    pub fn describe(self) -> (text: &'static str)
        ensures
            text@ == (match self {
                Fault::Url => "malformed request URL"@,
                Fault::HeaderName => "invalid request header name"@,
                Fault::HeaderValue => "invalid request header value"@,
                Fault::ResponseHeader => "response header value is not UTF-8"@,
                Fault::ResponseBody => "response body is not JSON"@,
            }),
    {
        match self {
            Fault::Url => "malformed request URL",
            Fault::HeaderName => "invalid request header name",
            Fault::HeaderValue => "invalid request header value",
            Fault::ResponseHeader => "response header value is not UTF-8",
            Fault::ResponseBody => "response body is not JSON",
        }
    }
}

} // verus!
