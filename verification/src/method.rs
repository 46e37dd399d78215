use vstd::prelude::*;

verus! {

/// The HTTP methods a request can use.
#[derive(Clone, Copy, Debug, PartialEq, Eq, Structural)]
pub enum RequestMethod {
    GET,
    POST,
}

impl RequestMethod {
    /// Whether the query parameters of a request with this method are merged
    /// into the URL. Only `GET` does so.
    pub open spec fn merges_params(self) -> bool {
        self == RequestMethod::GET
    }

    /// The method's name as it appears on the request line.
    pub fn name(self) -> (name: &'static str)
        ensures
            name@ == (match self {
                RequestMethod::GET => "GET"@,
                RequestMethod::POST => "POST"@,
            }),
    {
        match self {
            RequestMethod::GET => "GET",
            RequestMethod::POST => "POST",
        }
    }
}

} // verus!
