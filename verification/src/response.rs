//! What a call ends in: a `Response` where the server answered, an `Error`
//! where the transport failed.

use crate::fault::Fault;
use crate::mapping::{as_map, collected, distinct_keys, has_key, Mapping, Pair};
use crate::mapping::{lemma_as_map_keys, lemma_as_map_values, lemma_collected, lemma_collected_distinct};
use crate::mapping::lemma_last_value;
use crate::wire::{json_document, parse_json, utf8_text};
use vstd::utf8::{decode_utf8, valid_utf8};
use serde_json::Value;
use vstd::prelude::*;

verus! {

/// What the transport received from the server: the status code, the
/// headers in the order received, each value as the bytes that came, and the
/// whole body as text.
#[derive(Debug)]
pub struct Reply {
    pub status: u16,
    pub headers: Vec<(String, Vec<u8>)>,
    pub body: String,
}

/// How the transport's attempt ended: the server answered, or the attempt
/// failed with whatever status code and URL the transport could attribute
/// to the failure.
#[derive(Debug)]
pub enum Outcome {
    Replied(Reply),
    Failed { status: Option<u16>, url: Option<String> },
}

/// What a response holds, as contracts see it.
pub struct ResponseView {
    pub status: u16,
    pub headers: Seq<Pair>,
    pub body: Value,
}

/// What an error holds, as contracts see it.
pub struct ErrorView {
    pub status: Option<u16>,
    pub url: Option<Seq<char>>,
}

impl Reply {
    /// Whether every header value is text, that is, well-formed UTF-8.
    pub open spec fn headers_are_text(&self) -> bool {
        forall|i: int|
            0 <= i < self.headers@.len() ==> valid_utf8((#[trigger] self.headers@[i]).1@)
    }

    /// The headers as pairs of texts: names as received, values decoded
    /// from UTF-8.
    pub open spec fn header_pairs(&self) -> Seq<Pair> {
        Seq::new(
            self.headers@.len(),
            |i: int| (self.headers@[i].0@, decode_utf8(self.headers@[i].1@)),
        )
    }

    /// What keeps the reply from becoming a response, if anything does:
    /// first a header value that is not UTF-8, then a body that is not JSON.
    pub open spec fn fault(&self) -> Option<Fault> {
        if !self.headers_are_text() {
            Some(Fault::ResponseHeader)
        } else if json_document(self.body@) is None {
            Some(Fault::ResponseBody)
        } else {
            None
        }
    }

    /// The response that the reply becomes: the same status, the headers
    /// collected into a mapping (of a name that came more than once the
    /// last value), and the parsed body.
    pub open spec fn response(&self) -> ResponseView {
        ResponseView {
            status: self.status,
            headers: collected(self.header_pairs()),
            body: json_document(self.body@)->0,
        }
    }
}

/// The result of a call that the server answered.
#[derive(Debug)]
pub struct Response {
    status: u16,
    headers: Mapping,
    body: Value,
}

impl View for Response {
    type V = ResponseView;

    closed spec fn view(&self) -> ResponseView {
        ResponseView { status: self.status, headers: self.headers.pairs(), body: self.body }
    }
}

impl Response {
    /// A response with the given parts.
    pub fn new(status: u16, headers: Mapping, body: Value) -> (response: Response)
        ensures
            response@.status == status,
            response@.headers == headers.pairs(),
            response@.body == body,
    {
        Response { status, headers, body }
    }

    /// The status code.
    pub fn status(&self) -> (status: u16)
        ensures
            status == self@.status,
    {
        self.status
    }

    /// The headers, under the names the server sent.
    pub fn headers(&self) -> (headers: &Mapping)
        ensures
            headers.pairs() == self@.headers,
    {
        &self.headers
    }

    /// The parsed body.
    pub fn body(&self) -> (body: &Value)
        ensures
            *body == self@.body,
    {
        &self.body
    }

    /// Turns what the server sent into a response: the status is copied,
    /// every header is kept under its name with its value read as UTF-8
    /// text, and the body is parsed as JSON. A header value that is not
    /// UTF-8, or a body that is not a JSON document, is a fault.
    pub fn from_reply(reply: &Reply) -> (decoded: Result<Response, Fault>)
        ensures
            match decoded {
                Ok(response) => reply.fault() is None && response@ == reply.response(),
                Err(fault) => reply.fault() == Some(fault),
            },
    {
        let mut headers = Mapping::new();
        let mut i: usize = 0;
        while i < reply.headers.len()
            invariant
                i <= reply.headers.len(),
                forall|j: int| 0 <= j < i ==> valid_utf8((#[trigger] reply.headers@[j]).1@),
                headers.pairs() == collected(reply.header_pairs().take(i as int)),
            decreases reply.headers.len() - i,
        {
            let ghost seen = reply.header_pairs().take(i as int + 1);
            assert(seen.drop_last() =~= reply.header_pairs().take(i as int));
            let bytes = reply.headers[i].1.clone();
            assert(bytes@ =~= reply.headers@[i as int].1@);
            match utf8_text(bytes) {
                Some(value) => {
                    headers.insert(reply.headers[i].0.clone(), value);
                },
                None => {
                    return Err(Fault::ResponseHeader);
                },
            }
            i += 1;
        }
        assert(reply.header_pairs().take(i as int) =~= reply.header_pairs());
        match parse_json(reply.body.as_str()) {
            Some(body) => Ok(Response::new(reply.status, headers, body)),
            None => Err(Fault::ResponseBody),
        }
    }
}

/// The result of a call that the transport could not complete.
#[derive(Debug)]
pub struct Error {
    status: Option<u16>,
    url: Option<String>,
}

impl View for Error {
    type V = ErrorView;

    closed spec fn view(&self) -> ErrorView {
        ErrorView {
            status: self.status,
            url: match self.url {
                Some(text) => Some(text@),
                None => None,
            },
        }
    }
}

impl Error {
    /// An error with the status code and the URL that the transport could
    /// attribute to the failure. Either may be absent, whatever the other.
    pub fn new(status: Option<u16>, url: Option<String>) -> (error: Error)
        ensures
            error@.status == status,
            error@.url == (match url {
                Some(text) => Some(text@),
                None => None,
            }),
    {
        Error { status, url }
    }

    /// The status code, if the failure came with one.
    pub fn status(&self) -> (status: Option<u16>)
        ensures
            status == self@.status,
    {
        self.status
    }

    /// The URL that the failure is about, if the transport could tell.
    pub fn url(&self) -> (url: &Option<String>)
        ensures
            self@.url == (match *url {
                Some(text) => Some(text@),
                None => None,
            }),
    {
        &self.url
    }
}

/// Concludes a call from how the transport's attempt ended. An answer from
/// the server, whatever its status code, becomes a `Response`, unless what
/// was sent is faulty; a failed attempt becomes an `Error` and never a
/// `Response`.
pub fn settle(outcome: &Outcome) -> (settled: Result<Result<Response, Error>, Fault>)
    ensures
        match *outcome {
            Outcome::Replied(reply) => match settled {
                Ok(Ok(response)) => reply.fault() is None && response@ == reply.response(),
                Ok(Err(_)) => false,
                Err(fault) => reply.fault() == Some(fault),
            },
            Outcome::Failed { status, url } => match settled {
                Ok(Err(error)) => error@.status == status && error@.url == (match url {
                    Some(text) => Some(text@),
                    None => None,
                }),
                _ => false,
            },
        },
{
    match outcome {
        Outcome::Replied(reply) => match Response::from_reply(reply) {
            Ok(response) => Ok(Ok(response)),
            Err(fault) => Err(fault),
        },
        Outcome::Failed { status, url } => Ok(Err(Error::new(*status, url.clone()))),
    }
}

/// A response holds every header that the server sent, by name, and under
/// each name a value that the server sent under it, unchanged. Where no name
/// came twice, it holds the headers as they came, each value under its name.
pub proof fn lemma_response_holds_every_header(reply: Reply)
    ensures
        forall|i: int|
            0 <= i < reply.headers@.len() ==> as_map(reply.response().headers).contains_key(
                (#[trigger] reply.headers@[i]).0@,
            ),
        forall|name: Seq<char>| #[trigger]
            as_map(reply.response().headers).contains_key(name) ==> exists|i: int|
                0 <= i < reply.headers@.len() && (#[trigger] reply.headers@[i]).0@ == name
                    && decode_utf8(reply.headers@[i].1@) == as_map(reply.response().headers)[name],
        distinct_keys(reply.header_pairs()) ==> reply.response().headers == reply.header_pairs(),
        distinct_keys(reply.header_pairs()) ==> forall|i: int|
            0 <= i < reply.headers@.len() ==> as_map(reply.response().headers)[(
            #[trigger] reply.headers@[i]).0@] == decode_utf8(reply.headers@[i].1@),
{
    let pairs = reply.header_pairs();
    lemma_collected(pairs);
    lemma_as_map_keys(pairs);
    lemma_last_value(pairs);
    assert forall|i: int| 0 <= i < reply.headers@.len() implies as_map(
        reply.response().headers,
    ).contains_key((#[trigger] reply.headers@[i]).0@) by {
        assert(pairs[i].0 == reply.headers@[i].0@);
        assert(has_key(pairs, reply.headers@[i].0@));
    }
    assert forall|name: Seq<char>| #[trigger]
        as_map(reply.response().headers).contains_key(name) implies exists|i: int|
        0 <= i < reply.headers@.len() && (#[trigger] reply.headers@[i]).0@ == name && decode_utf8(
            reply.headers@[i].1@,
        ) == as_map(reply.response().headers)[name] by {
        let i = choose|i: int|
            0 <= i < pairs.len() && (#[trigger] pairs[i]).0 == name && pairs[i].1 == as_map(
                pairs,
            )[name];
        assert(reply.headers@[i].0@ == name && decode_utf8(reply.headers@[i].1@) == as_map(
            pairs,
        )[name]);
    }
    if distinct_keys(pairs) {
        lemma_collected_distinct(pairs);
        lemma_as_map_values(pairs);
        assert forall|i: int| 0 <= i < reply.headers@.len() implies as_map(
            reply.response().headers,
        )[(#[trigger] reply.headers@[i]).0@] == decode_utf8(reply.headers@[i].1@) by {
            assert(pairs[i] == (reply.headers@[i].0@, decode_utf8(reply.headers@[i].1@)));
            assert(as_map(pairs)[pairs[i].0] == pairs[i].1);
        }
    }
}

/// Replies with the same status and the same body become responses with the
/// same status and the same body, whatever their headers are: where the
/// header values of both are UTF-8, both are faulty or neither is, and the
/// responses agree in status and body.
pub proof fn lemma_same_reply_same_response(first: Reply, second: Reply)
    requires
        first.status == second.status,
        first.body@ == second.body@,
        first.headers_are_text(),
        second.headers_are_text(),
    ensures
        first.fault() == second.fault(),
        first.response().status == second.response().status,
        first.response().body == second.response().body,
{
}

} // verus!
