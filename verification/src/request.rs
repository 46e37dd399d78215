//! The description of one HTTP call, and the call a transport makes for it.

use crate::casing::{kebab_case, kebab_form, normalized, stored_from, to_kebab, with_kebab_keys};
use crate::casing::{lemma_normalized_keys, lemma_normalized_values};
use crate::fault::Fault;
use crate::mapping::{collected, has_key, pairs_of, Mapping, Pair};
use crate::method::RequestMethod;
use crate::measure::{byte_len, pairs_byte_len, within_bytes, MAX_QUERY_BYTES};
use crate::wire::{accepts_header_name, accepts_header_value, merge_query};
use crate::wire::{header_name_accepted, header_value_accepted, url_with_query};
use vstd::prelude::*;

verus! {

/// What a request holds, as contracts see it.
pub struct RequestView {
    pub body: Option<Seq<char>>,
    pub headers: Seq<Pair>,
    pub method: RequestMethod,
    pub url: Seq<char>,
    pub params: Seq<Pair>,
}

impl RequestView {
    /// The request that is built from the given parts: the header names in
    /// kebab-case, everything else as given.
    pub open spec fn built(
        body: Option<Seq<char>>,
        headers: Seq<Pair>,
        method: RequestMethod,
        url: Seq<char>,
        params: Seq<Pair>,
    ) -> RequestView {
        RequestView { body, headers: normalized(headers), method, url, params }
    }

    /// The URL that the call goes to. A `GET` merges the query parameters
    /// into the URL, which therefore has to parse and, with the parameters,
    /// to stay within `MAX_QUERY_BYTES`; any other method takes the URL as
    /// it is and leaves the parameters out.
    pub open spec fn target(self) -> Option<Seq<char>> {
        if self.method.merges_params() {
            if byte_len(self.url) + pairs_byte_len(self.params) <= MAX_QUERY_BYTES {
                url_with_query(self.url, self.params)
            } else {
                None
            }
        } else {
            Some(self.url)
        }
    }

    /// Whether every header name can be sent.
    pub open spec fn names_accepted(self) -> bool {
        forall|i: int|
            0 <= i < self.headers.len() ==> header_name_accepted((#[trigger] self.headers[i]).0)
    }

    /// Whether every header value can be sent.
    pub open spec fn values_accepted(self) -> bool {
        forall|i: int|
            0 <= i < self.headers.len() ==> header_value_accepted((#[trigger] self.headers[i]).1)
    }

    /// The payload that the call carries: the body, unless the method is
    /// `GET`, for which a body has no meaning.
    pub open spec fn payload(self) -> Option<Seq<char>> {
        if self.method == RequestMethod::GET {
            None
        } else {
            self.body
        }
    }

    /// The call that is made for the request where nothing keeps it from
    /// being sent: the same method, the target URL, every header as stored
    /// and in the stored order, and the payload.
    pub open spec fn call(self) -> OutboundView {
        OutboundView {
            method: self.method,
            url: self.target()->0,
            headers: self.headers,
            body: self.payload(),
        }
    }

    /// What keeps the request from being sent, if anything does: first an
    /// unusable URL, then a header name, then a header value.
    pub open spec fn fault(self) -> Option<Fault> {
        if self.target() is None {
            Some(Fault::Url)
        } else if !self.names_accepted() {
            Some(Fault::HeaderName)
        } else if !self.values_accepted() {
            Some(Fault::HeaderValue)
        } else {
            None
        }
    }
}

/// The call that a transport has to make for a request: the method, the URL
/// with its final query string, the headers to attach, name by name, and
/// the payload, if the call carries one.
#[derive(Debug)]
pub struct Outbound {
    pub method: RequestMethod,
    pub url: String,
    pub headers: Vec<(String, String)>,
    pub body: Option<String>,
}

/// What a call holds, as contracts see it.
pub struct OutboundView {
    pub method: RequestMethod,
    pub url: Seq<char>,
    pub headers: Seq<Pair>,
    pub body: Option<Seq<char>>,
}

impl View for Outbound {
    type V = OutboundView;

    open spec fn view(&self) -> OutboundView {
        OutboundView {
            method: self.method,
            url: self.url@,
            headers: pairs_of(self.headers@),
            body: match self.body {
                Some(text) => Some(text@),
                None => None,
            },
        }
    }
}

/// A fully specified description of one HTTP call. It is built once and
/// never changes. Its header names are always in kebab-case form.
#[derive(Debug)]
pub struct Request {
    body: Option<String>,
    headers: Mapping,
    method: RequestMethod,
    url: String,
    params: Mapping,
}

impl View for Request {
    type V = RequestView;

    closed spec fn view(&self) -> RequestView {
        RequestView {
            body: match self.body {
                Some(text) => Some(text@),
                None => None,
            },
            headers: self.headers.pairs(),
            method: self.method,
            url: self.url@,
            params: self.params.pairs(),
        }
    }
}

impl Request {
    #[verifier::type_invariant]
    spec fn header_names_normalized(&self) -> bool {
        forall|i: int|
            0 <= i < self.headers.pairs().len() ==> kebab_form(
                (#[trigger] self.headers.pairs()[i]).0,
            )
    }

    /// Builds a request. Every header name is stored in kebab-case; header
    /// values, the body, the method, the URL and the parameters are stored
    /// as given. Nothing is validated here.
    pub fn new(
        body: Option<String>,
        headers: Mapping,
        method: RequestMethod,
        url: String,
        params: Mapping,
    ) -> (request: Request)
        ensures
            request@ == RequestView::built(
                match body {
                    Some(text) => Some(text@),
                    None => None,
                },
                headers.pairs(),
                method,
                url@,
                params.pairs(),
            ),
    {
        let given = headers.entries();
        let ghost renamed = with_kebab_keys(headers.pairs());
        let mut stored = Mapping::new();
        let mut i: usize = 0;
        while i < given.len()
            invariant
                i <= given.len(),
                pairs_of(given@) == headers.pairs(),
                renamed == with_kebab_keys(headers.pairs()),
                stored.pairs() == collected(renamed.take(i as int)),
            decreases given.len() - i,
        {
            let ghost seen = renamed.take(i as int + 1);
            assert(seen.drop_last() =~= renamed.take(i as int));
            assert(seen.last() == (kebab_case(given[i as int].0@), given[i as int].1@)) by {
                assert(pairs_of(given@)[i as int] == (given[i as int].0@, given[i as int].1@));
            }
            let name = to_kebab(given[i].0.as_str());
            stored.insert(name, given[i].1.clone());
            i += 1;
        }
        proof {
            assert(renamed.take(i as int) =~= renamed);
            lemma_normalized_keys(headers.pairs());
        }
        Request { body, headers: stored, method, url, params }
    }

    /// The raw payload, if there is one.
    pub fn body(&self) -> (body: &Option<String>)
        ensures
            self@.body == (match *body {
                Some(text) => Some(text@),
                None => None,
            }),
    {
        &self.body
    }

    /// The headers. Every name is the kebab-case form of the name it was
    /// given under.
    pub fn headers(&self) -> (headers: &Mapping)
        ensures
            headers.pairs() == self@.headers,
            forall|i: int|
                0 <= i < self@.headers.len() ==> kebab_form((#[trigger] self@.headers[i]).0),
    {
        proof {
            use_type_invariant(&*self);
        }
        &self.headers
    }

    /// The method.
    pub fn method(&self) -> (method: RequestMethod)
        ensures
            method == self@.method,
    {
        self.method
    }

    /// The URL as it was given.
    pub fn url(&self) -> (url: &String)
        ensures
            url@ == self@.url,
    {
        &self.url
    }

    /// The query parameters.
    pub fn params(&self) -> (params: &Mapping)
        ensures
            params.pairs() == self@.params,
    {
        &self.params
    }

    /// The URL that the call goes to, or `None` where there is none: for a
    /// `GET`, the URL merged with the parameters, in their order; for any
    /// other method the URL as it is.
    pub fn target(&self) -> (target: Option<String>)
        ensures
            match target {
                Some(url) => self@.target() == Some(url@),
                None => self@.target() is None,
            },
    {
        match self.method {
            RequestMethod::GET => {
                let params = self.params.entries();
                if within_bytes(self.url.as_str(), params, MAX_QUERY_BYTES) {
                    merge_query(self.url.as_str(), params)
                } else {
                    None
                }
            },
            RequestMethod::POST => Some(self.url.clone()),
        }
    }

    /// The call that a transport has to make for this request, or what
    /// keeps the request from being sent. The call carries the method, the
    /// target URL, every header, name and value as stored, and for a method
    /// other than `GET` the body.
    pub fn prepare(&self) -> (prepared: Result<Outbound, Fault>)
        ensures
            match prepared {
                Ok(call) => self@.fault() is None && call@ == self@.call(),
                Err(fault) => self@.fault() == Some(fault),
            },
    {
        let url = match self.target() {
            Some(url) => url,
            None => {
                return Err(Fault::Url);
            },
        };
        let stored = self.headers.entries();
        let mut i: usize = 0;
        while i < stored.len()
            invariant
                i <= stored.len(),
                pairs_of(stored@) == self@.headers,
                self@.target() == Some(url@),
                forall|j: int| 0 <= j < i ==> header_name_accepted((#[trigger] self@.headers[j]).0),
            decreases stored.len() - i,
        {
            assert(pairs_of(stored@)[i as int].0 == stored[i as int].0@);
            if !accepts_header_name(stored[i].0.as_str()) {
                assert(!header_name_accepted(self@.headers[i as int].0));
                return Err(Fault::HeaderName);
            }
            i += 1;
        }
        let mut headers: Vec<(String, String)> = Vec::new();
        let mut k: usize = 0;
        while k < stored.len()
            invariant
                k <= stored.len(),
                pairs_of(stored@) == self@.headers,
                self@.target() == Some(url@),
                self@.names_accepted(),
                headers.len() == k,
                forall|j: int| 0 <= j < k ==> header_value_accepted((#[trigger] self@.headers[j]).1),
                forall|j: int|
                    0 <= j < k ==> (#[trigger] headers[j]).0@ == stored[j].0@ && headers[j].1@
                        == stored[j].1@,
            decreases stored.len() - k,
        {
            assert(pairs_of(stored@)[k as int].1 == stored[k as int].1@);
            if !accepts_header_value(stored[k].1.as_str()) {
                assert(!header_value_accepted(self@.headers[k as int].1));
                return Err(Fault::HeaderValue);
            }
            headers.push((stored[k].0.clone(), stored[k].1.clone()));
            k += 1;
        }
        assert(pairs_of(headers@) =~= pairs_of(stored@));
        let body = match self.method {
            RequestMethod::GET => None,
            RequestMethod::POST => self.body.clone(),
        };
        Ok(Outbound { method: self.method, url, headers, body })
    }
}

/// A `GET` goes to the URL merged from exactly the stored URL and the stored
/// parameters, in their order, wherever the two stay within
/// `MAX_QUERY_BYTES`; and it carries no payload.
pub proof fn lemma_get_merges_params(request: RequestView)
    requires
        request.method == RequestMethod::GET,
        byte_len(request.url) + pairs_byte_len(request.params) <= MAX_QUERY_BYTES,
    ensures
        request.target() == url_with_query(request.url, request.params),
        request.fault() == Some(Fault::Url) <==> url_with_query(request.url, request.params) is None,
        request.fault() is None ==> request.call().method == RequestMethod::GET && Some(
            request.call().url,
        ) == url_with_query(request.url, request.params) && request.call().body is None,
{
}

/// A `POST` goes to the stored URL as it is, whatever the parameters are and
/// whether or not the URL parses, and carries the body.
pub proof fn lemma_post_keeps_url(request: RequestView)
    requires
        request.method == RequestMethod::POST,
    ensures
        request.target() == Some(request.url),
        request.fault() != Some(Fault::Url),
        request.call().method == RequestMethod::POST,
        request.call().url == request.url,
        request.call().body == request.body,
{
}

/// Whatever the method, the call carries every stored header, name and
/// value, and no other; and a request is without fault exactly when it has
/// a target and every header name and value can be sent.
pub proof fn lemma_call_carries_headers(request: RequestView)
    ensures
        request.call().headers == request.headers,
        forall|i: int|
            0 <= i < request.headers.len() ==> has_key(
                request.call().headers,
                (#[trigger] request.headers[i]).0,
            ),
        request.fault() is None <==> request.target() is Some && request.names_accepted()
            && request.values_accepted(),
{
    assert forall|i: int| 0 <= i < request.headers.len() implies has_key(
        request.call().headers,
        (#[trigger] request.headers[i]).0,
    ) by {
        assert(request.call().headers[i].0 == request.headers[i].0);
    }
}

/// The headers given at construction reach the call under their kebab-case
/// names: the call of a request built from `given` headers carries, for each
/// of them, a header named by the kebab-case form of its name, and every
/// header it carries has the value of a given one whose name has that form.
pub proof fn lemma_given_headers_reach_call(
    body: Option<Seq<char>>,
    given: Seq<Pair>,
    method: RequestMethod,
    url: Seq<char>,
    params: Seq<Pair>,
)
    ensures
        forall|i: int|
            0 <= i < given.len() ==> has_key(
                RequestView::built(body, given, method, url, params).call().headers,
                kebab_case((#[trigger] given[i]).0),
            ),
        forall|j: int|
            0 <= j < normalized(given).len() ==> stored_from(
                given,
                #[trigger] RequestView::built(body, given, method, url, params).call().headers[j],
            ),
{
    lemma_normalized_keys(given);
    lemma_normalized_values(given);
}

} // verus!
