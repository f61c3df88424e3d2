//! The HTTP messages the API is spoken in: a request and its response.

use crate::text;
use vstd::prelude::*;
use vstd::slice::slice_to_vec;

verus! {

/// Headers in specifications, names and values as they are written.
pub type HeadersView = Seq<(Seq<char>, Seq<char>)>;

/// What `headers` say.
pub open spec fn headers_view(headers: Seq<(String, String)>) -> HeadersView {
    headers.map_values(|header: (String, String)| (header.0@, header.1@))
}

/// The value of the first header that is called `name`, in whatever case.
pub open spec fn header_named(headers: HeadersView, name: Seq<char>) -> Option<Seq<char>>
    decreases headers.len(),
{
    if headers.len() == 0 {
        None
    } else if text::same_but_for_case(headers[0].0, name) {
        Some(headers[0].1)
    } else {
        header_named(headers.drop_first(), name)
    }
}

/// A request: what is asked for, and what comes with it.
#[derive(Clone, Debug, PartialEq, Eq)]
pub struct Request {
    pub method: String,
    pub path: String,
    pub headers: Vec<(String, String)>,
    pub body: Vec<u8>,
}

/// [`Request`] in specifications.
#[verifier::ext_equal]
pub struct RequestView {
    pub method: Seq<char>,
    pub path: Seq<char>,
    pub headers: HeadersView,
    pub body: Seq<u8>,
}

impl View for Request {
    type V = RequestView;

    open spec fn view(&self) -> RequestView {
        RequestView {
            method: self.method@,
            path: self.path@,
            headers: headers_view(self.headers@),
            body: self.body@,
        }
    }
}

impl Request {
    /// A request for `path` with neither headers nor a body.
    pub fn new(method: &str, path: &str) -> (request: Self)
        ensures
            request@ == (RequestView {
                method: method@,
                path: path@,
                headers: Seq::empty(),
                body: Seq::empty(),
            }),
    {
        Request {
            method: method.to_string(),
            path: path.to_string(),
            headers: Vec::new(),
            body: Vec::new(),
        }
    }

    /// The same with one more header.
    pub fn header(self, name: &str, value: &str) -> (request: Self)
        ensures
            request@ == (RequestView { headers: self@.headers.push((name@, value@)), ..self@ }),
    {
        let mut request = self;
        request.headers.push((name.to_string(), value.to_string()));
        request
    }

    /// The same with `bytes` for its body.
    pub fn body(self, bytes: &[u8]) -> (request: Self)
        ensures
            request@ == (RequestView { body: bytes@, ..self@ }),
    {
        let mut request = self;
        request.body = slice_to_vec(bytes);
        request
    }

    /// The value of the first header that is called `name`, in whatever
    /// case.
    pub fn header_value(&self, name: &str) -> (value: Option<&str>)
        ensures
            match value {
                Some(value) => header_named(self@.headers, name@) == Some(value@),
                None => header_named(self@.headers, name@) is None,
            },
    {
        let ghost all = self@.headers;
        let mut at: usize = 0;
        assert(all.skip(0) == all);
        while at < self.headers.len()
            invariant
                at <= self.headers.len() == all.len(),
                all == headers_view(self.headers@),
                header_named(all, name@) == header_named(all.skip(at as int), name@),
            decreases self.headers.len() - at,
        {
            if text::alike(self.headers[at].0.as_str(), name) {
                return Some(self.headers[at].1.as_str());
            }
            assert(all.skip(at as int).drop_first() == all.skip(at + 1));
            at = at + 1;
        }
        None
    }
}

/// A response: how it went, and what comes back.
#[derive(Clone, Debug, PartialEq, Eq)]
pub struct Response {
    pub status: u16,
    pub headers: Vec<(String, String)>,
    pub body: Vec<u8>,
}

/// [`Response`] in specifications.
#[verifier::ext_equal]
pub struct ResponseView {
    pub status: u16,
    pub headers: HeadersView,
    pub body: Seq<u8>,
}

impl View for Response {
    type V = ResponseView;

    open spec fn view(&self) -> ResponseView {
        ResponseView {
            status: self.status,
            headers: headers_view(self.headers@),
            body: self.body@,
        }
    }
}

impl Response {
    /// A response with neither headers nor a body.
    pub fn new(status: u16) -> (response: Self)
        ensures
            response@ == (ResponseView { status, headers: Seq::empty(), body: Seq::empty() }),
    {
        Response { status, headers: Vec::new(), body: Vec::new() }
    }

    /// The same with one more header.
    pub fn header(self, name: &str, value: &str) -> (response: Self)
        ensures
            response@ == (ResponseView { headers: self@.headers.push((name@, value@)), ..self@ }),
    {
        let mut response = self;
        response.headers.push((name.to_string(), value.to_string()));
        response
    }

    /// The same with `bytes` for its body.
    pub fn body(self, bytes: &[u8]) -> (response: Self)
        ensures
            response@ == (ResponseView { body: bytes@, ..self@ }),
    {
        let mut response = self;
        response.body = slice_to_vec(bytes);
        response
    }
}

} // verus!
