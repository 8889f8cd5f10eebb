//! Mocks and the values they are built from: a match specification over
//! requests (`When`), a canned response (`Then`), a priority and an
//! optional remaining-use limit.

use vstd::prelude::*;
use vstd::string::StringSliceAdditionalSpecFns;

use crate::body::{concat_of, Body};

verus! {

/// The priority given to a mock that was not configured with one.
pub const DEFAULT_PRIORITY: u8 = 5;

/// An HTTP request method.
#[derive(Clone, Copy, PartialEq, Eq, Structural, Debug)]
pub enum Method {
    Get,
    Post,
    Put,
    Delete,
    Head,
    Patch,
    Options,
}

/// A request to match against: method, path, and body.
pub struct Request {
    pub method: Method,
    pub path: String,
    pub body: Body,
}

impl Request {
    /// Creates a request with an empty body.
    pub fn new(method: Method, path: &str) -> (r: Self)
        ensures
            r.method == method,
            r.path@ == path@,
            r.body@ =~= Seq::<Seq<u8>>::empty(),
    {
        Request { method, path: path.to_owned(), body: Body::empty() }
    }

    /// Replaces the request body.
    pub fn with_body(self, body: Body) -> (r: Self)
        ensures
            r.method == self.method,
            r.path@ == self.path@,
            r.body == body,
    {
        Request { body, ..self }
    }
}

/// What a mock matches on: any subset of method, path, and body content.
/// An unset component matches every request.
pub struct When {
    pub method: Option<Method>,
    pub path: Option<String>,
    pub body: Option<Body>,
}

/// Whether a request satisfies a match specification: every component
/// that is set must agree with the request, the body by content.
pub open spec fn spec_matches(w: When, req: Request) -> bool {
    &&& match w.method {
        Some(m) => m == req.method,
        None => true,
    }
    &&& match w.path {
        Some(p) => p@ == req.path@,
        None => true,
    }
    &&& match w.body {
        Some(b) => concat_of(b@) == concat_of(req.body@),
        None => true,
    }
}

impl When {
    /// A specification that matches every request.
    pub fn new() -> (r: Self)
        ensures
            r.method is None,
            r.path is None,
            r.body is None,
    {
        When { method: None, path: None, body: None }
    }

    /// Requires the given method.
    pub fn method(self, method: Method) -> (r: Self)
        ensures
            r.method == Some(method),
            r.path == self.path,
            r.body == self.body,
    {
        When { method: Some(method), ..self }
    }

    /// Requires the GET method.
    pub fn get(self) -> (r: Self)
        ensures
            r.method == Some(Method::Get),
            r.path == self.path,
            r.body == self.body,
    {
        self.method(Method::Get)
    }

    /// Requires the POST method.
    pub fn post(self) -> (r: Self)
        ensures
            r.method == Some(Method::Post),
            r.path == self.path,
            r.body == self.body,
    {
        self.method(Method::Post)
    }

    /// Requires the PUT method.
    pub fn put(self) -> (r: Self)
        ensures
            r.method == Some(Method::Put),
            r.path == self.path,
            r.body == self.body,
    {
        self.method(Method::Put)
    }

    /// Requires the DELETE method.
    pub fn delete(self) -> (r: Self)
        ensures
            r.method == Some(Method::Delete),
            r.path == self.path,
            r.body == self.body,
    {
        self.method(Method::Delete)
    }

    /// Requires the given path.
    pub fn path(self, path: &str) -> (r: Self)
        ensures
            r.method == self.method,
            r.path matches Some(p) && p@ == path@,
            r.body == self.body,
    {
        When { path: Some(path.to_owned()), ..self }
    }

    /// Requires a body whose content is the UTF-8 encoding of `text`.
    pub fn text(self, text: &str) -> (r: Self)
        ensures
            r.method == self.method,
            r.path == self.path,
            r.body matches Some(b) && concat_of(b@) == vstd::utf8::encode_utf8(text@),
    {
        let data = vstd::slice::slice_to_vec(text.as_bytes());
        let body = Body::bytes(data);
        proof {
            crate::body::lemma_concat_single(text.spec_bytes());
            assert(body@ == seq![text.spec_bytes()]);
        }
        When { body: Some(body), ..self }
    }

    /// Requires a body with the given content.
    pub fn bytes(self, data: Vec<u8>) -> (r: Self)
        ensures
            r.method == self.method,
            r.path == self.path,
            r.body matches Some(b) && concat_of(b@) == data@,
    {
        let body = Body::bytes(data);
        proof {
            crate::body::lemma_concat_single(body@[0]);
        }
        When { body: Some(body), ..self }
    }

    /// Requires a body with the given content, however it was chunked.
    pub fn body(self, body: Body) -> (r: Self)
        ensures
            r.method == self.method,
            r.path == self.path,
            r.body == Some(body),
    {
        When { body: Some(body), ..self }
    }
}

/// The canned response of a mock: the body handed back on a match.
pub struct Then {
    pub body: Body,
}

impl Then {
    /// An empty response.
    pub fn new() -> (r: Self)
        ensures
            r.body@ =~= Seq::<Seq<u8>>::empty(),
    {
        Then { body: Body::empty() }
    }

    /// Responds with the UTF-8 encoding of `text`.
    pub fn text(self, text: &str) -> (r: Self)
        ensures
            concat_of(r.body@) == vstd::utf8::encode_utf8(text@),
    {
        let data = vstd::slice::slice_to_vec(text.as_bytes());
        let body = Body::bytes(data);
        proof {
            crate::body::lemma_concat_single(text.spec_bytes());
            assert(body@ == seq![text.spec_bytes()]);
        }
        Then { body }
    }

    /// Responds with the given bytes as one chunk.
    pub fn bytes(self, data: Vec<u8>) -> (r: Self)
        ensures
            r.body@ =~= seq![data@],
    {
        Then { body: Body::bytes(data) }
    }

    /// Responds with the given body.
    pub fn body(self, body: Body) -> (r: Self)
        ensures
            r.body == body,
    {
        Then { body }
    }
}

/// A registered mock: a match specification, a canned response, a
/// priority (lower matches first), and an optional remaining-use count
/// (`None` means unlimited, `Some(0)` means exhausted).
pub struct Mock {
    pub when: When,
    pub response: Then,
    pub priority: u8,
    pub limit: Option<usize>,
}

/// Value equality of mocks: equal match specifications (bodies by
/// content), equal response content, equal priority and limit.
pub open spec fn mock_eqv(a: Mock, b: Mock) -> bool {
    &&& a.when.method == b.when.method
    &&& match (a.when.path, b.when.path) {
        (Some(p), Some(q)) => p@ == q@,
        (None, None) => true,
        _ => false,
    }
    &&& match (a.when.body, b.when.body) {
        (Some(x), Some(y)) => concat_of(x@) == concat_of(y@),
        (None, None) => true,
        _ => false,
    }
    &&& concat_of(a.response.body@) == concat_of(b.response.body@)
    &&& a.priority == b.priority
    &&& a.limit == b.limit
}

impl Mock {
    /// Creates a mock with the default priority and no use limit.
    pub fn new(when: When, response: Then) -> (r: Self)
        ensures
            r == (Mock { when, response, priority: DEFAULT_PRIORITY, limit: None }),
    {
        Mock { when, response, priority: DEFAULT_PRIORITY, limit: None }
    }

    /// Replaces the priority.
    pub fn with_priority(self, priority: u8) -> (r: Self)
        ensures
            r == (Mock { priority, ..self }),
    {
        Mock { priority, ..self }
    }

    /// Replaces the use limit.
    pub fn with_limit(self, limit: usize) -> (r: Self)
        ensures
            r == (Mock { limit: Some(limit), ..self }),
    {
        Mock { limit: Some(limit), ..self }
    }

    /// Returns the priority.
    pub fn priority(&self) -> (r: u8)
        ensures
            r == self.priority,
    {
        self.priority
    }

    /// Whether this mock's match specification accepts the request.
    /// The use limit is not consulted here.
    pub fn matches(&self, req: &Request) -> (r: bool)
        ensures
            r == spec_matches(self.when, *req),
    {
        let method_ok = match &self.when.method {
            Some(m) => *m == req.method,
            None => true,
        };
        let path_ok = match &self.when.path {
            Some(p) => *p == req.path,
            None => true,
        };
        let body_ok = match &self.when.body {
            Some(b) => *b == req.body,
            None => true,
        };
        method_ok && path_ok && body_ok
    }
}

impl Clone for Mock {
    /// Deep copy: the clone is value-equal to the original, with an
    /// independent, undrained response body.
    fn clone(&self) -> (r: Self)
        ensures
            mock_eqv(r, *self),
            r.response.body@ == self.response.body@,
    {
        let when = When {
            method: self.when.method,
            path: match &self.when.path {
                Some(p) => Some(p.clone()),
                None => None,
            },
            body: match &self.when.body {
                Some(b) => Some(b.clone()),
                None => None,
            },
        };
        let response = Then { body: self.response.body.clone() };
        Mock { when, response, priority: self.priority, limit: self.limit }
    }
}

impl PartialEq for Mock {
    /// Value equality as `mock_eqv`: bodies compare by content.
    fn eq(&self, other: &Self) -> (r: bool) {
        let method_ok = match (&self.when.method, &other.when.method) {
            (Some(a), Some(b)) => *a == *b,
            (None, None) => true,
            _ => false,
        };
        let path_ok = match (&self.when.path, &other.when.path) {
            (Some(a), Some(b)) => *a == *b,
            (None, None) => true,
            _ => false,
        };
        let body_ok = match (&self.when.body, &other.when.body) {
            (Some(a), Some(b)) => *a == *b,
            (None, None) => true,
            _ => false,
        };
        let response_ok = self.response.body == other.response.body;
        let limit_ok = match (&self.limit, &other.limit) {
            (Some(a), Some(b)) => *a == *b,
            (None, None) => true,
            _ => false,
        };
        method_ok && path_ok && body_ok && response_ok && self.priority == other.priority
            && limit_ok
    }
}

impl Eq for Mock {

}

impl vstd::std_specs::cmp::PartialEqSpecImpl for Mock {
    open spec fn obeys_eq_spec() -> bool {
        true
    }

    open spec fn eq_spec(&self, other: &Mock) -> bool {
        mock_eqv(*self, *other)
    }
}

} // verus!
