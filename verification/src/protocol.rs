//! The vocabulary of an HTTP/1.1 message: versions, methods and header
//! fields, each with its mathematical view.

use vstd::prelude::*;
use crate::text::{bytes_eq, copy_range, utf8};

verus! {

/// HTTP protocol version.
#[derive(Clone, Copy, Debug, PartialEq, Eq, Structural)]
pub enum Version {
    Http09,
    Http10,
    Http11,
    H2,
    H3,
}

impl Version {
    /// The text of the version as it stands on the wire.
    pub open spec fn text(self) -> Seq<char> {
        match self {
            Version::Http09 => "HTTP/0.9"@,
            Version::Http10 => "HTTP/1.0"@,
            Version::Http11 => "HTTP/1.1"@,
            Version::H2 => "HTTP/2.0"@,
            Version::H3 => "HTTP/3.0"@,
        }
    }

    /// The version that a request-line token names; HTTP/1.1 for any other
    /// token.
    pub open spec fn of_token(token: Seq<u8>) -> Version {
        if token == utf8("HTTP/0.9"@) {
            Version::Http09
        } else if token == utf8("HTTP/1.0"@) {
            Version::Http10
        } else if token == utf8("HTTP/1.1"@) {
            Version::Http11
        } else if token == utf8("HTTP/2.0"@) {
            Version::H2
        } else if token == utf8("HTTP/3.0"@) {
            Version::H3
        } else {
            Version::Http11
        }
    }

    /// The text of the version as it stands on the wire.
    pub fn as_str(self) -> (r: &'static str)
        ensures
            r@ == self.text(),
    {
        match self {
            Version::Http09 => "HTTP/0.9",
            Version::Http10 => "HTTP/1.0",
            Version::Http11 => "HTTP/1.1",
            Version::H2 => "HTTP/2.0",
            Version::H3 => "HTTP/3.0",
        }
    }

    /// Reads a version token; an unrecognised token means HTTP/1.1.
    pub fn from_token(token: &[u8]) -> (r: Version)
        ensures
            r == Version::of_token(token@),
    {
        if bytes_eq(token, "HTTP/0.9".as_bytes()) {
            Version::Http09
        } else if bytes_eq(token, "HTTP/1.0".as_bytes()) {
            Version::Http10
        } else if bytes_eq(token, "HTTP/1.1".as_bytes()) {
            Version::Http11
        } else if bytes_eq(token, "HTTP/2.0".as_bytes()) {
            Version::H2
        } else if bytes_eq(token, "HTTP/3.0".as_bytes()) {
            Version::H3
        } else {
            Version::Http11
        }
    }
}

/// The mathematical value of a [`Method`].
pub enum MethodView {
    Options,
    Get,
    Post,
    Put,
    Delete,
    Head,
    Trace,
    Connect,
    Patch,
    Query,
    Extension(Seq<u8>),
}

/// HTTP request method: the standard verbs, or an extension token.
#[derive(Clone, Debug)]
pub enum Method {
    Options,
    Get,
    Post,
    Put,
    Delete,
    Head,
    Trace,
    Connect,
    Patch,
    Query,
    Extension(Vec<u8>),
}

impl View for Method {
    type V = MethodView;

    open spec fn view(&self) -> MethodView {
        match self {
            Method::Options => MethodView::Options,
            Method::Get => MethodView::Get,
            Method::Post => MethodView::Post,
            Method::Put => MethodView::Put,
            Method::Delete => MethodView::Delete,
            Method::Head => MethodView::Head,
            Method::Trace => MethodView::Trace,
            Method::Connect => MethodView::Connect,
            Method::Patch => MethodView::Patch,
            Method::Query => MethodView::Query,
            Method::Extension(name) => MethodView::Extension(name@),
        }
    }
}

impl MethodView {
    /// The method that a token names: a standard verb where the token is
    /// one, in upper case, and an extension otherwise.
    pub open spec fn of_token(token: Seq<u8>) -> MethodView {
        if token == utf8("OPTIONS"@) {
            MethodView::Options
        } else if token == utf8("GET"@) {
            MethodView::Get
        } else if token == utf8("POST"@) {
            MethodView::Post
        } else if token == utf8("PUT"@) {
            MethodView::Put
        } else if token == utf8("DELETE"@) {
            MethodView::Delete
        } else if token == utf8("HEAD"@) {
            MethodView::Head
        } else if token == utf8("TRACE"@) {
            MethodView::Trace
        } else if token == utf8("CONNECT"@) {
            MethodView::Connect
        } else if token == utf8("PATCH"@) {
            MethodView::Patch
        } else if token == utf8("QUERY"@) {
            MethodView::Query
        } else {
            MethodView::Extension(token)
        }
    }

    /// The token that names the method.
    pub open spec fn name(self) -> Seq<u8> {
        match self {
            MethodView::Options => utf8("OPTIONS"@),
            MethodView::Get => utf8("GET"@),
            MethodView::Post => utf8("POST"@),
            MethodView::Put => utf8("PUT"@),
            MethodView::Delete => utf8("DELETE"@),
            MethodView::Head => utf8("HEAD"@),
            MethodView::Trace => utf8("TRACE"@),
            MethodView::Connect => utf8("CONNECT"@),
            MethodView::Patch => utf8("PATCH"@),
            MethodView::Query => utf8("QUERY"@),
            MethodView::Extension(name) => name,
        }
    }
}

impl Method {
    /// The method that `token` names.
    pub fn from_token(token: &[u8]) -> (r: Method)
        ensures
            r@ == MethodView::of_token(token@),
    {
        if bytes_eq(token, "OPTIONS".as_bytes()) {
            Method::Options
        } else if bytes_eq(token, "GET".as_bytes()) {
            Method::Get
        } else if bytes_eq(token, "POST".as_bytes()) {
            Method::Post
        } else if bytes_eq(token, "PUT".as_bytes()) {
            Method::Put
        } else if bytes_eq(token, "DELETE".as_bytes()) {
            Method::Delete
        } else if bytes_eq(token, "HEAD".as_bytes()) {
            Method::Head
        } else if bytes_eq(token, "TRACE".as_bytes()) {
            Method::Trace
        } else if bytes_eq(token, "CONNECT".as_bytes()) {
            Method::Connect
        } else if bytes_eq(token, "PATCH".as_bytes()) {
            Method::Patch
        } else if bytes_eq(token, "QUERY".as_bytes()) {
            Method::Query
        } else {
            let name = copy_range(token, 0, token.len());
            assert(token@.subrange(0, token@.len() as int) =~= token@);
            Method::Extension(name)
        }
    }

    /// The token that names the method.
    pub fn as_bytes(&self) -> (r: Vec<u8>)
        ensures
            r@ == self@.name(),
    {
        let text: &[u8] = match self {
            Method::Options => "OPTIONS".as_bytes(),
            Method::Get => "GET".as_bytes(),
            Method::Post => "POST".as_bytes(),
            Method::Put => "PUT".as_bytes(),
            Method::Delete => "DELETE".as_bytes(),
            Method::Head => "HEAD".as_bytes(),
            Method::Trace => "TRACE".as_bytes(),
            Method::Connect => "CONNECT".as_bytes(),
            Method::Patch => "PATCH".as_bytes(),
            Method::Query => "QUERY".as_bytes(),
            Method::Extension(name) => name.as_slice(),
        };
        let r = copy_range(text, 0, text.len());
        assert(text@.subrange(0, text@.len() as int) =~= text@);
        r
    }
}

/// One header field: a name and a value, as bytes.
#[derive(Clone, Debug)]
pub struct Header {
    pub name: Vec<u8>,
    pub value: Vec<u8>,
}

impl View for Header {
    type V = (Seq<u8>, Seq<u8>);

    open spec fn view(&self) -> (Seq<u8>, Seq<u8>) {
        (self.name@, self.value@)
    }
}

/// The mathematical value of a header list: its (name, value) pairs in
/// order.
pub open spec fn headers_view(headers: Seq<Header>) -> Seq<(Seq<u8>, Seq<u8>)> {
    Seq::new(headers.len(), |i: int| headers[i]@)
}

impl Header {
    /// A header field that holds copies of `name` and `value`.
    pub fn new(name: &[u8], value: &[u8]) -> (r: Header)
        ensures
            r@ == (name@, value@),
    {
        let n = copy_range(name, 0, name.len());
        let v = copy_range(value, 0, value.len());
        assert(name@.subrange(0, name@.len() as int) =~= name@);
        assert(value@.subrange(0, value@.len() as int) =~= value@);
        Header { name: n, value: v }
    }
}

} // verus!
