use vstd::prelude::*;
use vstd::string::StrSliceExecFns;
use vstd::utf8::{decode_utf8, encode_utf8, valid_utf8};
use std::sync::Arc;
use std::sync::atomic::AtomicBool;
use crate::error::HyperlitResult;
use crate::sse::SseStream;
use crate::strmap::StrMap;
use crate::text::{
    ascii_capitals, ascii_lower, ascii_upper, decimal, is_ascii_text, lemma_capitals_case, push_char, push_decimal,
    push_str, to_uppercase, uppercase_of,
};

verus! {

/// HTTP methods supported by the service.
#[derive(Debug, Clone, Copy, PartialEq, Eq, Structural, Hash)]
pub enum HttpMethod {
    Get,
    Post,
    Put,
    Delete,
    Patch,
    Head,
    Options,
    Trace,
    Connect,
}

/// The canonical (upper case) name of a method.
pub open spec fn method_name(m: HttpMethod) -> Seq<char> {
    match m {
        HttpMethod::Get => "GET"@,
        HttpMethod::Post => "POST"@,
        HttpMethod::Put => "PUT"@,
        HttpMethod::Delete => "DELETE"@,
        HttpMethod::Patch => "PATCH"@,
        HttpMethod::Head => "HEAD"@,
        HttpMethod::Options => "OPTIONS"@,
        HttpMethod::Trace => "TRACE"@,
        HttpMethod::Connect => "CONNECT"@,
    }
}

impl HttpMethod {
    /// Convert the method to its string representation.
    pub fn as_str(&self) -> (s: &'static str)
        ensures
            s@ == method_name(*self),
    {
        match self {
            HttpMethod::Get => "GET",
            HttpMethod::Post => "POST",
            HttpMethod::Put => "PUT",
            HttpMethod::Delete => "DELETE",
            HttpMethod::Patch => "PATCH",
            HttpMethod::Head => "HEAD",
            HttpMethod::Options => "OPTIONS",
            HttpMethod::Trace => "TRACE",
            HttpMethod::Connect => "CONNECT",
        }
    }
}

/// The method whose upper-cased name is `s`, if any.
pub open spec fn method_from_name(s: Seq<char>) -> Option<HttpMethod> {
    if s == "GET"@ {
        Some(HttpMethod::Get)
    } else if s == "POST"@ {
        Some(HttpMethod::Post)
    } else if s == "PUT"@ {
        Some(HttpMethod::Put)
    } else if s == "DELETE"@ {
        Some(HttpMethod::Delete)
    } else if s == "PATCH"@ {
        Some(HttpMethod::Patch)
    } else if s == "HEAD"@ {
        Some(HttpMethod::Head)
    } else if s == "OPTIONS"@ {
        Some(HttpMethod::Options)
    } else if s == "TRACE"@ {
        Some(HttpMethod::Trace)
    } else if s == "CONNECT"@ {
        Some(HttpMethod::Connect)
    } else {
        None
    }
}

/// Law: the canonical name of every method is read back as that method.
pub proof fn lemma_method_name_roundtrip(m: HttpMethod)
    ensures
        method_from_name(method_name(m)) == Some(m),
{
    reveal_strlit("GET");
    reveal_strlit("POST");
    reveal_strlit("PUT");
    reveal_strlit("DELETE");
    reveal_strlit("PATCH");
    reveal_strlit("HEAD");
    reveal_strlit("OPTIONS");
    reveal_strlit("TRACE");
    reveal_strlit("CONNECT");
    assert("GET"@.len() == 3 && "GET"@[0] == 'G');
    assert("POST"@.len() == 4 && "POST"@[0] == 'P');
    assert("PUT"@.len() == 3 && "PUT"@[0] == 'P');
    assert("DELETE"@.len() == 6 && "DELETE"@[0] == 'D');
    assert("PATCH"@.len() == 5 && "PATCH"@[0] == 'P');
    assert("HEAD"@.len() == 4 && "HEAD"@[0] == 'H');
    assert("OPTIONS"@.len() == 7 && "OPTIONS"@[0] == 'O');
    assert("TRACE"@.len() == 5 && "TRACE"@[0] == 'T');
    assert("CONNECT"@.len() == 7 && "CONNECT"@[0] == 'C');
}

/// The canonical name of every method is made of ASCII capitals.
proof fn lemma_method_name_capitals(m: HttpMethod)
    ensures
        ascii_capitals(method_name(m)),
{
    reveal_strlit("GET");
    reveal_strlit("POST");
    reveal_strlit("PUT");
    reveal_strlit("DELETE");
    reveal_strlit("PATCH");
    reveal_strlit("HEAD");
    reveal_strlit("OPTIONS");
    reveal_strlit("TRACE");
    reveal_strlit("CONNECT");
    reveal_with_fuel(ascii_capitals, 8);
}

/// Law: every method's name, in capitals or in small letters, is read back as that
/// method by `parse` (which reads ASCII text through `ascii_upper`).
pub proof fn lemma_method_names_parse(m: HttpMethod)
    ensures
        is_ascii_text(method_name(m)),
        method_from_name(ascii_upper(method_name(m))) == Some(m),
        is_ascii_text(ascii_lower(method_name(m))),
        method_from_name(ascii_upper(ascii_lower(method_name(m)))) == Some(m),
{
    lemma_method_name_capitals(m);
    lemma_capitals_case(method_name(m));
    lemma_method_name_roundtrip(m);
}

/// Whether two string slices hold the same characters.
pub fn str_eq(a: &str, b: &str) -> (r: bool)
    ensures
        r == (a@ == b@),
{
    a.to_owned() == b.to_owned()
}

impl HttpMethod {
    /// Parse an HTTP method from a string, ignoring case.
    pub fn parse(method: &str) -> (m: Option<Self>)
        ensures
            m == method_from_name(uppercase_of(method@)),
            is_ascii_text(method@) ==> m == method_from_name(ascii_upper(method@)),
    {
        let upper = to_uppercase(method);
        let u = upper.as_str();
        if str_eq(u, "GET") {
            Some(HttpMethod::Get)
        } else if str_eq(u, "POST") {
            Some(HttpMethod::Post)
        } else if str_eq(u, "PUT") {
            Some(HttpMethod::Put)
        } else if str_eq(u, "DELETE") {
            Some(HttpMethod::Delete)
        } else if str_eq(u, "PATCH") {
            Some(HttpMethod::Patch)
        } else if str_eq(u, "HEAD") {
            Some(HttpMethod::Head)
        } else if str_eq(u, "OPTIONS") {
            Some(HttpMethod::Options)
        } else if str_eq(u, "TRACE") {
            Some(HttpMethod::Trace)
        } else if str_eq(u, "CONNECT") {
            Some(HttpMethod::Connect)
        } else {
            None
        }
    }

    /// The method's name as an owned string.
    pub fn to_string(&self) -> (s: String)
        ensures
            s@ == method_name(*self),
    {
        self.as_str().to_owned()
    }
}


/// HTTP headers collection.
#[derive(Debug, Clone)]
pub struct HttpHeaders {
    inner: StrMap,
}

impl View for HttpHeaders {
    type V = Map<Seq<char>, Seq<char>>;

    closed spec fn view(&self) -> Map<Seq<char>, Seq<char>> {
        self.inner@
    }
}

impl HttpHeaders {
    /// Create empty headers.
    pub fn new() -> (h: Self)
        ensures
            h@ == Map::<Seq<char>, Seq<char>>::empty(),
    {
        HttpHeaders { inner: StrMap::new() }
    }

    /// Insert a header, replacing an earlier value of the same name.
    pub fn insert(&mut self, key: &str, value: &str)
        ensures
            final(self)@ == old(self)@.insert(key@, value@),
    {
        let _ = self.inner.insert(key.to_owned(), value.to_owned());
    }

    /// Get a header value.
    pub fn get(&self, key: &str) -> (r: Option<&String>)
        ensures
            match r {
                Some(v) => self@.contains_key(key@) && v@ == self@[key@],
                None => !self@.contains_key(key@),
            },
    {
        self.inner.get(key)
    }

    /// Check if a header exists.
    pub fn contains(&self, key: &str) -> (b: bool)
        ensures
            b == self@.contains_key(key@),
    {
        self.inner.contains_key(key)
    }

    /// Remove a header, returning its value.
    pub fn remove(&mut self, key: &str) -> (r: Option<String>)
        ensures
            final(self)@ == old(self)@.remove(key@),
            match r {
                Some(v) => old(self)@.contains_key(key@) && v@ == old(self)@[key@],
                None => !old(self)@.contains_key(key@),
            },
    {
        self.inner.remove(key)
    }

    /// All headers as (name, value) pairs, in insertion order; each name occurs once.
    pub fn all(&self) -> (e: &Vec<(String, String)>)
        ensures
            crate::strmap::entries_map(e@) == self@,
            crate::strmap::entry_keys(e@).no_duplicates(),
            e@.len() == self@.len(),
    {
        self.inner.entries()
    }

    /// All headers as owned (name, value) pairs, in insertion order; each name occurs
    /// once.
    pub fn into_inner(self) -> (e: Vec<(String, String)>)
        ensures
            crate::strmap::entries_map(e@) == self@,
            crate::strmap::entry_keys(e@).no_duplicates(),
            e@.len() == self@.len(),
    {
        self.inner.to_vec()
    }

    /// Whether the two collections hold the same headers, in whatever order.
    pub fn same_as(&self, other: &HttpHeaders) -> (b: bool)
        ensures
            b == (self@ == other@),
    {
        self.inner.same_as(&other.inner)
    }
}

impl Default for HttpHeaders {
    fn default() -> (h: Self)
        ensures
            h@ == Map::<Seq<char>, Seq<char>>::empty(),
    {
        HttpHeaders::new()
    }
}

impl PartialEq for HttpHeaders {
    fn eq(&self, other: &Self) -> (b: bool) {
        self.same_as(other)
    }
}

impl vstd::std_specs::cmp::PartialEqSpecImpl for HttpHeaders {
    open spec fn obeys_eq_spec() -> bool {
        true
    }

    open spec fn eq_spec(&self, other: &Self) -> bool {
        self@ == other@
    }
}

impl Eq for HttpHeaders {
}

/// Trusted: calls `String::from_utf8`, which returns the string when the bytes are
/// valid UTF-8 and an error otherwise.
#[verifier::external_body]
pub(crate) fn string_from_utf8(bytes: Vec<u8>) -> (r: Option<String>)
    ensures
        match r {
            Some(s) => valid_utf8(bytes@) && s@ == decode_utf8(bytes@),
            None => !valid_utf8(bytes@),
        },
{
    String::from_utf8(bytes).ok()
}

/// HTTP body content: fixed bytes, or a stream of server-sent events.
#[derive(Debug)]
pub enum HttpBody {
    /// Fixed-size body content.
    Bytes(Vec<u8>),
    /// Streaming body content.
    Stream(SseStream),
}

/// The bytes of a body (none for a stream).
pub open spec fn body_bytes(b: &HttpBody) -> Seq<u8> {
    match b {
        HttpBody::Bytes(v) => v@,
        HttpBody::Stream(_) => Seq::empty(),
    }
}

/// Whether two byte slices hold the same bytes.
fn same_bytes(a: &[u8], b: &[u8]) -> (r: bool)
    ensures
        r == (a@ == b@),
{
    if a.len() != b.len() {
        return false;
    }
    let mut i: usize = 0;
    while i < a.len()
        invariant
            i <= a@.len(),
            a@.len() == b@.len(),
            forall|j: int| 0 <= j < i ==> a@[j] == b@[j],
        decreases a.len() - i,
    {
        if a[i] != b[i] {
            return false;
        }
        i = i + 1;
    }
    assert(a@ =~= b@);
    true
}

impl PartialEq for HttpBody {
    /// Fixed bodies are equal when their bytes are; a streaming body equals nothing.
    fn eq(&self, other: &Self) -> (r: bool) {
        match (self, other) {
            (HttpBody::Bytes(a), HttpBody::Bytes(b)) => same_bytes(a.as_slice(), b.as_slice()),
            _ => false,
        }
    }
}

impl vstd::std_specs::cmp::PartialEqSpecImpl for HttpBody {
    open spec fn obeys_eq_spec() -> bool {
        true
    }

    open spec fn eq_spec(&self, other: &Self) -> bool {
        match (self, other) {
            (HttpBody::Bytes(a), HttpBody::Bytes(b)) => a@ == b@,
            _ => false,
        }
    }
}

impl From<Vec<u8>> for HttpBody {
    fn from(v: Vec<u8>) -> (b: Self)
        ensures
            b == HttpBody::Bytes(v),
    {
        HttpBody::from_bytes(v)
    }
}

impl vstd::std_specs::convert::FromSpecImpl<Vec<u8>> for HttpBody {
    open spec fn obeys_from_spec() -> bool {
        true
    }

    open spec fn from_spec(v: Vec<u8>) -> Self {
        HttpBody::Bytes(v)
    }
}

impl From<String> for HttpBody {
    fn from(s: String) -> (b: Self)
        ensures
            b is Bytes,
            body_bytes(&b) == encode_utf8(s@),
    {
        HttpBody::from_string(s.as_str())
    }
}

impl vstd::std_specs::convert::FromSpecImpl<String> for HttpBody {
    open spec fn obeys_from_spec() -> bool {
        false
    }

    open spec fn from_spec(v: String) -> Self {
        arbitrary()
    }
}

impl<'a> From<&'a str> for HttpBody {
    fn from(s: &'a str) -> (b: Self)
        ensures
            b is Bytes,
            body_bytes(&b) == encode_utf8(s@),
    {
        HttpBody::from_string(s)
    }
}

impl<'a> vstd::std_specs::convert::FromSpecImpl<&'a str> for HttpBody {
    open spec fn obeys_from_spec() -> bool {
        false
    }

    open spec fn from_spec(v: &'a str) -> Self {
        arbitrary()
    }
}

impl Default for HttpBody {
    /// An empty body.
    fn default() -> (b: Self)
        ensures
            b is Bytes,
            body_bytes(&b) == Seq::<u8>::empty(),
    {
        HttpBody::empty()
    }
}

impl HttpBody {
    /// Create an empty body.
    pub fn empty() -> (b: Self)
        ensures
            b is Bytes,
            body_bytes(&b) == Seq::<u8>::empty(),
    {
        HttpBody::Bytes(Vec::new())
    }

    /// Create from bytes.
    pub fn from_bytes(bytes: Vec<u8>) -> (b: Self)
        ensures
            b == HttpBody::Bytes(bytes),
    {
        HttpBody::Bytes(bytes)
    }

    /// Create from a string: its UTF-8 bytes.
    pub fn from_string(s: &str) -> (b: Self)
        ensures
            b is Bytes,
            body_bytes(&b) == encode_utf8(s@),
    {
        HttpBody::Bytes(s.as_bytes_vec())
    }

    /// Create a streaming body.
    pub fn from_stream(stream: SseStream) -> (b: Self)
        ensures
            b == HttpBody::Stream(stream),
    {
        HttpBody::Stream(stream)
    }

    /// Get content as bytes (empty for a stream).
    pub fn as_bytes(&self) -> (r: &[u8])
        ensures
            r@ == body_bytes(self),
    {
        match self {
            HttpBody::Bytes(bytes) => bytes.as_slice(),
            HttpBody::Stream(_) => {
                let e: &[u8] = &[];
                assert(e@ =~= Seq::<u8>::empty());
                e
            },
        }
    }

    /// Get content as a string if it is valid UTF-8 (never for a stream).
    pub fn as_string(&self) -> (r: Option<String>)
        ensures
            match r {
                Some(s) => self is Bytes && valid_utf8(body_bytes(self)) && s@ == decode_utf8(body_bytes(self)),
                None => self is Stream || !valid_utf8(body_bytes(self)),
            },
    {
        match self {
            HttpBody::Bytes(bytes) => string_from_utf8(bytes.clone()),
            HttpBody::Stream(_) => None,
        }
    }

    /// Check if body is empty (a stream never is).
    pub fn is_empty(&self) -> (b: bool)
        ensures
            b == (self is Bytes && body_bytes(self).len() == 0),
    {
        match self {
            HttpBody::Bytes(bytes) => bytes.len() == 0,
            HttpBody::Stream(_) => false,
        }
    }

    /// The content length (0 for a stream).
    pub fn len(&self) -> (n: usize)
        ensures
            n == body_bytes(self).len(),
    {
        match self {
            HttpBody::Bytes(bytes) => bytes.len(),
            HttpBody::Stream(_) => 0,
        }
    }

    /// Take ownership of the content (empty for a stream).
    pub fn into_bytes(self) -> (v: Vec<u8>)
        ensures
            v@ == body_bytes(&self),
    {
        match self {
            HttpBody::Bytes(bytes) => bytes,
            HttpBody::Stream(_) => Vec::new(),
        }
    }
}

/// HTTP request structure.
#[derive(Debug)]
pub struct HttpRequest {
    method: HttpMethod,
    path: String,
    headers: HttpHeaders,
    body: HttpBody,
}

impl HttpRequest {
    /// The method of the request.
    pub closed spec fn spec_method(&self) -> HttpMethod {
        self.method
    }

    /// The path of the request (with its query string).
    pub closed spec fn spec_path(&self) -> Seq<char> {
        self.path@
    }

    /// The headers of the request.
    pub closed spec fn spec_headers(&self) -> Map<Seq<char>, Seq<char>> {
        self.headers@
    }

    /// The body of the request.
    pub closed spec fn spec_body(&self) -> &HttpBody {
        &self.body
    }

    /// Create a new HTTP request without headers and with an empty body.
    pub fn new(method: HttpMethod, path: &str) -> (r: Self)
        ensures
            r.spec_method() == method,
            r.spec_path() == path@,
            r.spec_headers() == Map::<Seq<char>, Seq<char>>::empty(),
            r.spec_body() is Bytes && body_bytes(r.spec_body()) == Seq::<u8>::empty(),
    {
        HttpRequest { method, path: path.to_owned(), headers: HttpHeaders::new(), body: HttpBody::empty() }
    }

    /// Get the HTTP method.
    pub fn method(&self) -> (m: &HttpMethod)
        ensures
            *m == self.spec_method(),
    {
        &self.method
    }

    /// Get the request path.
    pub fn path(&self) -> (p: &str)
        ensures
            p@ == self.spec_path(),
    {
        self.path.as_str()
    }

    /// Get the request headers.
    pub fn headers(&self) -> (h: &HttpHeaders)
        ensures
            h@ == self.spec_headers(),
    {
        &self.headers
    }

    /// Get mutable access to headers.
    pub fn headers_mut(&mut self) -> (h: &mut HttpHeaders)
        ensures
            h@ == old(self).spec_headers(),
            final(self).spec_headers() == final(h)@,
            final(self).spec_method() == old(self).spec_method(),
            final(self).spec_path() == old(self).spec_path(),
            final(self).spec_body() == old(self).spec_body(),
    {
        &mut self.headers
    }

    /// Get the request body.
    pub fn body(&self) -> (b: &HttpBody)
        ensures
            b == self.spec_body(),
    {
        &self.body
    }

    /// Set the request body.
    pub fn with_body(self, body: HttpBody) -> (r: Self)
        ensures
            r.spec_method() == self.spec_method(),
            r.spec_path() == self.spec_path(),
            r.spec_headers() == self.spec_headers(),
            r.spec_body() == body,
    {
        let mut r = self;
        r.body = body;
        r
    }

    /// Set a header.
    pub fn with_header(self, key: &str, value: &str) -> (r: Self)
        ensures
            r.spec_method() == self.spec_method(),
            r.spec_path() == self.spec_path(),
            r.spec_headers() == self.spec_headers().insert(key@, value@),
            r.spec_body() == self.spec_body(),
    {
        let mut r = self;
        r.headers.insert(key, value);
        r
    }
}

/// HTTP status codes.
#[derive(Debug, Clone, Copy, PartialEq, Eq, Structural)]
pub enum HttpStatusCode {
    OK,
    Created,
    Accepted,
    NoContent,
    MovedPermanently,
    Found,
    NotModified,
    BadRequest,
    Unauthorized,
    Forbidden,
    NotFound,
    MethodNotAllowed,
    Conflict,
    UnprocessableEntity,
    TooManyRequests,
    InternalServerError,
    NotImplemented,
    BadGateway,
    ServiceUnavailable,
    GatewayTimeout,
    NetworkConnectTimeoutError,
}

/// The numeric value of a status code.
pub open spec fn status_number(c: HttpStatusCode) -> u16 {
    match c {
        HttpStatusCode::OK => 200,
        HttpStatusCode::Created => 201,
        HttpStatusCode::Accepted => 202,
        HttpStatusCode::NoContent => 204,
        HttpStatusCode::MovedPermanently => 301,
        HttpStatusCode::Found => 302,
        HttpStatusCode::NotModified => 304,
        HttpStatusCode::BadRequest => 400,
        HttpStatusCode::Unauthorized => 401,
        HttpStatusCode::Forbidden => 403,
        HttpStatusCode::NotFound => 404,
        HttpStatusCode::MethodNotAllowed => 405,
        HttpStatusCode::Conflict => 409,
        HttpStatusCode::UnprocessableEntity => 422,
        HttpStatusCode::TooManyRequests => 429,
        HttpStatusCode::InternalServerError => 500,
        HttpStatusCode::NotImplemented => 501,
        HttpStatusCode::BadGateway => 502,
        HttpStatusCode::ServiceUnavailable => 503,
        HttpStatusCode::GatewayTimeout => 504,
        HttpStatusCode::NetworkConnectTimeoutError => 599,
    }
}

/// The status code with a given number; unknown numbers mean an internal server error.
pub open spec fn status_from_number(n: u16) -> HttpStatusCode {
    if n == 200 {
        HttpStatusCode::OK
    } else if n == 201 {
        HttpStatusCode::Created
    } else if n == 202 {
        HttpStatusCode::Accepted
    } else if n == 204 {
        HttpStatusCode::NoContent
    } else if n == 301 {
        HttpStatusCode::MovedPermanently
    } else if n == 302 {
        HttpStatusCode::Found
    } else if n == 304 {
        HttpStatusCode::NotModified
    } else if n == 400 {
        HttpStatusCode::BadRequest
    } else if n == 401 {
        HttpStatusCode::Unauthorized
    } else if n == 403 {
        HttpStatusCode::Forbidden
    } else if n == 404 {
        HttpStatusCode::NotFound
    } else if n == 405 {
        HttpStatusCode::MethodNotAllowed
    } else if n == 409 {
        HttpStatusCode::Conflict
    } else if n == 422 {
        HttpStatusCode::UnprocessableEntity
    } else if n == 429 {
        HttpStatusCode::TooManyRequests
    } else if n == 501 {
        HttpStatusCode::NotImplemented
    } else if n == 502 {
        HttpStatusCode::BadGateway
    } else if n == 503 {
        HttpStatusCode::ServiceUnavailable
    } else if n == 504 {
        HttpStatusCode::GatewayTimeout
    } else if n == 599 {
        HttpStatusCode::NetworkConnectTimeoutError
    } else {
        HttpStatusCode::InternalServerError
    }
}

/// The standard reason phrase of a status code.
pub open spec fn reason_of(c: HttpStatusCode) -> Seq<char> {
    match c {
        HttpStatusCode::OK => "OK"@,
        HttpStatusCode::Created => "Created"@,
        HttpStatusCode::Accepted => "Accepted"@,
        HttpStatusCode::NoContent => "No Content"@,
        HttpStatusCode::MovedPermanently => "Moved Permanently"@,
        HttpStatusCode::Found => "Found"@,
        HttpStatusCode::NotModified => "Not Modified"@,
        HttpStatusCode::BadRequest => "Bad Request"@,
        HttpStatusCode::Unauthorized => "Unauthorized"@,
        HttpStatusCode::Forbidden => "Forbidden"@,
        HttpStatusCode::NotFound => "Not Found"@,
        HttpStatusCode::MethodNotAllowed => "Method Not Allowed"@,
        HttpStatusCode::Conflict => "Conflict"@,
        HttpStatusCode::UnprocessableEntity => "Unprocessable Entity"@,
        HttpStatusCode::TooManyRequests => "Too Many Requests"@,
        HttpStatusCode::InternalServerError => "Internal Server Error"@,
        HttpStatusCode::NotImplemented => "Not Implemented"@,
        HttpStatusCode::BadGateway => "Bad Gateway"@,
        HttpStatusCode::ServiceUnavailable => "Service Unavailable"@,
        HttpStatusCode::GatewayTimeout => "Gateway Timeout"@,
        HttpStatusCode::NetworkConnectTimeoutError => "Network Connect Timeout Error"@,
    }
}

impl HttpStatusCode {
    /// Get the numeric status code.
    pub fn as_u16(&self) -> (n: u16)
        ensures
            n == status_number(*self),
    {
        match self {
            HttpStatusCode::OK => 200,
            HttpStatusCode::Created => 201,
            HttpStatusCode::Accepted => 202,
            HttpStatusCode::NoContent => 204,
            HttpStatusCode::MovedPermanently => 301,
            HttpStatusCode::Found => 302,
            HttpStatusCode::NotModified => 304,
            HttpStatusCode::BadRequest => 400,
            HttpStatusCode::Unauthorized => 401,
            HttpStatusCode::Forbidden => 403,
            HttpStatusCode::NotFound => 404,
            HttpStatusCode::MethodNotAllowed => 405,
            HttpStatusCode::Conflict => 409,
            HttpStatusCode::UnprocessableEntity => 422,
            HttpStatusCode::TooManyRequests => 429,
            HttpStatusCode::InternalServerError => 500,
            HttpStatusCode::NotImplemented => 501,
            HttpStatusCode::BadGateway => 502,
            HttpStatusCode::ServiceUnavailable => 503,
            HttpStatusCode::GatewayTimeout => 504,
            HttpStatusCode::NetworkConnectTimeoutError => 599,
        }
    }

    /// Get the standard reason phrase.
    pub fn reason_phrase(&self) -> (s: &'static str)
        ensures
            s@ == reason_of(*self),
    {
        match self {
            HttpStatusCode::OK => "OK",
            HttpStatusCode::Created => "Created",
            HttpStatusCode::Accepted => "Accepted",
            HttpStatusCode::NoContent => "No Content",
            HttpStatusCode::MovedPermanently => "Moved Permanently",
            HttpStatusCode::Found => "Found",
            HttpStatusCode::NotModified => "Not Modified",
            HttpStatusCode::BadRequest => "Bad Request",
            HttpStatusCode::Unauthorized => "Unauthorized",
            HttpStatusCode::Forbidden => "Forbidden",
            HttpStatusCode::NotFound => "Not Found",
            HttpStatusCode::MethodNotAllowed => "Method Not Allowed",
            HttpStatusCode::Conflict => "Conflict",
            HttpStatusCode::UnprocessableEntity => "Unprocessable Entity",
            HttpStatusCode::TooManyRequests => "Too Many Requests",
            HttpStatusCode::InternalServerError => "Internal Server Error",
            HttpStatusCode::NotImplemented => "Not Implemented",
            HttpStatusCode::BadGateway => "Bad Gateway",
            HttpStatusCode::ServiceUnavailable => "Service Unavailable",
            HttpStatusCode::GatewayTimeout => "Gateway Timeout",
            HttpStatusCode::NetworkConnectTimeoutError => "Network Connect Timeout Error",
        }
    }

    /// The status code with a given number; unknown numbers give `InternalServerError`.
    pub fn from_u16(code: u16) -> (c: Self)
        ensures
            c == status_from_number(code),
    {
        if code == 200 {
            HttpStatusCode::OK
        } else if code == 201 {
            HttpStatusCode::Created
        } else if code == 202 {
            HttpStatusCode::Accepted
        } else if code == 204 {
            HttpStatusCode::NoContent
        } else if code == 301 {
            HttpStatusCode::MovedPermanently
        } else if code == 302 {
            HttpStatusCode::Found
        } else if code == 304 {
            HttpStatusCode::NotModified
        } else if code == 400 {
            HttpStatusCode::BadRequest
        } else if code == 401 {
            HttpStatusCode::Unauthorized
        } else if code == 403 {
            HttpStatusCode::Forbidden
        } else if code == 404 {
            HttpStatusCode::NotFound
        } else if code == 405 {
            HttpStatusCode::MethodNotAllowed
        } else if code == 409 {
            HttpStatusCode::Conflict
        } else if code == 422 {
            HttpStatusCode::UnprocessableEntity
        } else if code == 429 {
            HttpStatusCode::TooManyRequests
        } else if code == 501 {
            HttpStatusCode::NotImplemented
        } else if code == 502 {
            HttpStatusCode::BadGateway
        } else if code == 503 {
            HttpStatusCode::ServiceUnavailable
        } else if code == 504 {
            HttpStatusCode::GatewayTimeout
        } else if code == 599 {
            HttpStatusCode::NetworkConnectTimeoutError
        } else {
            HttpStatusCode::InternalServerError
        }
    }
}

impl From<u16> for HttpStatusCode {
    fn from(code: u16) -> (c: Self) {
        Self::from_u16(code)
    }
}

impl vstd::std_specs::convert::FromSpecImpl<u16> for HttpStatusCode {
    open spec fn obeys_from_spec() -> bool {
        true
    }

    open spec fn from_spec(code: u16) -> Self {
        status_from_number(code)
    }
}

/// Law: a status code's number maps back to the same status code.
pub proof fn lemma_status_number_roundtrip(c: HttpStatusCode)
    ensures
        status_from_number(status_number(c)) == c,
{
}

/// HTTP response structure.
#[derive(Debug)]
pub struct HttpResponse {
    status: HttpStatusCode,
    headers: HttpHeaders,
    body: HttpBody,
}

impl HttpResponse {
    /// The status of the response.
    pub closed spec fn spec_status(&self) -> HttpStatusCode {
        self.status
    }

    /// The headers of the response.
    pub closed spec fn spec_headers(&self) -> Map<Seq<char>, Seq<char>> {
        self.headers@
    }

    /// The body of the response.
    pub closed spec fn spec_body(&self) -> &HttpBody {
        &self.body
    }

    /// Create a new response with the given status, no headers and an empty body.
    pub fn new(status: HttpStatusCode) -> (r: Self)
        ensures
            r.spec_status() == status,
            r.spec_headers() == Map::<Seq<char>, Seq<char>>::empty(),
            r.spec_body() is Bytes && body_bytes(r.spec_body()) == Seq::<u8>::empty(),
    {
        HttpResponse { status, headers: HttpHeaders::new(), body: HttpBody::empty() }
    }

    /// Create a 200 OK response.
    pub fn ok() -> (r: Self)
        ensures
            r.spec_status() == HttpStatusCode::OK,
            r.spec_headers() == Map::<Seq<char>, Seq<char>>::empty(),
            r.spec_body() is Bytes && body_bytes(r.spec_body()) == Seq::<u8>::empty(),
    {
        Self::new(HttpStatusCode::OK)
    }

    /// Create a 201 Created response.
    pub fn created() -> (r: Self)
        ensures
            r.spec_status() == HttpStatusCode::Created,
            r.spec_headers() == Map::<Seq<char>, Seq<char>>::empty(),
            r.spec_body() is Bytes && body_bytes(r.spec_body()) == Seq::<u8>::empty(),
    {
        Self::new(HttpStatusCode::Created)
    }

    /// Create a 204 No Content response.
    pub fn no_content() -> (r: Self)
        ensures
            r.spec_status() == HttpStatusCode::NoContent,
            r.spec_headers() == Map::<Seq<char>, Seq<char>>::empty(),
            r.spec_body() is Bytes && body_bytes(r.spec_body()) == Seq::<u8>::empty(),
    {
        Self::new(HttpStatusCode::NoContent)
    }

    /// Create a 400 Bad Request response.
    pub fn bad_request() -> (r: Self)
        ensures
            r.spec_status() == HttpStatusCode::BadRequest,
            r.spec_headers() == Map::<Seq<char>, Seq<char>>::empty(),
            r.spec_body() is Bytes && body_bytes(r.spec_body()) == Seq::<u8>::empty(),
    {
        Self::new(HttpStatusCode::BadRequest)
    }

    /// Create a 404 Not Found response.
    pub fn not_found() -> (r: Self)
        ensures
            r.spec_status() == HttpStatusCode::NotFound,
            r.spec_headers() == Map::<Seq<char>, Seq<char>>::empty(),
            r.spec_body() is Bytes && body_bytes(r.spec_body()) == Seq::<u8>::empty(),
    {
        Self::new(HttpStatusCode::NotFound)
    }

    /// Create a 500 Internal Server Error response.
    pub fn internal_error() -> (r: Self)
        ensures
            r.spec_status() == HttpStatusCode::InternalServerError,
            r.spec_headers() == Map::<Seq<char>, Seq<char>>::empty(),
            r.spec_body() is Bytes && body_bytes(r.spec_body()) == Seq::<u8>::empty(),
    {
        Self::new(HttpStatusCode::InternalServerError)
    }

    /// Get the status code.
    pub fn status(&self) -> (s: HttpStatusCode)
        ensures
            s == self.spec_status(),
    {
        self.status
    }

    /// Get the headers.
    pub fn headers(&self) -> (h: &HttpHeaders)
        ensures
            h@ == self.spec_headers(),
    {
        &self.headers
    }

    /// Get mutable access to headers.
    pub fn headers_mut(&mut self) -> (h: &mut HttpHeaders)
        ensures
            h@ == old(self).spec_headers(),
            final(self).spec_headers() == final(h)@,
            final(self).spec_status() == old(self).spec_status(),
            final(self).spec_body() == old(self).spec_body(),
    {
        &mut self.headers
    }

    /// Get the body.
    pub fn body(&self) -> (b: &HttpBody)
        ensures
            b == self.spec_body(),
    {
        &self.body
    }

    /// Take ownership of the body.
    pub fn into_body(self) -> (b: HttpBody)
        ensures
            b == *self.spec_body(),
    {
        self.body
    }

    /// Set the response body.
    pub fn with_body(self, body: HttpBody) -> (r: Self)
        ensures
            r.spec_status() == self.spec_status(),
            r.spec_headers() == self.spec_headers(),
            *r.spec_body() == body,
    {
        let mut r = self;
        r.body = body;
        r
    }

    /// Set a header.
    pub fn with_header(self, key: &str, value: &str) -> (r: Self)
        ensures
            r.spec_status() == self.spec_status(),
            r.spec_headers() == self.spec_headers().insert(key@, value@),
            r.spec_body() == self.spec_body(),
    {
        let mut r = self;
        r.headers.insert(key, value);
        r
    }

    /// Set the Content-Type header.
    pub fn with_content_type(self, content_type: &str) -> (r: Self)
        ensures
            r.spec_status() == self.spec_status(),
            r.spec_headers() == self.spec_headers().insert("Content-Type"@, content_type@),
            r.spec_body() == self.spec_body(),
    {
        self.with_header("Content-Type", content_type)
    }

    /// Set the status code.
    pub fn with_status(self, status: HttpStatusCode) -> (r: Self)
        ensures
            r.spec_status() == status,
            r.spec_headers() == self.spec_headers(),
            r.spec_body() == self.spec_body(),
    {
        let mut r = self;
        r.status = status;
        r
    }

    /// Create a 200 JSON response with the given text as its body.
    pub fn json(body: &str) -> (r: Self)
        ensures
            r.spec_status() == HttpStatusCode::OK,
            r.spec_headers() == Map::<Seq<char>, Seq<char>>::empty().insert("Content-Type"@, "application/json"@),
            r.spec_body() is Bytes && body_bytes(r.spec_body()) == encode_utf8(body@),
    {
        Self::ok().with_content_type("application/json").with_body(HttpBody::from_string(body))
    }

    /// Create a 200 plain text response.
    pub fn text(body: &str) -> (r: Self)
        ensures
            r.spec_status() == HttpStatusCode::OK,
            r.spec_headers() == Map::<Seq<char>, Seq<char>>::empty().insert("Content-Type"@, "text/plain"@),
            r.spec_body() is Bytes && body_bytes(r.spec_body()) == encode_utf8(body@),
    {
        Self::ok().with_content_type("text/plain").with_body(HttpBody::from_string(body))
    }
}

/// Configuration for the HTTP server.
#[derive(Debug, Clone)]
pub struct HttpServerConfig {
    /// Host address to bind to.
    pub host: String,
    /// Port to listen on. If None, the OS will assign an available port.
    pub port: Option<u16>,
    /// Server name used in responses.
    pub server_name: String,
}

/// `host:port`, with port 0 (any free port) when none is set.
pub open spec fn address_text(host: Seq<char>, port: Option<u16>) -> Seq<char> {
    match port {
        Some(p) => host + ":"@ + decimal(p as nat),
        None => host + ":0"@,
    }
}

impl HttpServerConfig {
    /// Create a new configuration with the given host, no port and the default server name.
    pub fn new(host: &str) -> (c: Self)
        ensures
            c.host@ == host@,
            c.port is None,
            c.server_name@ == "hyperlit-server"@,
    {
        HttpServerConfig { host: host.to_owned(), port: None, server_name: "hyperlit-server".to_owned() }
    }

    /// Set the port.
    pub fn with_port(self, port: u16) -> (c: Self)
        ensures
            c.host == self.host,
            c.port == Some(port),
            c.server_name == self.server_name,
    {
        let mut c = self;
        c.port = Some(port);
        c
    }

    /// Set the server name.
    pub fn with_server_name(self, name: &str) -> (c: Self)
        ensures
            c.host == self.host,
            c.port == self.port,
            c.server_name@ == name@,
    {
        let mut c = self;
        c.server_name = name.to_owned();
        c
    }

    /// Get the address string (host:port, or host:0 for an OS-assigned port).
    pub fn address(&self) -> (a: String)
        ensures
            a@ == address_text(self.host@, self.port),
    {
        let mut a = self.host.clone();
        match self.port {
            Some(p) => {
                push_char(&mut a, ':');
                push_decimal(&mut a, p as u128);
                assert(a@ =~= self.host@ + ":"@ + decimal(p as nat)) by {
                    reveal_strlit(":");
                }
            },
            None => {
                push_str(&mut a, ":0");
            },
        }
        a
    }
}

impl Default for HttpServerConfig {
    fn default() -> (c: Self)
        ensures
            c.host@ == "127.0.0.1"@,
            c.port is None,
            c.server_name@ == "hyperlit-server"@,
    {
        HttpServerConfig { host: "127.0.0.1".to_owned(), port: None, server_name: "hyperlit-server".to_owned() }
    }
}

/// Trait for handling HTTP requests: the service receives raw requests and returns
/// responses; errors are turned into HTTP 599 responses by the server.
pub trait HttpService {
    /// Handle an HTTP request and return a response.
    fn handle_request(&self, request: HttpRequest) -> HyperlitResult<HttpResponse>;
}

/// Handle to a running HTTP server: its port and a shared shutdown flag.
#[derive(Debug, Clone)]
pub struct HttpServerHandle {
    port: u16,
    shutdown: Arc<AtomicBool>,
}

impl HttpServerHandle {
    /// The port of the handle.
    pub closed spec fn spec_port(&self) -> u16 {
        self.port
    }

    /// The shared shutdown flag of the handle.
    pub closed spec fn spec_flag(&self) -> Arc<AtomicBool> {
        self.shutdown
    }

    /// Create a new handle for the given port, not shut down.
    pub fn new(port: u16) -> (h: Self)
        ensures
            h.spec_port() == port,
    {
        HttpServerHandle { port, shutdown: Arc::new(AtomicBool::new(false)) }
    }

    /// Get the port the server is listening on.
    pub fn port(&self) -> (p: u16)
        ensures
            p == self.spec_port(),
    {
        self.port
    }

    /// Get the full address (host:port) the server is listening on.
    pub fn address(&self, host: &str) -> (a: String)
        ensures
            a@ == address_text(host@, Some(self.spec_port())),
    {
        let mut a = host.to_owned();
        push_char(&mut a, ':');
        push_decimal(&mut a, self.port as u128);
        assert(a@ =~= host@ + ":"@ + decimal(self.port as nat)) by {
            reveal_strlit(":");
        }
        a
    }

    /// Signal the server to shut down.
    pub fn shutdown(&self) {
        self.shutdown.store(true, std::sync::atomic::Ordering::SeqCst);
    }

    /// Check if the server has been signaled to shut down (the flag is shared with
    /// other threads: nothing is stated of the answer).
    pub fn is_shutdown(&self) -> bool {
        self.shutdown.load(std::sync::atomic::Ordering::SeqCst)
    }

    /// Access the shutdown flag (for internal use by implementations).
    pub fn shutdown_flag(&self) -> (f: &Arc<AtomicBool>)
        ensures
            *f == self.spec_flag(),
    {
        &self.shutdown
    }
}

} // verus!
