//! Requests, and the bytes of their head on the wire.
use vstd::prelude::*;
use crate::destination::{Destination, DestinationView};
use crate::text::{append_bytes, append_str, same_text, utf8};

verus! {

/// The lower-case form of a text, as `str::to_lowercase` gives it.
pub uninterp spec fn lower_of(s: Seq<char>) -> Seq<char>;

/// Relies on `str::to_lowercase`: the result depends on the characters alone.
#[verifier::external_body]
pub(crate) fn lowercase(s: &str) -> (r: String)
    ensures
        r@ == lower_of(s@),
{
    s.to_lowercase()
}

/// A protocol version that a request may name.
#[derive(Debug, Clone, Copy, PartialEq, Eq, Structural)]
pub enum Version {
    Http09,
    Http10,
    Http11,
    H2,
}

/// A request: method, version, destination, headers and an optional body
/// stream of type `B`.
pub struct Request<B> {
    pub method: String,
    pub version: Version,
    pub uri: Destination,
    pub headers: Vec<(String, String)>,
    pub body: Option<B>,
}

/// The text `User-Agent`.
pub open spec fn user_agent_name() -> Seq<char> {
    "User-Agent"@
}

/// The default user agent text.
pub open spec fn user_agent_value() -> Seq<char> {
    "Simple http request"@
}

impl<B> Request<B> {
    /// A request of `method` to `uri`, HTTP/1.0, with a `User-Agent` header
    /// and no body.
    pub fn new(method: String, uri: Destination) -> (r: Request<B>)
        ensures
            r.method@ == method@,
            r.version == Version::Http10,
            r.uri@ == uri@,
            r.headers@.len() == 1,
            r.headers@[0].0@ == user_agent_name(),
            r.headers@[0].1@ == user_agent_value(),
            r.body is None,
    {
        let mut headers: Vec<(String, String)> = Vec::new();
        headers.push(("User-Agent".to_owned(), "Simple http request".to_owned()));
        Request { method, uri, version: Version::Http10, headers, body: None }
    }

    /// A builder with the defaults: `GET`, HTTP/1.1, no destination, no headers.
    pub fn builder() -> (r: RequestBuilder)
        ensures
            r.method@ == "GET"@,
            r.version == Version::Http11,
            r.uri is None,
            r.headers@.len() == 0,
    {
        RequestBuilder::default()
    }
}

/// Builds a request piece by piece.
pub struct RequestBuilder {
    pub method: String,
    pub version: Version,
    pub uri: Option<Destination>,
    pub headers: Vec<(String, String)>,
}

/// A request could not be built.
#[derive(Debug, Clone, Copy, PartialEq, Eq, Structural)]
pub enum RequestError {
    /// No destination was given.
    MissingUri,
}

impl RequestBuilder {
    /// The defaults: `GET`, HTTP/1.1, no destination, no headers.
    pub fn default() -> (r: RequestBuilder)
        ensures
            r.method@ == "GET"@,
            r.version == Version::Http11,
            r.uri is None,
            r.headers@.len() == 0,
    {
        RequestBuilder {
            method: "GET".to_owned(),
            version: Version::Http11,
            uri: None,
            headers: Vec::new(),
        }
    }

    /// Sets the method.
    pub fn method(self, method: String) -> (r: RequestBuilder)
        ensures
            r.method@ == method@,
            r.version == self.version,
            r.uri == self.uri,
            r.headers == self.headers,
    {
        RequestBuilder { method, ..self }
    }

    /// Sets the version.
    pub fn version(self, version: Version) -> (r: RequestBuilder)
        ensures
            r.version == version,
            r.method == self.method,
            r.uri == self.uri,
            r.headers == self.headers,
    {
        RequestBuilder { version, ..self }
    }

    /// Sets the destination.
    pub fn uri(self, uri: Destination) -> (r: RequestBuilder)
        ensures
            r.uri == Some(uri),
            r.method == self.method,
            r.version == self.version,
            r.headers == self.headers,
    {
        RequestBuilder { uri: Some(uri), ..self }
    }

    /// Adds a header after the others.
    pub fn header(self, name: &str, value: &str) -> (r: RequestBuilder)
        ensures
            r.headers@.len() == self.headers@.len() + 1,
            forall|i: int| 0 <= i < self.headers@.len() ==> r.headers@[i] == self.headers@[i],
            r.headers@.last().0@ == name@,
            r.headers@.last().1@ == value@,
            r.method == self.method,
            r.version == self.version,
            r.uri == self.uri,
    {
        let RequestBuilder { method, version, uri, mut headers } = self;
        headers.push((name.to_owned(), value.to_owned()));
        RequestBuilder { method, version, uri, headers }
    }

    /// The request without a body; fails where no destination was given.
    pub fn done<B>(self) -> (r: Result<Request<B>, RequestError>)
        ensures
            match self.uri {
                Some(u) => r is Ok && r->Ok_0.uri == u && r->Ok_0.method == self.method
                    && r->Ok_0.version == self.version && r->Ok_0.headers == self.headers
                    && r->Ok_0.body is None,
                None => r == Err::<Request<B>, RequestError>(RequestError::MissingUri),
            },
    {
        match self.uri {
            Some(uri) => Ok(
                Request {
                    method: self.method,
                    version: self.version,
                    uri,
                    headers: self.headers,
                    body: None,
                },
            ),
            None => Err(RequestError::MissingUri),
        }
    }

    /// The request with `body`; fails where no destination was given.
    pub fn body<B>(self, body: B) -> (r: Result<Request<B>, RequestError>)
        ensures
            match self.uri {
                Some(u) => r is Ok && r->Ok_0.uri == u && r->Ok_0.method == self.method
                    && r->Ok_0.version == self.version && r->Ok_0.headers == self.headers
                    && r->Ok_0.body == Some(body),
                None => r == Err::<Request<B>, RequestError>(RequestError::MissingUri),
            },
    {
        match self.uri {
            Some(uri) => Ok(
                Request {
                    method: self.method,
                    version: self.version,
                    uri,
                    headers: self.headers,
                    body: Some(body),
                },
            ),
            None => Err(RequestError::MissingUri),
        }
    }
}

/// ` HTTP/1.0\r\nHost: `
pub open spec fn request_line_end() -> Seq<u8> {
    seq![32u8, 72, 84, 84, 80, 47, 49, 46, 48, 13, 10, 72, 111, 115, 116, 58, 32]
}

/// `\r\nConnection: close\r\n`
pub open spec fn connection_close() -> Seq<u8> {
    seq![
        13u8, 10, 67, 111, 110, 110, 101, 99, 116, 105, 111, 110, 58, 32, 99, 108, 111, 115,
        101, 13, 10,
    ]
}

/// The header lines written for `headers`: each as `<name>: <value>\r\n`,
/// but those whose name reads `host` in lower case, which are dropped.
pub open spec fn caller_header_lines(headers: Seq<(String, String)>) -> Seq<u8>
    decreases headers.len(),
{
    if headers.len() == 0 {
        Seq::empty()
    } else if lower_of(headers.last().0@) == "host"@ {
        caller_header_lines(headers.drop_last())
    } else {
        caller_header_lines(headers.drop_last()) + utf8(headers.last().0@) + seq![58u8, 32]
            + utf8(headers.last().1@) + seq![13u8, 10]
    }
}

/// The head of a request: `<method> <path> HTTP/1.0`, `Host`, `Connection:
/// close`, the caller's headers but `Host`, and an empty line.
pub open spec fn request_head(method: Seq<char>, dst: DestinationView, headers: Seq<(String, String)>) -> Seq<u8> {
    utf8(method) + seq![32u8] + utf8(dst.path_and_query) + request_line_end() + utf8(dst.host)
        + connection_close() + caller_header_lines(headers) + seq![13u8, 10]
}

/// The bytes of the head of a request of `method` to `dst` with `headers`.
pub fn build_req(method: &str, dst: &Destination, headers: &Vec<(String, String)>) -> (r: Vec<u8>)
    ensures
        r@ == request_head(method@, dst@, headers@),
{
    let space: Vec<u8> = vec![32];
    let line_end: Vec<u8> = vec![32, 72, 84, 84, 80, 47, 49, 46, 48, 13, 10, 72, 111, 115, 116, 58, 32];
    let close: Vec<u8> = vec![
        13, 10, 67, 111, 110, 110, 101, 99, 116, 105, 111, 110, 58, 32, 99, 108, 111, 115, 101, 13,
        10,
    ];
    let sep: Vec<u8> = vec![58, 32];
    let crlf: Vec<u8> = vec![13, 10];
    assert(line_end@ == request_line_end());
    assert(close@ == connection_close());
    let mut out: Vec<u8> = Vec::new();
    append_str(&mut out, method);
    append_bytes(&mut out, space.as_slice());
    append_str(&mut out, dst.path_and_query());
    append_bytes(&mut out, line_end.as_slice());
    append_str(&mut out, dst.host());
    append_bytes(&mut out, close.as_slice());
    let ghost start = out@;
    let mut i: usize = 0;
    while i < headers.len()
        invariant
            i <= headers@.len(),
            out@ == start + caller_header_lines(headers@.take(i as int)),
            sep@ == seq![58u8, 32],
            crlf@ == seq![13u8, 10],
        decreases headers@.len() - i,
    {
        assert(headers@.take(i + 1).drop_last() =~= headers@.take(i as int));
        let lower = lowercase(headers[i].0.as_str());
        if !same_text(lower.as_str(), "host") {
            append_str(&mut out, headers[i].0.as_str());
            append_bytes(&mut out, sep.as_slice());
            append_str(&mut out, headers[i].1.as_str());
            append_bytes(&mut out, crlf.as_slice());
        }
        i = i + 1;
    }
    append_bytes(&mut out, crlf.as_slice());
    assert(headers@.take(headers@.len() as int) =~= headers@);
    assert(out@ =~= request_head(method@, dst@, headers@));
    out
}

/// Sends requests through a connector of type `C`.
pub struct Client<C> {
    inner: C,
}

impl<C> Client<C> {
    pub closed spec fn connector_spec(&self) -> C {
        self.inner
    }

    /// A client over `inner`.
    pub fn new(inner: C) -> (r: Client<C>)
        ensures
            r.connector_spec() == inner,
    {
        Client { inner }
    }

    /// A builder of clients.
    pub fn builder() -> (r: ClientBuilder) {
        ClientBuilder {  }
    }

    /// The connector.
    pub fn connector(&self) -> (r: &C)
        ensures
            *r == self.connector_spec(),
    {
        &self.inner
    }
}

/// Builds a client.
pub struct ClientBuilder {}

impl ClientBuilder {
    /// A client over `connector`.
    pub fn build<C>(self, connector: C) -> (r: Client<C>)
        ensures
            r.connector_spec() == connector,
    {
        Client::new(connector)
    }
}

} // verus!
