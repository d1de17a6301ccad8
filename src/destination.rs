//! The target of a connection: scheme, host, port and path of an absolute
//! URI, changed only in ways that keep it a valid URI.
use vstd::prelude::*;
use vstd::string::*;
use crate::text::{append_decimal, append_str, decimal, has_char, lemma_decimal_digits, utf8};
use crate::wire::{find_byte, lacks, lemma_find_byte};

verus! {

/// The result of parsing `s` as a URI: its scheme, host, port, and path with
/// query, each where present.
pub uninterp spec fn uri_parts_of(s: Seq<char>) -> Option<
    (Option<Seq<char>>, Option<Seq<char>>, Option<u16>, Option<Seq<char>>),
>;

/// The result of parsing bytes `b` as a URI authority: its host, and its
/// port where one is given.
pub uninterp spec fn authority_of(b: Seq<u8>) -> Option<(Seq<char>, Option<u16>)>;

/// A byte that ends the scan for the `]` of a bracketed host: `@ / ? #`.
pub open spec fn stops_scan(c: u8) -> bool {
    c == 64 || c == 47 || c == 63 || c == 35
}

/// A `]` occurs in `b` from position `j` on, before any `@ / ? #`.
pub open spec fn closes_from(b: Seq<u8>, j: int) -> bool
    decreases b.len() - j,
{
    if j < 0 || j >= b.len() {
        false
    } else if b[j] == 93 {
        true
    } else if stops_scan(b[j]) {
        false
    } else {
        closes_from(b, j + 1)
    }
}

/// A byte that ends an authority: `/ ? #`.
pub open spec fn ends_authority(c: u8) -> bool {
    c == 47 || c == 63 || c == 35
}

/// No byte of `b` from `lo` up to `hi` ends an authority.
pub open spec fn no_end_between(b: Seq<u8>, lo: int, hi: int) -> bool {
    forall|j: int| lo <= j < hi ==> !ends_authority(#[trigger] b[j])
}

/// A `://` starts at `k`, before any byte that ends an authority: where a
/// scheme, if any, can end.
pub open spec fn scheme_end_at(b: Seq<u8>, k: int) -> bool {
    0 <= k && k + 3 <= b.len() && b[k] == 58 && b[k + 1] == 47 && b[k + 2] == 47
        && no_end_between(b, 0, k)
}

/// Position `i` can lie in the authority of `b`: no `/ ? #` comes before
/// it, but for that of a leading `<scheme>://`.
pub open spec fn in_authority(b: Seq<u8>, i: int) -> bool {
    no_end_between(b, 0, i) || exists|k: int|
        scheme_end_at(b, k) && k + 3 <= i && #[trigger] no_end_between(b, k + 3, i)
}

/// Each `@[` that can lie in the authority of `b` is closed by a `]` before
/// the next `@ / ? #`. The parser of `http` accepts an authority such as
/// `a]@[b` but panics when asked for its host; texts without this property
/// are kept from it.
pub open spec fn brackets_closed(b: Seq<u8>) -> bool {
    forall|i: int|
        0 <= i && i + 1 < b.len() && b[i] == 64 && b[i + 1] == 91 && in_authority(b, i)
            ==> #[trigger] closes_from(b, i + 2)
}

/// The first position from `lo` on of a byte that ends an authority, or the
/// length of `b`.
fn first_end_from(b: &[u8], lo: usize) -> (r: usize)
    requires
        lo <= b@.len(),
    ensures
        lo <= r <= b@.len(),
        no_end_between(b@, lo as int, r as int),
        r < b@.len() ==> ends_authority(b@[r as int]),
{
    let n = b.len();
    let mut k: usize = lo;
    while k < n && !(b[k] == 47 || b[k] == 63 || b[k] == 35)
        invariant
            n == b@.len(),
            lo <= k <= n,
            no_end_between(b@, lo as int, k as int),
        decreases n - k,
    {
        k = k + 1;
    }
    k
}

/// Whether a `]` occurs in `b` from `j` on, before any `@ / ? #`.
fn closes_at(b: &[u8], j: usize) -> (r: bool)
    ensures
        r == closes_from(b@, j as int),
{
    let n = b.len();
    let mut k: usize = j;
    while k < n
        invariant
            n == b@.len(),
            j <= k,
            closes_from(b@, j as int) == closes_from(b@, k as int),
        decreases n - k,
    {
        if b[k] == 93 {
            return true;
        }
        if b[k] == 64 || b[k] == 47 || b[k] == 63 || b[k] == 35 {
            return false;
        }
        k = k + 1;
    }
    false
}

/// Whether each `@[` that can lie in the authority of `b` is closed by a
/// `]` before the next `@ / ? #`.
fn check_brackets(b: &[u8]) -> (r: bool)
    ensures
        r == brackets_closed(b@),
{
    let n = b.len();
    let e0 = first_end_from(b, 0);
    let has_scheme = e0 >= 1 && e0 < n && n - e0 > 1 && b[e0 - 1] == 58 && b[e0] == 47 && b[e0 + 1] == 47;
    let e1 = if has_scheme {
        first_end_from(b, e0 + 2)
    } else {
        0
    };
    proof {
        assert forall|k: int| scheme_end_at(b@, k) implies has_scheme && k == e0 - 1 by {
            if k + 1 < e0 {
                assert(!ends_authority(b@[k + 1]));
            }
            if k + 1 > e0 {
                assert(!ends_authority(b@[e0 as int]));
            }
        }
        if has_scheme {
            assert(scheme_end_at(b@, e0 - 1));
        }
    }
    let mut i: usize = 0;
    while i < n
        invariant
            n == b@.len(),
            i <= n,
            no_end_between(b@, 0, e0 as int),
            e0 <= n,
            e0 < n ==> ends_authority(b@[e0 as int]),
            has_scheme ==> scheme_end_at(b@, e0 - 1) && e0 + 2 <= e1 <= n && no_end_between(
                b@,
                e0 + 2,
                e1 as int,
            ) && (e1 < n ==> ends_authority(b@[e1 as int])),
            forall|k: int| scheme_end_at(b@, k) ==> has_scheme && k == e0 - 1,
            forall|m: int|
                0 <= m < i && m + 1 < b@.len() && b@[m] == 64 && b@[m + 1] == 91 && in_authority(
                    b@,
                    m,
                ) ==> #[trigger] closes_from(b@, m + 2),
        decreases n - i,
    {
        let inside = i <= e0 || (has_scheme && e0 + 2 <= i && i <= e1);
        proof {
            let ii = i as int;
            if i <= e0 {
                assert(no_end_between(b@, 0, ii));
            } else {
                assert(!no_end_between(b@, 0, ii)) by {
                    assert(ends_authority(b@[e0 as int]));
                }
            }
            if has_scheme && e0 + 2 <= i && i <= e1 {
                assert(no_end_between(b@, e0 - 1 + 3, ii));
            }
            if in_authority(b@, ii) && !(i <= e0) {
                let k = choose|k: int|
                    scheme_end_at(b@, k) && k + 3 <= ii && #[trigger] no_end_between(b@, k + 3, ii);
                assert(k == e0 - 1);
                if i > e1 {
                    assert(!ends_authority(b@[e1 as int]));
                }
            }
            assert(inside == in_authority(b@, ii));
        }
        if inside && b[i] == 64 && i + 1 < n && b[i + 1] == 91 {
            if !closes_at(b, i + 2) {
                assert(!closes_from(b@, i + 2));
                return false;
            }
        }
        i = i + 1;
    }
    true
}

/// A character that a scheme may hold.
pub open spec fn scheme_char(c: char) -> bool {
    ('a' <= c <= 'z') || ('A' <= c <= 'Z') || ('0' <= c <= '9') || c == '+' || c == '-' || c
        == '.' || c == '~'
}

/// A text that parses as a URI scheme: at most 64 characters, each a
/// letter, a digit, or one of `+ - . ~`.
pub open spec fn valid_scheme(s: Seq<char>) -> bool {
    s.len() <= 64 && forall|i: int| 0 <= i < s.len() ==> scheme_char(#[trigger] s[i])
}

/// Relies on `http::Uri::from_str`, then reads the scheme, host, port and
/// path with query of the parsed URI.
#[verifier::external_body]
fn parse_uri(s: &str) -> (r: Option<(Option<String>, Option<String>, Option<u16>, Option<String>)>)
    requires
        brackets_closed(utf8(s@)),
    ensures
        match r {
            Some(p) => uri_parts_of(s@) == Some(
                (
                    match p.0 {
                        Some(x) => Some(x@),
                        None => None,
                    },
                    match p.1 {
                        Some(x) => Some(x@),
                        None => None,
                    },
                    p.2,
                    match p.3 {
                        Some(x) => Some(x@),
                        None => None,
                    },
                ),
            ),
            None => uri_parts_of(s@) is None,
        },
{
    let uri = s.parse::<http::Uri>().ok()?;
    Some((
        uri.scheme_part().map(|x| x.as_str().to_string()),
        uri.host().map(|x| x.to_string()),
        uri.port_u16(),
        uri.path_and_query().map(|x| x.as_str().to_string()),
    ))
}

/// Relies on `http::uri::Scheme::from_str`, which accepts exactly the texts
/// of `valid_scheme` and keeps the text as given.
#[verifier::external_body]
fn scheme_parses(s: &str) -> (r: bool)
    ensures
        r == valid_scheme(s@),
{
    s.parse::<http::uri::Scheme>().is_ok()
}

/// Relies on `http::uri::Authority::from_shared`, then reads the host and
/// port of the parsed authority. An empty text is refused. Where the text
/// holds no `@` and does not start with `[`, its host is the text up to its
/// first `:`. Where it ends with `:` and the decimal digits of a port, that
/// is its port: the port is read after the last `:`.
#[verifier::external_body]
fn parse_authority(b: Vec<u8>) -> (r: Option<(String, Option<u16>)>)
    requires
        brackets_closed(b@),
    ensures
        match r {
            Some(p) => authority_of(b@) == Some((p.0@, p.1)),
            None => authority_of(b@) is None,
        },
        b@.len() == 0 ==> r is None,
        r is Some && lacks(b@, 64) && b@[0] != 91 ==> utf8(r->Some_0.0@) == b@.take(
            find_byte(b@, 58),
        ),
        forall|x: Seq<u8>, n: u16|
            r is Some && #[trigger] port_text(x, n) == b@ ==> r->Some_0.1 == Some(n),
{
    let auth = http::uri::Authority::from_shared(bytes::Bytes::from(b)).ok()?;
    Some((auth.host().to_string(), auth.port_u16()))
}

/// The parts of a parsed URI, each where present.
pub struct UriParts {
    pub scheme: Option<String>,
    pub host: Option<String>,
    pub port: Option<u16>,
    pub path_and_query: Option<String>,
}

/// The view of an optional text.
pub open spec fn opt_text(o: Option<String>) -> Option<Seq<char>> {
    match o {
        Some(x) => Some(x@),
        None => None,
    }
}

impl UriParts {
    /// The parts of `uri`, where it parses as a URI; `None` also where a
    /// `@[` in it is left unclosed.
    pub fn parse(uri: &str) -> (r: Option<UriParts>)
        ensures
            !brackets_closed(utf8(uri@)) ==> r is None,
            brackets_closed(utf8(uri@)) ==> match r {
                Some(p) => uri_parts_of(uri@) == Some(
                    (opt_text(p.scheme), opt_text(p.host), p.port, opt_text(p.path_and_query)),
                ),
                None => uri_parts_of(uri@) is None,
            },
    {
        if !check_brackets(uri.as_bytes()) {
            return None;
        }
        match parse_uri(uri) {
            Some((scheme, host, port, path_and_query)) => Some(
                UriParts { scheme, host, port, path_and_query },
            ),
            None => None,
        }
    }
}

/// A destination could not be built or changed.
#[derive(Debug, Clone, Copy, PartialEq, Eq, Structural)]
pub enum Error {
    Parse,
}

/// What a destination holds.
pub struct DestinationView {
    pub scheme: Seq<char>,
    pub host: Seq<char>,
    pub port: Option<u16>,
    pub path_and_query: Seq<char>,
}

/// The target of a connection, as parts of an absolute URI.
#[derive(Debug)]
pub struct Destination {
    scheme: String,
    host: String,
    port: Option<u16>,
    path_and_query: String,
}

impl View for Destination {
    type V = DestinationView;

    closed spec fn view(&self) -> DestinationView {
        DestinationView {
            scheme: self.scheme@,
            host: self.host@,
            port: self.port,
            path_and_query: self.path_and_query@,
        }
    }
}

/// The bytes `<x>:<port>`.
pub open spec fn port_text(x: Seq<u8>, port: u16) -> Seq<u8> {
    x + seq![58u8] + decimal(port as nat)
}

/// The bytes `<host>:<port>`.
pub open spec fn host_with_port(host: Seq<char>, port: u16) -> Seq<u8> {
    port_text(utf8(host), port)
}

/// The destination that `uri` names, where it parses with a scheme and a
/// host. A path left out reads as `/`.
pub open spec fn destination_of(uri: Seq<char>) -> Option<DestinationView> {
    if !brackets_closed(utf8(uri)) {
        None
    } else {
    match uri_parts_of(uri) {
        Some((Some(scheme), Some(host), port, path)) => Some(
            DestinationView {
                scheme,
                host,
                port,
                path_and_query: match path {
                    Some(p) => p,
                    None => "/"@,
                },
            },
        ),
        _ => None,
    }
    }
}

/// A host written without `@`, `:` or a leading `[`.
pub open spec fn plain_host(b: Seq<u8>) -> bool {
    lacks(b, 64) && lacks(b, 58) && !(b.len() > 0 && b[0] == 91)
}

/// The result of setting host `h` on destination `d`: refused where `h`
/// holds `@`; where `d` has a port, `h` joined to that port must parse as
/// an authority; else `h` must parse as an authority without a port.
pub open spec fn set_host_spec(d: DestinationView, h: Seq<char>) -> Option<DestinationView> {
    if h.contains('@') {
        None
    } else {
        match d.port {
            Some(p) => if !brackets_closed(host_with_port(h, p)) {
                None
            } else {
                match authority_of(host_with_port(h, p)) {
                    Some((host, port)) => Some(DestinationView { host, port, ..d }),
                    None => None,
                }
            },
            None => if !brackets_closed(utf8(h)) {
                None
            } else {
                match authority_of(utf8(h)) {
                    Some((host, None)) => Some(DestinationView { host, ..d }),
                    _ => None,
                }
            },
        }
    }
}

impl Destination {
    /// The destination that `uri` names; fails where it does not parse or
    /// lacks a scheme or a host.
    pub fn parse(uri: &str) -> (r: Result<Destination, Error>)
        ensures
            match destination_of(uri@) {
                Some(d) => r is Ok && r->Ok_0@ == d,
                None => r == Err::<Destination, Error>(Error::Parse),
            },
    {
        match UriParts::parse(uri) {
            Some(UriParts { scheme: Some(scheme), host: Some(host), port, path_and_query: path }) => {
                let path_and_query = match path {
                    Some(p) => p,
                    None => "/".to_owned(),
                };
                Ok(Destination { scheme, host, port, path_and_query })
            },
            _ => Err(Error::Parse),
        }
    }

    /// A copy of this destination.
    pub fn duplicate(&self) -> (r: Destination)
        ensures
            r@ == self@,
    {
        Destination {
            scheme: self.scheme.clone(),
            host: self.host.clone(),
            port: self.port,
            path_and_query: self.path_and_query.clone(),
        }
    }

    /// The protocol scheme.
    pub fn scheme(&self) -> (r: &str)
        ensures
            r@ == self@.scheme,
    {
        self.scheme.as_str()
    }

    /// The host name.
    pub fn host(&self) -> (r: &str)
        ensures
            r@ == self@.host,
    {
        self.host.as_str()
    }

    /// The port, where one is given.
    pub fn port(&self) -> (r: Option<u16>)
        ensures
            r == self@.port,
    {
        self.port
    }

    /// The path with its query.
    pub fn path_and_query(&self) -> (r: &str)
        ensures
            r@ == self@.path_and_query,
    {
        self.path_and_query.as_str()
    }

    /// Sets the scheme; refused, with nothing changed, where `scheme` is not
    /// a valid scheme.
    pub fn set_scheme(&mut self, scheme: &str) -> (r: Result<(), Error>)
        ensures
            valid_scheme(scheme@) ==> r is Ok && final(self)@ == (DestinationView {
                scheme: scheme@,
                ..old(self)@
            }),
            !valid_scheme(scheme@) ==> r == Err::<(), Error>(Error::Parse) && final(self)@
                == old(self)@,
    {
        if scheme_parses(scheme) {
            self.scheme = scheme.to_owned();
            Ok(())
        } else {
            Err(Error::Parse)
        }
    }

    /// Sets the host; refused, with nothing changed, where `host` holds
    /// user information or does not make a valid authority.
    pub fn set_host(&mut self, host: &str) -> (r: Result<(), Error>)
        ensures
            match set_host_spec(old(self)@, host@) {
                Some(d) => r is Ok && final(self)@ == d,
                None => r == Err::<(), Error>(Error::Parse) && final(self)@ == old(self)@,
            },
            r is Ok && plain_host(utf8(host@)) ==> final(self)@.host == host@,
            r is Ok ==> final(self)@.port == old(self)@.port,
    {
        if has_char(host, '@') {
            return Err(Error::Parse);
        }
        match self.port {
            Some(p) => {
                let mut text: Vec<u8> = Vec::new();
                append_str(&mut text, host);
                text.push(58);
                append_decimal(&mut text, p);
                assert(text@ =~= host_with_port(host@, p));
                if !check_brackets(text.as_slice()) {
                    return Err(Error::Parse);
                }
                let ghost bytes = text@;
                match parse_authority(text) {
                    Some((h, port)) => {
                        proof {
                            assert(port_text(utf8(host@), p) == bytes);
                            let u = utf8(host@);
                            if plain_host(u) {
                                assert(bytes[u.len() as int] == 58);
                                assert forall|j: int| 0 <= j < u.len() implies bytes[j] != 58 by {
                                    assert(bytes[j] == u[j]);
                                }
                                lemma_find_byte(bytes, 58, u.len() as int);
                                assert forall|j: int| 0 <= j < bytes.len() implies bytes[j] != 64 by {
                                    if j < u.len() {
                                        assert(bytes[j] == u[j]);
                                    } else if j > u.len() {
                                        let k = j - u.len() - 1;
                                        assert(bytes[j] == decimal(p as nat)[k]);
                                        lemma_decimal_digits(p as nat);
                                    }
                                }
                                if u.len() > 0 {
                                    assert(bytes[0] == u[0]);
                                }
                                assert(bytes.take(u.len() as int) =~= u);
                                vstd::utf8::encode_utf8_decode_utf8(h@);
                                vstd::utf8::encode_utf8_decode_utf8(host@);
                            }
                        }
                        self.host = h;
                        self.port = port;
                        Ok(())
                    },
                    None => Err(Error::Parse),
                }
            },
            None => {
                let mut text: Vec<u8> = Vec::new();
                append_str(&mut text, host);
                assert(text@ =~= utf8(host@));
                if !check_brackets(text.as_slice()) {
                    return Err(Error::Parse);
                }
                let ghost bytes = text@;
                match parse_authority(text) {
                    Some((h, None)) => {
                        proof {
                            if plain_host(bytes) {
                                lemma_find_byte(bytes, 58, bytes.len() as int);
                                assert(bytes.take(bytes.len() as int) =~= bytes);
                                vstd::utf8::encode_utf8_decode_utf8(h@);
                                vstd::utf8::encode_utf8_decode_utf8(host@);
                            }
                        }
                        self.host = h;
                        Ok(())
                    },
                    _ => Err(Error::Parse),
                }
            },
        }
    }

    /// Sets the port, or removes it with `None`; the host stays.
    pub fn set_port(&mut self, port: Option<u16>)
        ensures
            final(self)@ == (DestinationView { port, ..old(self)@ }),
    {
        self.port = port;
    }
}

} // verus!
