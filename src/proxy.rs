//! Which proxy, if any, a destination goes through, and how to reach it.
use vstd::prelude::*;
use std::sync::Arc;
use crate::destination::{plain_host, Destination, DestinationView, UriParts, opt_text, valid_scheme, set_host_spec};
use crate::request::{lower_of, lowercase};
use crate::text::{has_char, no_line_break, same_text, utf8};
use crate::tunnel::{self, TunnelConnect, check_headers, connect_request, headers_clean};

verus! {

#[verifier::external_type_specification]
#[verifier::external_body]
pub struct ExTlsConnector(native_tls::TlsConnector);

#[verifier::external_type_specification]
#[verifier::external_body]
pub struct ExCredentials(typed_headers::Credentials);

/// Relies on `native_tls::TlsConnectorBuilder::build`, with default
/// settings; `None` where it fails.
#[verifier::external_body]
fn default_tls() -> (r: Option<native_tls::TlsConnector>) {
    native_tls::TlsConnector::builder().build().ok()
}

/// Relies on the `Display` of `typed_headers::Credentials`: the text of an
/// authorization header value.
#[verifier::external_body]
fn credentials_text(credentials: &typed_headers::Credentials) -> (r: String) {
    credentials.to_string()
}

/// The view of an optional text slice.
pub open spec fn opt_str(o: Option<&str>) -> Option<Seq<char>> {
    match o {
        Some(x) => Some(x@),
        None => None,
    }
}

/// What a proxy rule is matched against: a scheme, a host and a port.
pub trait Dst {
    spec fn scheme_view(&self) -> Option<Seq<char>>;

    spec fn host_view(&self) -> Option<Seq<char>>;

    spec fn port_view(&self) -> Option<u16>;

    /// The connection scheme, e.g. `http` or `https`.
    fn scheme(&self) -> (r: Option<&str>)
        ensures
            opt_str(r) == self.scheme_view(),
    ;

    /// The host of the connection.
    fn host(&self) -> (r: Option<&str>)
        ensures
            opt_str(r) == self.host_view(),
    ;

    /// The port of the connection.
    fn port(&self) -> (r: Option<u16>)
        ensures
            r == self.port_view(),
    ;
}

impl Dst for UriParts {
    open spec fn scheme_view(&self) -> Option<Seq<char>> {
        opt_text(self.scheme)
    }

    open spec fn host_view(&self) -> Option<Seq<char>> {
        opt_text(self.host)
    }

    open spec fn port_view(&self) -> Option<u16> {
        self.port
    }

    fn scheme(&self) -> (r: Option<&str>) {
        match &self.scheme {
            Some(s) => Some(s.as_str()),
            None => None,
        }
    }

    fn host(&self) -> (r: Option<&str>) {
        match &self.host {
            Some(s) => Some(s.as_str()),
            None => None,
        }
    }

    fn port(&self) -> (r: Option<u16>) {
        self.port
    }
}

impl Dst for Destination {
    open spec fn scheme_view(&self) -> Option<Seq<char>> {
        Some(self@.scheme)
    }

    open spec fn host_view(&self) -> Option<Seq<char>> {
        Some(self@.host)
    }

    open spec fn port_view(&self) -> Option<u16> {
        self@.port
    }

    fn scheme(&self) -> (r: Option<&str>) {
        Some(Destination::scheme(self))
    }

    fn host(&self) -> (r: Option<&str>) {
        Some(Destination::host(self))
    }

    fn port(&self) -> (r: Option<u16>) {
        Destination::port(self)
    }
}

/// A rule of the user's own on scheme, host and port, for `Intercept::Custom`.
/// Its answers are the user's: the connector's contracts take them as given.
pub trait InterceptRule: Send + Sync {
    /// Whether a connection with these parts goes through the proxy.
    fn check(&self, scheme: Option<&str>, host: Option<&str>, port: Option<u16>) -> bool;
}

/// A custom rule deciding which connections go through a proxy.
pub struct Custom(pub Arc<dyn InterceptRule>);

/// Which connections go through a proxy.
pub enum Intercept {
    /// All of them.
    All,
    /// Those with scheme `http`.
    Http,
    /// Those with scheme `https`.
    Https,
    /// None.
    Disabled,
    /// Those that a rule of the user's own picks.
    Custom(Custom),
}

/// What a built-in rule decides on a connection with `scheme`; `None` for a
/// custom rule, whose answer is the user's.
pub open spec fn builtin_match(i: &Intercept, scheme: Option<Seq<char>>) -> Option<bool> {
    match i {
        Intercept::All => Some(true),
        Intercept::Http => Some(scheme == Some("http"@)),
        Intercept::Https => Some(scheme == Some("https"@)),
        Intercept::Disabled => Some(false),
        Intercept::Custom(_) => None,
    }
}

impl Intercept {
    /// Whether a connection to `uri` goes through the proxy.
    pub fn matches<D: Dst>(&self, uri: &D) -> (r: bool)
        ensures
            builtin_match(self, uri.scheme_view()) is Some ==> r == builtin_match(
                self,
                uri.scheme_view(),
            )->Some_0,
    {
        match self {
            Intercept::All => true,
            Intercept::Http => match uri.scheme() {
                Some(s) => same_text(s, "http"),
                None => false,
            },
            Intercept::Https => match uri.scheme() {
                Some(s) => same_text(s, "https"),
                None => false,
            },
            Intercept::Disabled => false,
            Intercept::Custom(c) => c.0.check(uri.scheme(), uri.host(), uri.port()),
        }
    }
}


/// The view of a header list.
pub open spec fn headers_view(hs: Seq<(String, String)>) -> Seq<(Seq<char>, Seq<char>)> {
    hs.map_values(|h: (String, String)| (h.0@, h.1@))
}

/// Some header of `hs` is named `name`.
pub open spec fn has_header(hs: Seq<(Seq<char>, Seq<char>)>, name: Seq<char>) -> bool {
    exists|i: int| 0 <= i < hs.len() && #[trigger] hs[i].0 == name
}

/// `hs` with the first header named `name` given `value` in its place, the
/// later ones of that name removed, and the others kept in their order.
pub open spec fn replace_header(
    hs: Seq<(Seq<char>, Seq<char>)>,
    name: Seq<char>,
    value: Seq<char>,
) -> Seq<(Seq<char>, Seq<char>)>
    decreases hs.len(),
{
    if hs.len() == 0 {
        Seq::empty()
    } else if hs.last().0 == name {
        if has_header(hs.drop_last(), name) {
            replace_header(hs.drop_last(), name, value)
        } else {
            hs.drop_last().push((name, value))
        }
    } else {
        replace_header(hs.drop_last(), name, value).push(hs.last())
    }
}

/// `hs` with header `name` set to `value` alone: in the place of the first
/// header of that name, or last where there is none.
pub open spec fn set_header_spec(
    hs: Seq<(Seq<char>, Seq<char>)>,
    name: Seq<char>,
    value: Seq<char>,
) -> Seq<(Seq<char>, Seq<char>)> {
    if has_header(hs, name) {
        replace_header(hs, name, value)
    } else {
        hs.push((name, value))
    }
}

proof fn lemma_replace_absent(hs: Seq<(Seq<char>, Seq<char>)>, name: Seq<char>, value: Seq<char>)
    requires
        !has_header(hs, name),
    ensures
        replace_header(hs, name, value) == hs,
    decreases hs.len(),
{
    if hs.len() > 0 {
        assert(hs.last() == hs[hs.len() - 1]);
        assert(!has_header(hs.drop_last(), name)) by {
            if has_header(hs.drop_last(), name) {
                let i = choose|i: int| 0 <= i < hs.drop_last().len() && #[trigger] hs.drop_last()[i].0 == name;
                assert(hs[i].0 == name);
            }
        }
        lemma_replace_absent(hs.drop_last(), name, value);
        assert(hs.drop_last().push(hs.last()) =~= hs);
    }
}

/// `hs` with the authorization headers set to `value`: `authorization` for
/// a proxy of plain connections, `proxy-authorization` for one of secure
/// connections, and both for any other.
pub open spec fn with_authorization(
    hs: Seq<(Seq<char>, Seq<char>)>,
    intercept: &Intercept,
    value: Seq<char>,
) -> Seq<(Seq<char>, Seq<char>)> {
    match intercept {
        Intercept::Http => set_header_spec(hs, "authorization"@, value),
        Intercept::Https => set_header_spec(hs, "proxy-authorization"@, value),
        _ => set_header_spec(
            set_header_spec(hs, "authorization"@, value),
            "proxy-authorization"@,
            value,
        ),
    }
}

/// A proxy: which connections it takes, the headers it must be sent, and
/// where it is.
pub struct Proxy {
    pub intercept: Intercept,
    pub headers: Vec<(String, String)>,
    pub uri: UriParts,
}

/// Sets header `name` to `value` alone in `headers`.
fn put_header(headers: &Vec<(String, String)>, name: String, value: String) -> (r: Vec<
    (String, String),
>)
    ensures
        headers_view(r@) == set_header_spec(headers_view(headers@), name@, value@),
{
    let mut out: Vec<(String, String)> = Vec::new();
    let mut seen = false;
    let mut i: usize = 0;
    while i < headers.len()
        invariant
            i <= headers@.len(),
            seen == has_header(headers_view(headers@.take(i as int)), name@),
            headers_view(out@) == replace_header(
                headers_view(headers@.take(i as int)),
                name@,
                value@,
            ),
        decreases headers@.len() - i,
    {
        let ghost prefix = headers_view(headers@.take(i as int));
        let ghost next = headers_view(headers@.take(i + 1));
        assert(next.drop_last() =~= prefix);
        assert(next.last() == (headers@[i as int].0@, headers@[i as int].1@));
        assert(has_header(next, name@) == (has_header(prefix, name@) || headers@[i as int].0@
            == name@)) by {
            if has_header(next, name@) {
                let k = choose|k: int| 0 <= k < next.len() && #[trigger] next[k].0 == name@;
                if k < i {
                    assert(prefix[k] == next[k]);
                }
            }
            if has_header(prefix, name@) {
                let k = choose|k: int| 0 <= k < prefix.len() && #[trigger] prefix[k].0 == name@;
                assert(next[k] == prefix[k]);
            }
            if headers@[i as int].0@ == name@ {
                assert(next[i as int].0 == name@);
            }
        }
        if headers[i].0 == name {
            if !seen {
                proof {
                    lemma_replace_absent(prefix, name@, value@);
                }
                out.push((name.clone(), value.clone()));
                seen = true;
            }
        } else {
            let h = (headers[i].0.clone(), headers[i].1.clone());
            out.push(h);
        }
        i = i + 1;
        assert(headers_view(out@) =~= replace_header(next, name@, value@));
    }
    assert(headers@.take(headers@.len() as int) =~= headers@);
    if !seen {
        proof {
            lemma_replace_absent(headers_view(headers@), name@, value@);
        }
        out.push((name, value));
    }
    assert(headers_view(out@) =~= set_header_spec(headers_view(headers@), name@, value@));
    out
}

impl Proxy {
    /// A proxy at `uri` taking the connections that `intercept` picks, with no
    /// extra headers.
    pub fn new(intercept: Intercept, uri: UriParts) -> (r: Proxy)
        ensures
            r.intercept == intercept,
            r.uri == uri,
            r.headers@.len() == 0,
    {
        Proxy { intercept, headers: Vec::new(), uri }
    }

    /// Sets header `name`, in lower case, to `value`, in place of any header
    /// of that name. Neither may hold a line break, which would end the
    /// header line.
    pub fn set_header(&mut self, name: String, value: String)
        requires
            no_line_break(name@),
            no_line_break(value@),
        ensures
            headers_view(final(self).headers@) == set_header_spec(
                headers_view(old(self).headers@),
                lower_of(name@),
                value@,
            ),
            final(self).intercept == old(self).intercept,
            final(self).uri == old(self).uri,
    {
        let lower = lowercase(name.as_str());
        let headers = put_header(&self.headers, lower, value);
        self.headers = headers;
    }

    /// Sets header `name`, already in lower case, to `value`.
    fn put(&mut self, name: String, value: String)
        ensures
            headers_view(final(self).headers@) == set_header_spec(
                headers_view(old(self).headers@),
                name@,
                value@,
            ),
            final(self).intercept == old(self).intercept,
            final(self).uri == old(self).uri,
    {
        let headers = put_header(&self.headers, name, value);
        self.headers = headers;
    }

    /// Sets the authorization headers to `value`: `authorization` for a proxy
    /// of plain connections, `proxy-authorization` for one of secure
    /// connections, and both for any other.
    pub fn set_authorization_value(&mut self, value: String)
        requires
            no_line_break(value@),
        ensures
            final(self).intercept == old(self).intercept,
            final(self).uri == old(self).uri,
            headers_view(final(self).headers@) == with_authorization(
                headers_view(old(self).headers@),
                &old(self).intercept,
                value@,
            ),
    {
        match self.intercept {
            Intercept::Http => {
                self.put("authorization".to_owned(), value);
            },
            Intercept::Https => {
                self.put("proxy-authorization".to_owned(), value);
            },
            _ => {
                self.put("authorization".to_owned(), value.clone());
                self.put("proxy-authorization".to_owned(), value);
            },
        }
    }

    /// Sets the authorization headers to `credentials`, as
    /// `set_authorization_value` does with their text; a text holding a line
    /// break is not set, and `false` is returned.
    pub fn set_authorization(&mut self, credentials: &typed_headers::Credentials) -> (r: bool)
        ensures
            final(self).intercept == old(self).intercept,
            final(self).uri == old(self).uri,
            !r ==> final(self).headers == old(self).headers,
            r ==> exists|value: Seq<char>|
                no_line_break(value) && headers_view(final(self).headers@)
                    == #[trigger] with_authorization(
                    headers_view(old(self).headers@),
                    &old(self).intercept,
                    value,
                ),
    {
        let value = credentials_text(credentials);
        if has_char(value.as_str(), '\r') || has_char(value.as_str(), '\n') {
            return false;
        }
        self.set_authorization_value(value);
        true
    }

    /// Which connections the proxy takes.
    pub fn intercept(&self) -> (r: &Intercept)
        ensures
            *r == self.intercept,
    {
        &self.intercept
    }

    /// The headers that the proxy must be sent.
    pub fn headers(&self) -> (r: &Vec<(String, String)>)
        ensures
            *r == self.headers,
    {
        &self.headers
    }

    /// Where the proxy is.
    pub fn uri(&self) -> (r: &UriParts)
        ensures
            *r == self.uri,
    {
        &self.uri
    }
}


/// Why a connection through a proxy could not be planned.
#[derive(Debug, Clone, Copy, PartialEq, Eq, Structural)]
pub enum ProxyError {
    /// The TLS connector could not be built.
    Tls,
    /// The proxy's URI has no scheme.
    MissingScheme,
    /// The proxy's URI has no host.
    MissingHost,
    /// The proxy's scheme or host does not fit a destination.
    Parse,
    /// A header for the proxy holds a line break.
    Header,
}

/// The destination `dst` turned towards the proxy at `proxy`: its scheme,
/// host and port.
pub open spec fn proxy_dst_spec(dst: DestinationView, proxy: UriParts) -> Result<
    DestinationView,
    ProxyError,
> {
    match opt_text(proxy.scheme) {
        None => Err(ProxyError::MissingScheme),
        Some(scheme) => if !valid_scheme(scheme) {
            Err(ProxyError::Parse)
        } else {
            match opt_text(proxy.host) {
                None => Err(ProxyError::MissingHost),
                Some(host) => match set_host_spec(DestinationView { scheme, ..dst }, host) {
                    None => Err(ProxyError::Parse),
                    Some(d) => Ok(DestinationView { port: proxy.port, ..d }),
                },
            }
        },
    }
}

/// Turns `dst` towards the proxy at `proxy`.
pub fn proxy_dst(dst: &Destination, proxy: &UriParts) -> (r: Result<Destination, ProxyError>)
    ensures
        match r {
            Ok(d) => proxy_dst_spec(dst@, *proxy) == Ok::<DestinationView, ProxyError>(d@),
            Err(e) => proxy_dst_spec(dst@, *proxy) == Err::<DestinationView, ProxyError>(e),
        },
        r is Ok && proxy.host is Some && plain_host(utf8(proxy.host->Some_0@)) ==> r->Ok_0@.host
            == proxy.host->Some_0@,
{
    let mut d = dst.duplicate();
    match &proxy.scheme {
        Some(s) => {
            if d.set_scheme(s.as_str()).is_err() {
                return Err(ProxyError::Parse);
            }
        },
        None => {
            return Err(ProxyError::MissingScheme);
        },
    }
    match &proxy.host {
        Some(h) => {
            if d.set_host(h.as_str()).is_err() {
                return Err(ProxyError::Parse);
            }
        },
        None => {
            return Err(ProxyError::MissingHost);
        },
    }
    d.set_port(proxy.port);
    Ok(d)
}

/// How a connection is to be made.
pub enum Route {
    /// No proxy applies: connect to the destination itself.
    Direct(Destination),
    /// Connect to the proxy, which reads the plain requests.
    Forward(Destination),
    /// Connect to the proxy, open a tunnel with `connect`, then, where TLS is
    /// set, a TLS session with `host`.
    Tunnel { proxy: Destination, connect: TunnelConnect, host: String },
}

/// What a `Route` holds.
pub enum RouteView {
    Direct(DestinationView),
    Forward(DestinationView),
    Tunnel(DestinationView, Seq<u8>, Seq<char>),
}

/// The view of a planned route.
pub open spec fn route_view(r: Result<Route, ProxyError>) -> Result<RouteView, ProxyError> {
    match r {
        Ok(Route::Direct(d)) => Ok(RouteView::Direct(d@)),
        Ok(Route::Forward(d)) => Ok(RouteView::Forward(d@)),
        Ok(Route::Tunnel { proxy, connect, host }) => Ok(RouteView::Tunnel(proxy@, connect@, host@)),
        Err(e) => Err(e),
    }
}

/// The route to `dst` where `proxy` is the proxy that applies: straight to
/// `dst` without one; a tunnel through it for `https`, to port 443 where
/// `dst` gives none, refused where a header for the proxy holds a line
/// break; else plain requests through it.
pub open spec fn route_spec(dst: DestinationView, proxy: Option<Proxy>) -> Result<RouteView, ProxyError> {
    match proxy {
        None => Ok(RouteView::Direct(dst)),
        Some(p) => match proxy_dst_spec(dst, p.uri) {
            Err(e) => Err(e),
            Ok(pd) => if dst.scheme == "https"@ && !headers_clean(p.headers@) {
                Err(ProxyError::Header)
            } else if dst.scheme == "https"@ {
                Ok(
                    RouteView::Tunnel(
                        pd,
                        connect_request(
                            dst.host,
                            match dst.port {
                                Some(port) => port,
                                None => 443,
                            },
                            p.headers@,
                        ),
                        dst.host,
                    ),
                )
            } else {
                Ok(RouteView::Forward(pd))
            },
        },
    }
}

/// `takes` holds one answer per proxy on a connection with `scheme`: that
/// of its rule where the rule is built in; a custom rule's answer is
/// whatever the user's rule gave.
pub open spec fn answers_fit(proxies: Seq<Proxy>, scheme: Option<Seq<char>>, takes: Seq<bool>) -> bool {
    takes.len() == proxies.len() && forall|j: int|
        0 <= j < proxies.len() && #[trigger] builtin_match(&proxies[j].intercept, scheme) is Some
            ==> takes[j] == builtin_match(&proxies[j].intercept, scheme)->Some_0
}

/// `i` is the first position of `true` in `takes`.
pub open spec fn is_first_true(takes: Seq<bool>, i: int) -> bool {
    0 <= i < takes.len() && takes[i] && forall|j: int| 0 <= j < i ==> !takes[j]
}

/// The first position of `true` in `takes`, if any.
pub open spec fn first_true(takes: Seq<bool>) -> Option<int> {
    if exists|i: int| is_first_true(takes, i) {
        Some(choose|i: int| is_first_true(takes, i))
    } else {
        None
    }
}

proof fn lemma_first_true(takes: Seq<bool>, r: Option<int>)
    requires
        match r {
            Some(i) => is_first_true(takes, i),
            None => forall|j: int| 0 <= j < takes.len() ==> !takes[j],
        },
    ensures
        first_true(takes) == r,
{
    if exists|i: int| is_first_true(takes, i) {
        let k = choose|i: int| is_first_true(takes, i);
        assert(is_first_true(takes, k));
        match r {
            Some(i) => {
                if k < i {
                    assert(!takes[k]);
                } else if k > i {
                    assert(!takes[i]);
                }
            },
            None => {
                assert(!takes[k]);
            },
        }
    } else {
        match r {
            Some(i) => {
                assert(is_first_true(takes, i));
            },
            None => {},
        }
    }
}

/// Refusals before `i`, `true` at `i`, and the built-in answers after it.
spec fn answers_after(proxies: Seq<Proxy>, scheme: Option<Seq<char>>, i: int) -> Seq<bool> {
    Seq::new(
        proxies.len(),
        |j: int|
            if j < i {
                false
            } else if j == i {
                true
            } else {
                match builtin_match(&proxies[j].intercept, scheme) {
                    Some(b) => b,
                    None => false,
                }
            },
    )
}

/// The proxy at position `i`, if any.
pub open spec fn proxy_at(proxies: Seq<Proxy>, i: Option<int>) -> Option<Proxy> {
    match i {
        Some(k) => Some(proxies[k]),
        None => None,
    }
}

/// Connects through the first proxy whose rule takes the destination.
pub struct ProxyConnector<C> {
    proxies: Vec<Proxy>,
    connector: C,
    tls: Option<native_tls::TlsConnector>,
}

impl<C> ProxyConnector<C> {
    /// The proxies, in the order in which they are tried.
    pub closed spec fn proxy_list(&self) -> Seq<Proxy> {
        self.proxies@
    }

    /// Whether tunnels are wrapped in TLS.
    pub closed spec fn secured(&self) -> bool {
        self.tls is Some
    }

    /// The connector that reaches proxies and destinations.
    pub closed spec fn inner(&self) -> C {
        self.connector
    }

    /// A connector with no proxy yet, whose tunnels are wrapped in TLS.
    pub fn new(connector: C) -> (r: Result<Self, ProxyError>)
        ensures
            r is Ok ==> r->Ok_0.proxy_list().len() == 0 && r->Ok_0.secured() && r->Ok_0.inner()
                == connector,
            r is Err ==> r == Err::<Self, ProxyError>(ProxyError::Tls),
    {
        match default_tls() {
            Some(tls) => Ok(ProxyConnector { proxies: Vec::new(), connector, tls: Some(tls) }),
            None => Err(ProxyError::Tls),
        }
    }

    /// A connector with no proxy yet, without TLS.
    pub fn unsecured(connector: C) -> (r: Self)
        ensures
            r.proxy_list().len() == 0,
            !r.secured(),
            r.inner() == connector,
    {
        ProxyConnector { proxies: Vec::new(), connector, tls: None }
    }

    /// A connector with `proxy`, whose tunnels are wrapped in TLS.
    pub fn from_proxy(connector: C, proxy: Proxy) -> (r: Result<Self, ProxyError>)
        ensures
            r is Ok ==> r->Ok_0.proxy_list() == seq![proxy] && r->Ok_0.secured() && r->Ok_0.inner()
                == connector,
            r is Err ==> r == Err::<Self, ProxyError>(ProxyError::Tls),
    {
        match Self::new(connector) {
            Ok(mut c) => {
                c.proxies.push(proxy);
                assert(c.proxies@ =~= seq![proxy]);
                Ok(c)
            },
            Err(e) => Err(e),
        }
    }

    /// A connector with `proxy`, without TLS.
    pub fn from_proxy_unsecured(connector: C, proxy: Proxy) -> (r: Self)
        ensures
            r.proxy_list() == seq![proxy],
            !r.secured(),
            r.inner() == connector,
    {
        let mut c = Self::unsecured(connector);
        c.proxies.push(proxy);
        assert(c.proxies@ =~= seq![proxy]);
        c
    }

    /// The same proxies and TLS over another connector.
    pub fn with_connector<CC>(self, connector: CC) -> (r: ProxyConnector<CC>)
        ensures
            r.proxy_list() == self.proxy_list(),
            r.secured() == self.secured(),
            r.inner() == connector,
    {
        ProxyConnector { connector, proxies: self.proxies, tls: self.tls }
    }

    /// Sets or removes the TLS connector for tunnels.
    pub fn set_tls(&mut self, tls: Option<native_tls::TlsConnector>)
        ensures
            final(self).secured() == tls is Some,
            final(self).proxy_list() == old(self).proxy_list(),
            final(self).inner() == old(self).inner(),
    {
        self.tls = tls;
    }

    /// The TLS connector for tunnels, if any.
    pub fn tls(&self) -> (r: Option<&native_tls::TlsConnector>)
        ensures
            r is Some == self.secured(),
    {
        match &self.tls {
            Some(t) => Some(t),
            None => None,
        }
    }

    /// The connector that reaches proxies and destinations.
    pub fn connector(&self) -> (r: &C)
        ensures
            *r == self.inner(),
    {
        &self.connector
    }

    /// The proxies, in the order in which they are tried.
    pub fn proxies(&self) -> (r: &[Proxy])
        ensures
            r@ == self.proxy_list(),
    {
        self.proxies.as_slice()
    }

    /// Adds a proxy, tried after the others.
    pub fn add_proxy(&mut self, proxy: Proxy)
        ensures
            final(self).proxy_list() == old(self).proxy_list().push(proxy),
            final(self).secured() == old(self).secured(),
            final(self).inner() == old(self).inner(),
    {
        self.proxies.push(proxy);
    }

    /// Adds proxies, tried after the others in their order.
    pub fn extend_proxies(&mut self, proxies: Vec<Proxy>)
        ensures
            final(self).proxy_list() == old(self).proxy_list() + proxies@,
            final(self).secured() == old(self).secured(),
            final(self).inner() == old(self).inner(),
    {
        let mut more = proxies;
        self.proxies.append(&mut more);
    }

    /// The index of the first proxy whose rule takes `dst`. Rules are asked
    /// in order, up to the first that takes it.
    pub fn match_proxy<D: Dst>(&self, dst: &D) -> (r: Option<usize>)
        ensures
            exists|takes: Seq<bool>|
                answers_fit(self.proxy_list(), dst.scheme_view(), takes) && #[trigger] first_true(
                    takes,
                ) == match r {
                    Some(i) => Some(i as int),
                    None => None::<int>,
                },
            r is Some ==> r->Some_0 < self.proxy_list().len(),
    {
        let mut i: usize = 0;
        let ghost scheme = dst.scheme_view();
        while i < self.proxies.len()
            invariant
                i <= self.proxies@.len(),
                scheme == dst.scheme_view(),
                forall|j: int|
                    0 <= j < i ==> builtin_match(&self.proxies@[j].intercept, scheme) != Some(
                        true,
                    ),
            decreases self.proxies@.len() - i,
        {
            if self.proxies[i].intercept.matches(dst) {
                proof {
                    let takes = answers_after(self.proxies@, scheme, i as int);
                    assert(answers_fit(self.proxies@, scheme, takes));
                    lemma_first_true(takes, Some(i as int));
                }
                return Some(i);
            }
            i = i + 1;
        }
        proof {
            let takes = Seq::new(self.proxies@.len(), |j: int| false);
            assert(answers_fit(self.proxies@, scheme, takes));
            lemma_first_true(takes, None);
        }
        None
    }

    /// The index of the first proxy that takes the connection, given the
    /// answers `takes` of the proxies' rules, one per proxy.
    pub fn match_proxy_with(&self, takes: &Vec<bool>) -> (r: Option<usize>)
        ensures
            first_true(takes@) == match r {
                Some(i) => Some(i as int),
                None => None::<int>,
            },
    {
        let mut i: usize = 0;
        while i < takes.len()
            invariant
                i <= takes@.len(),
                forall|j: int| 0 <= j < i ==> !takes@[j],
            decreases takes@.len() - i,
        {
            if takes[i] {
                proof {
                    lemma_first_true(takes@, Some(i as int));
                }
                return Some(i);
            }
            i = i + 1;
        }
        proof {
            lemma_first_true(takes@, None);
        }
        None
    }

    /// The extra headers for a plain `http` request to `uri`: those of the
    /// first proxy that takes it; none for any other scheme.
    pub fn http_headers(&self, uri: &UriParts) -> (r: Option<&Vec<(String, String)>>)
        ensures
            opt_text(uri.scheme) != Some("http"@) ==> r is None,
            opt_text(uri.scheme) == Some("http"@) ==> exists|takes: Seq<bool>|
                answers_fit(self.proxy_list(), uri.scheme_view(), takes) && match proxy_at(
                    self.proxy_list(),
                    #[trigger] first_true(takes),
                ) {
                    Some(p) => r is Some && *r->Some_0 == p.headers,
                    None => r is None,
                },
    {
        match &uri.scheme {
            Some(s) => {
                if !same_text(s.as_str(), "http") {
                    return None;
                }
            },
            None => {
                return None;
            },
        }
        match self.match_proxy(uri) {
            Some(i) => Some(&self.proxies[i].headers),
            None => None,
        }
    }

    /// How to connect to `dst`: through the first proxy whose rule takes it,
    /// or straight.
    pub fn route(&self, dst: &Destination) -> (r: Result<Route, ProxyError>)
        ensures
            exists|takes: Seq<bool>|
                answers_fit(self.proxy_list(), Some(dst@.scheme), takes) && route_view(r)
                    == route_spec(dst@, proxy_at(self.proxy_list(), #[trigger] first_true(takes))),
    {
        let m = self.match_proxy(dst);
        self.route_via(dst, m)
    }

    /// How to connect to `dst` where the proxies' rules answered `takes`, one
    /// answer per proxy: through the first that takes it, or straight.
    pub fn route_with(&self, dst: &Destination, takes: &Vec<bool>) -> (r: Result<Route, ProxyError>)
        requires
            takes@.len() == self.proxy_list().len(),
        ensures
            route_view(r) == route_spec(dst@, proxy_at(self.proxy_list(), first_true(takes@))),
    {
        let m = self.match_proxy_with(takes);
        self.route_via(dst, m)
    }

    /// The route to `dst` through proxy `m`, or straight without one.
    fn route_via(&self, dst: &Destination, m: Option<usize>) -> (r: Result<Route, ProxyError>)
        requires
            m is Some ==> m->Some_0 < self.proxy_list().len(),
        ensures
            route_view(r) == route_spec(
                dst@,
                proxy_at(
                    self.proxy_list(),
                    match m {
                        Some(i) => Some(i as int),
                        None => None::<int>,
                    },
                ),
            ),
    {
        match m {
            None => Ok(Route::Direct(dst.duplicate())),
            Some(i) => {
                let p = &self.proxies[i];
                let pd = match proxy_dst(dst, &p.uri) {
                    Ok(d) => d,
                    Err(e) => {
                        return Err(e);
                    },
                };
                if same_text(dst.scheme(), "https") {
                    if !check_headers(&p.headers) {
                        return Err(ProxyError::Header);
                    }
                    let port = match dst.port() {
                        Some(port) => port,
                        None => 443,
                    };
                    let connect = tunnel::new(dst.host(), port, &p.headers);
                    Ok(Route::Tunnel { proxy: pd, connect, host: dst.host().to_owned() })
                } else {
                    Ok(Route::Forward(pd))
                }
            },
        }
    }
}

} // verus!
