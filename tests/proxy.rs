use std::sync::Arc;
use simple_http::destination::{Destination, UriParts};
use simple_http::proxy::{proxy_dst, Custom, Intercept, InterceptRule, Proxy, ProxyConnector, ProxyError, Route};

struct OnlyHost(&'static str);

impl InterceptRule for OnlyHost {
    fn check(&self, _scheme: Option<&str>, host: Option<&str>, _port: Option<u16>) -> bool {
        host == Some(self.0)
    }
}

fn proxy(intercept: Intercept, uri: &str) -> Proxy {
    Proxy::new(intercept, UriParts::parse(uri).unwrap())
}

#[test]
fn intercept_rules() {
    let http = Destination::parse("http://a.com/").unwrap();
    let https = Destination::parse("https://a.com/").unwrap();
    assert!(Intercept::All.matches(&http));
    assert!(Intercept::Http.matches(&http));
    assert!(!Intercept::Http.matches(&https));
    assert!(Intercept::Https.matches(&https));
    assert!(!Intercept::Disabled.matches(&https));
    let custom = Intercept::Custom(Custom(Arc::new(OnlyHost("a.com"))));
    assert!(custom.matches(&http));
    let other = Destination::parse("http://b.com/").unwrap();
    assert!(!custom.matches(&other));
}

#[test]
fn route_direct_when_no_proxy_applies() {
    let c = ProxyConnector::from_proxy_unsecured((), proxy(Intercept::Https, "http://proxy:3128"));
    let dst = Destination::parse("http://a.com/x").unwrap();
    match c.route(&dst) {
        Ok(Route::Direct(d)) => assert_eq!(d.host(), "a.com"),
        _ => panic!("expected a direct route"),
    }
}

#[test]
fn route_forward_for_plain_http() {
    let c = ProxyConnector::from_proxy_unsecured((), proxy(Intercept::All, "http://proxy:3128"));
    let dst = Destination::parse("http://a.com/x").unwrap();
    match c.route(&dst) {
        Ok(Route::Forward(d)) => {
            assert_eq!(d.scheme(), "http");
            assert_eq!(d.host(), "proxy");
            assert_eq!(d.port(), Some(3128));
            assert_eq!(d.path_and_query(), "/x");
        }
        _ => panic!("expected a forward route"),
    }
}

#[test]
fn route_tunnel_for_https() {
    let mut p = proxy(Intercept::All, "http://proxy:3128");
    p.set_header("x-token".to_string(), "t".to_string());
    let c = ProxyConnector::from_proxy_unsecured((), p);
    let dst = Destination::parse("https://a.com/x").unwrap();
    match c.route(&dst) {
        Ok(Route::Tunnel { proxy, connect, host }) => {
            assert_eq!(proxy.host(), "proxy");
            assert_eq!(host, "a.com");
            let t = connect.with_stream(());
            assert_eq!(
                t.machine.unwritten(),
                &b"CONNECT a.com:443 HTTP/1.1\r\nHost: a.com:443\r\nx-token: t\r\n\r\n"[..]
            );
        }
        _ => panic!("expected a tunnel"),
    }
}

#[test]
fn first_matching_proxy_wins() {
    let mut c = ProxyConnector::unsecured(());
    c.add_proxy(proxy(Intercept::Https, "http://first:1"));
    c.extend_proxies(vec![proxy(Intercept::Http, "http://second:2"), proxy(Intercept::All, "http://third:3")]);
    assert_eq!(c.proxies().len(), 3);
    let dst = Destination::parse("http://a.com/").unwrap();
    assert_eq!(c.match_proxy(&dst), Some(1));
    let none = ProxyConnector::from_proxy_unsecured((), proxy(Intercept::Disabled, "http://p:1"));
    assert_eq!(none.match_proxy(&dst), None);
}

#[test]
fn proxy_dst_errors() {
    let dst = Destination::parse("https://a.com/").unwrap();
    let no_scheme = UriParts { scheme: None, host: Some("p".to_string()), port: None, path_and_query: None };
    assert_eq!(proxy_dst(&dst, &no_scheme).err(), Some(ProxyError::MissingScheme));
    let no_host = UriParts { scheme: Some("http".to_string()), host: None, port: None, path_and_query: None };
    assert_eq!(proxy_dst(&dst, &no_host).err(), Some(ProxyError::MissingHost));
    let bad_host = UriParts { scheme: Some("http".to_string()), host: Some("u@p".to_string()), port: None, path_and_query: None };
    assert_eq!(proxy_dst(&dst, &bad_host).err(), Some(ProxyError::Parse));
    let bad_scheme = UriParts { scheme: Some("h ttp".to_string()), host: Some("p".to_string()), port: None, path_and_query: None };
    assert_eq!(proxy_dst(&dst, &bad_scheme).err(), Some(ProxyError::Parse));
}

#[test]
fn http_headers_only_for_http() {
    let mut p = proxy(Intercept::All, "http://proxy:3128");
    p.set_authorization_value("Basic x".to_string());
    let c = ProxyConnector::from_proxy_unsecured((), p);
    let http = UriParts::parse("http://a.com/").unwrap();
    let https = UriParts::parse("https://a.com/").unwrap();
    let headers = c.http_headers(&http).unwrap();
    assert_eq!(
        headers,
        &vec![
            ("authorization".to_string(), "Basic x".to_string()),
            ("proxy-authorization".to_string(), "Basic x".to_string()),
        ]
    );
    assert!(c.http_headers(&https).is_none());
}

#[test]
fn set_header_replaces() {
    let mut p = proxy(Intercept::Http, "http://proxy:3128");
    p.set_header("a".to_string(), "1".to_string());
    p.set_header("b".to_string(), "2".to_string());
    p.set_header("a".to_string(), "3".to_string());
    assert_eq!(
        p.headers(),
        &vec![("a".to_string(), "3".to_string()), ("b".to_string(), "2".to_string())]
    );
}

#[test]
fn authorization_from_credentials() {
    let mut p = proxy(Intercept::Https, "http://proxy:3128");
    let credentials = typed_headers::Credentials::basic("user", "pass").unwrap();
    assert!(p.set_authorization(&credentials));
    assert_eq!(
        p.headers(),
        &vec![("proxy-authorization".to_string(), "Basic dXNlcjpwYXNz".to_string())]
    );
    let mut q = proxy(Intercept::Http, "http://proxy:3128");
    assert!(q.set_authorization(&credentials));
    assert_eq!(q.headers()[0].0, "authorization");
}

#[test]
fn secured_connector_has_tls() {
    match ProxyConnector::new(()) {
        Ok(c) => assert!(c.tls().is_some()),
        Err(e) => assert_eq!(e, ProxyError::Tls),
    }
    let mut c = ProxyConnector::unsecured(());
    assert!(c.tls().is_none());
    c.set_tls(None);
    let c2 = c.with_connector(5u8);
    assert_eq!(*c2.connector(), 5u8);
}

#[test]
fn declining_custom_rule_is_skipped() {
    let mut c = ProxyConnector::unsecured(());
    c.add_proxy(proxy(Intercept::Custom(Custom(Arc::new(OnlyHost("other.com")))), "http://first:1"));
    c.add_proxy(proxy(Intercept::Custom(Custom(Arc::new(OnlyHost("a.com")))), "http://second:2"));
    let dst = Destination::parse("http://a.com/").unwrap();
    assert_eq!(c.match_proxy(&dst), Some(1));
    match c.route(&dst) {
        Ok(Route::Forward(d)) => assert_eq!(d.host(), "second"),
        _ => panic!("expected a forward route"),
    }
    let elsewhere = Destination::parse("http://b.com/").unwrap();
    assert!(matches!(c.route(&elsewhere), Ok(Route::Direct(_))));
}

#[test]
fn route_with_given_answers() {
    let mut c = ProxyConnector::unsecured(());
    c.add_proxy(proxy(Intercept::Custom(Custom(Arc::new(OnlyHost("x")))), "http://first:1"));
    c.add_proxy(proxy(Intercept::All, "http://second:2"));
    let dst = Destination::parse("http://a.com/").unwrap();
    assert_eq!(c.match_proxy_with(&vec![true, true]), Some(0));
    assert_eq!(c.match_proxy_with(&vec![false, false]), None);
    match c.route_with(&dst, &vec![true, true]) {
        Ok(Route::Forward(d)) => assert_eq!(d.host(), "first"),
        _ => panic!("expected the first proxy"),
    }
    assert!(matches!(c.route_with(&dst, &vec![false, false]), Ok(Route::Direct(_))));
}

#[test]
fn tunnel_refuses_header_with_line_break() {
    let mut p = proxy(Intercept::All, "http://proxy:3128");
    p.headers.push(("x".to_string(), "a\r\nInjected: 1".to_string()));
    let c = ProxyConnector::from_proxy_unsecured((), p);
    let dst = Destination::parse("https://a.com/").unwrap();
    assert_eq!(c.route(&dst).err(), Some(ProxyError::Header));
}

#[test]
fn header_names_are_case_insensitive() {
    let mut p = proxy(Intercept::Http, "http://proxy:3128");
    p.set_header("Authorization".to_string(), "old".to_string());
    p.set_header("X-Token".to_string(), "t".to_string());
    p.set_authorization_value("new".to_string());
    assert_eq!(
        p.headers(),
        &vec![("authorization".to_string(), "new".to_string()), ("x-token".to_string(), "t".to_string())]
    );
}
