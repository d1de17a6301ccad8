use simple_http::destination::{Destination, Error, UriParts};

#[test]
fn parse_absolute_uri() {
    let d = Destination::parse("http://hyper.rs:8080/a/b?c=1").unwrap();
    assert_eq!(d.scheme(), "http");
    assert_eq!(d.host(), "hyper.rs");
    assert_eq!(d.port(), Some(8080));
    assert_eq!(d.path_and_query(), "/a/b?c=1");
    let d = Destination::parse("https://example.com").unwrap();
    assert_eq!(d.port(), None);
    assert_eq!(d.path_and_query(), "/");
}

#[test]
fn parse_refuses_relative_uri() {
    assert_eq!(Destination::parse("/only/a/path").err(), Some(Error::Parse));
    assert_eq!(Destination::parse("http://exa mple.com/").err(), Some(Error::Parse));
}

#[test]
fn uri_parts_of_relative_uri() {
    let p = UriParts::parse("/x?y").unwrap();
    assert_eq!(p.scheme, None);
    assert_eq!(p.host, None);
    assert_eq!(p.path_and_query, Some("/x?y".to_string()));
    assert!(UriParts::parse("http://[::1").is_none());
}

#[test]
fn set_scheme_valid_and_invalid() {
    let mut d = Destination::parse("http://hyper.rs/").unwrap();
    assert_eq!(d.set_scheme("ws"), Ok(()));
    assert_eq!(d.scheme(), "ws");
    assert_eq!(d.set_scheme("w s"), Err(Error::Parse));
    assert_eq!(d.set_scheme("a://b"), Err(Error::Parse));
    assert_eq!(d.scheme(), "ws");
    assert_eq!(d.host(), "hyper.rs");
}

#[test]
fn set_host_without_port() {
    let mut d = Destination::parse("http://hyper.rs/").unwrap();
    assert_eq!(d.set_host("some.proxy"), Ok(()));
    assert_eq!(d.host(), "some.proxy");
    assert_eq!(d.port(), None);
    assert_eq!(d.set_host("some.proxy:8080"), Err(Error::Parse));
    assert_eq!(d.set_host("user@evil"), Err(Error::Parse));
    assert_eq!(d.set_host(""), Err(Error::Parse));
    assert_eq!(d.host(), "some.proxy");
}

#[test]
fn set_host_with_port() {
    let mut d = Destination::parse("http://hyper.rs:3000/").unwrap();
    assert_eq!(d.set_host("[::1]"), Ok(()));
    assert_eq!(d.host(), "[::1]");
    assert_eq!(d.port(), Some(3000));
    assert_eq!(d.set_host("a:b"), Err(Error::Parse));
    assert_eq!(d.host(), "[::1]");
    assert_eq!(d.port(), Some(3000));
}

#[test]
fn set_port_and_remove() {
    let mut d = Destination::parse("http://hyper.rs/").unwrap();
    assert_eq!(d.port(), None);
    d.set_port(Some(4321));
    assert_eq!(d.port(), Some(4321));
    assert_eq!(d.host(), "hyper.rs");
    d.set_port(None);
    assert_eq!(d.port(), None);
}

#[test]
fn unclosed_bracket_after_user_info_is_refused() {
    assert_eq!(Destination::parse("http://a]@[b/").err(), Some(Error::Parse));
    assert!(UriParts::parse("http://a]@[b/").is_none());
    let d = Destination::parse("http://user@[::1]:8080/").unwrap();
    assert_eq!(d.host(), "[::1]");
    let mut d = Destination::parse("http://a.com/").unwrap();
    assert_eq!(d.set_host("[b"), Err(Error::Parse));
    assert_eq!(d.host(), "a.com");
}

#[test]
fn set_host_keeps_port_and_plain_host() {
    let mut d = Destination::parse("http://hyper.rs:3000/x").unwrap();
    assert_eq!(d.set_host("proxy.local"), Ok(()));
    assert_eq!(d.host(), "proxy.local");
    assert_eq!(d.port(), Some(3000));
    assert_eq!(d.path_and_query(), "/x");
}

#[test]
fn unclosed_bracket_outside_authority_is_accepted() {
    let d = Destination::parse("http://a.com/p?q=@[").unwrap();
    assert_eq!(d.host(), "a.com");
    assert_eq!(d.path_and_query(), "/p?q=@[");
}
