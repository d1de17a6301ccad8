use simple_http::cache::ResolverCache;
use simple_http::connector::IpAddr;
use simple_http::destination::Destination;
use simple_http::request::{build_req, Request, RequestError, Version};
use simple_http::response::HeaderMap;
use simple_http::utils::iter_fn;

#[test]
fn cache_hit_only_for_entries_recorded_before_now() {
    let mut cache = ResolverCache::new();
    let addrs = vec![IpAddr::V4(1, 2, 3, 4)];
    assert_eq!(cache.lookup("a.com", 10), None);
    cache.add("a.com".to_string(), addrs.clone(), 5);
    assert_eq!(cache.lookup("a.com", 5), None);
    assert_eq!(cache.lookup("a.com", 6), Some(addrs.clone()));
    assert_eq!(cache.lookup("b.com", 6), None);
    let newer = vec![IpAddr::V4(5, 6, 7, 8)];
    cache.add("a.com".to_string(), newer.clone(), 7);
    assert_eq!(cache.lookup("a.com", 7), None);
    assert_eq!(cache.lookup("a.com", 100), Some(newer));
}

#[test]
fn request_head_bytes() {
    let dst = Destination::parse("http://example.com/search?q=1").unwrap();
    let headers = vec![
        ("HOST".to_string(), "ignored".to_string()),
        ("Accept".to_string(), "*/*".to_string()),
    ];
    let head = build_req("GET", &dst, &headers);
    assert_eq!(
        String::from_utf8(head).unwrap(),
        "GET /search?q=1 HTTP/1.0\r\nHost: example.com\r\nConnection: close\r\nAccept: */*\r\n\r\n"
    );
    let root = Destination::parse("http://example.com").unwrap();
    assert_eq!(
        String::from_utf8(build_req("POST", &root, &vec![])).unwrap(),
        "POST / HTTP/1.0\r\nHost: example.com\r\nConnection: close\r\n\r\n"
    );
}

#[test]
fn request_builder() {
    let r: Request<()> = Request::new("GET".to_string(), Destination::parse("http://a/").unwrap());
    assert_eq!(r.headers, vec![("User-Agent".to_string(), "Simple http request".to_string())]);
    assert_eq!(r.version, Version::Http10);
    let b = Request::<()>::builder().header("X", "1");
    assert_eq!(b.done::<()>().err(), Some(RequestError::MissingUri));
    let b = Request::<()>::builder()
        .uri(Destination::parse("http://a/").unwrap())
        .version(Version::Http10)
        .method("PUT".to_string());
    let r = b.body(7u8).unwrap();
    assert_eq!(r.body, Some(7u8));
    assert_eq!(r.method, "PUT");
}

#[test]
fn header_map_first_value() {
    let map = HeaderMap::new(vec![
        ("a".to_string(), "1".to_string()),
        ("b".to_string(), "2".to_string()),
        ("a".to_string(), "3".to_string()),
    ]);
    assert_eq!(map.get("a"), Some("1"));
    assert_eq!(map.get("b"), Some("2"));
    assert_eq!(map.get("c"), None);
    assert_eq!(map.len(), 3);
}

#[test]
fn iter_fn_calls_until_none() {
    let counter = std::cell::Cell::new(0u32);
    let mut it = iter_fn(|| {
        let n = counter.get();
        counter.set(n + 1);
        if n < 2 { Some(n) } else { None }
    });
    assert_eq!(it.next(), Some(0));
    assert_eq!(it.next(), Some(1));
    assert_eq!(it.next(), None);
}
