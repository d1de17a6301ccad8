use simple_http::wire::{parse_headers, Header, ParseError};

fn status_of(input: &[u8]) -> Result<(u16, Vec<u8>, Vec<u8>), String> {
    let mut p = parse_headers(input);
    match p.next() {
        Some(Ok(Header::Status(c, v, r))) => Ok((c, v.to_vec(), r.to_vec())),
        Some(Ok(Header::Header(..))) => Err("field".to_string()),
        Some(Err(ParseError::WrongStatusCode(c))) => Err(format!("code:{}", String::from_utf8_lossy(c))),
        Some(Err(ParseError::WrongStatusHeader(x))) => Err(format!("header:{}", String::from_utf8_lossy(x))),
        Some(Err(ParseError::WrongStatusReason)) => Err("reason".to_string()),
        Some(Err(ParseError::WrongHeader(_))) => Err("wrong header".to_string()),
        None => Err("none".to_string()),
    }
}

#[test]
fn status_line_is_parsed() {
    assert_eq!(status_of(b"HTTP/1.0 200 OK\r\n"), Ok((200, b"1.0".to_vec(), b"OK".to_vec())));
}

#[test]
fn status_codes_at_the_bounds() {
    for code in [100u16, 101, 204, 404, 599] {
        let line = format!("HTTP/1.0 {} Some Reason\r\n", code);
        assert_eq!(status_of(line.as_bytes()), Ok((code, b"1.0".to_vec(), b"Some Reason".to_vec())));
    }
}

#[test]
fn status_codes_outside_range_fail() {
    for code in ["000", "099", "600", "999", "2x0", "20", "2000", "abc"] {
        let line = format!("HTTP/1.0 {} Reason\r\n", code);
        assert_eq!(status_of(line.as_bytes()), Err(format!("code:{}", code)));
    }
}

#[test]
fn status_without_code() {
    assert_eq!(status_of(b"HTTP/1.1\r\n"), Err("code:".to_string()));
}

#[test]
fn status_with_wrong_prefix() {
    assert_eq!(status_of(b"HTXP/1.1 200 OK\r\n"), Err("header:HTXP/1.1".to_string()));
    assert_eq!(status_of(b"HTTP 200 OK\r\n"), Err("header:HTTP".to_string()));
}

#[test]
fn status_without_reason() {
    assert_eq!(status_of(b"HTTP/1.1 200\r\n"), Err("reason".to_string()));
}

#[test]
fn incomplete_line_yields_nothing() {
    let mut p = parse_headers(b"HTTP/1.1 200 OK");
    assert!(p.next().is_none());
}

#[test]
fn header_block_in_order_and_trimmed() {
    let input = b"HTTP/1.1 404 Not Found\r\nHost:  example.com \r\nX-A: 1\r\nEmpty:\r\n\r\nbody";
    let mut p = parse_headers(input);
    let mut items = Vec::new();
    while let Some(item) = p.next() {
        match item {
            Ok(Header::Status(c, v, r)) => items.push(format!("{}|{}|{}", c, String::from_utf8_lossy(v), String::from_utf8_lossy(r))),
            Ok(Header::Header(n, v)) => items.push(format!("{}={}", String::from_utf8_lossy(n), String::from_utf8_lossy(v))),
            Err(_) => items.push("error".to_string()),
        }
    }
    assert_eq!(items, vec!["404|1.1|Not Found", "Host=example.com", "X-A=1", "Empty="]);
}

#[test]
fn header_value_keeps_later_colons() {
    let mut p = parse_headers(b"HTTP/1.1 200 OK\r\nHost: a.b:8080\r\n\r\n");
    assert!(matches!(p.next(), Some(Ok(Header::Status(200, _, _)))));
    match p.next() {
        Some(Ok(Header::Header(n, v))) => {
            assert_eq!(n, b"Host");
            assert_eq!(v, b"a.b:8080");
        }
        _ => panic!("expected a header"),
    }
    assert!(p.next().is_none());
}

#[test]
fn header_without_colon_fails() {
    let mut p = parse_headers(b"HTTP/1.1 200 OK\r\n  no colon here \r\n\r\n");
    assert!(p.next().is_some());
    match p.next() {
        Some(Err(ParseError::WrongHeader(x))) => assert_eq!(x, b"no colon here"),
        _ => panic!("expected a header error"),
    }
}
