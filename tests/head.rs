use simple_http::body::{Body, BodyPoll};
use simple_http::head::{content_length, parse_head, HeadError, HeadReader, HEAD_BUFFER_CAPACITY};
use simple_http::response::Response;

#[test]
fn end_to_end_response() {
    let mut reader = HeadReader::new();
    assert_eq!(reader.room(), HEAD_BUFFER_CAPACITY);
    let first = reader.on_read(b"HTTP/1.0 200 OK\r\nContent-Le").unwrap();
    assert!(first.is_none());
    let done = reader.on_read(b"ngth: 5\r\n\r\nhello extra").unwrap().unwrap();
    assert_eq!(done.head.status, 200);
    assert_eq!(done.head.reason, "OK");
    assert_eq!(done.head.headers, vec![("content-length".to_string(), "5".to_string())]);
    assert_eq!(done.rest, b"hello extra".to_vec());
    assert_eq!(done.content_length, Some(5));
    let body = Body::new(Some(done.rest), done.content_length);
    let response = Response::new(done.head.status, done.head.headers, body);
    assert_eq!(response.status(), 200);
    assert_eq!(response.headers().get("content-length"), Some("5"));
    let mut body = response.into_body();
    match body.poll_next() {
        BodyPoll::Chunk(c) => assert_eq!(c, b"hello".to_vec()),
        _ => panic!("expected a chunk"),
    }
    assert!(matches!(body.poll_next(), BodyPoll::Ended));
}

#[test]
fn broken_head_on_empty_read() {
    let mut reader = HeadReader::new();
    assert!(reader.on_read(b"HTTP/1.0 200 OK\r\n").unwrap().is_none());
    assert_eq!(reader.on_read(b"").err(), Some(HeadError::Broken));
}

#[test]
fn bad_head_is_a_parse_error() {
    let mut reader = HeadReader::new();
    assert_eq!(reader.on_read(b"HTTP/1.0 700 Odd\r\n\r\n").err(), Some(HeadError::Parse));
    assert_eq!(parse_head(b"garbage\r\n\r\n").err(), Some(HeadError::Parse));
    assert_eq!(parse_head(b"HTTP/1.1 200 OK\r\nno colon\r\n\r\n").err(), Some(HeadError::Parse));
}

#[test]
fn head_names_are_lower_cased_and_text_decoded() {
    let head = parse_head(b"HTTP/1.1 301 Moved Permanently\r\nLocation: /x\r\nX-Name: \xff\r\n\r\n").unwrap();
    assert_eq!(head.status, 301);
    assert_eq!(head.reason, "Moved Permanently");
    assert_eq!(
        head.headers,
        vec![
            ("location".to_string(), "/x".to_string()),
            ("x-name".to_string(), "\u{FFFD}".to_string()),
        ]
    );
}

#[test]
fn content_length_first_number_wins() {
    let headers = vec![
        ("content-length".to_string(), "abc".to_string()),
        ("other".to_string(), "7".to_string()),
        ("content-length".to_string(), "+42".to_string()),
        ("content-length".to_string(), "9".to_string()),
    ];
    assert_eq!(content_length(&headers), Some(42));
    assert_eq!(content_length(&vec![]), None);
    assert_eq!(content_length(&vec![("content-length".to_string(), "-1".to_string())]), None);
}

#[test]
fn head_arriving_alone_leaves_body_to_read() {
    let mut reader = HeadReader::new();
    let done = reader.on_read(b"HTTP/1.1 200 OK\r\nContent-Length: 3\r\n\r\n").unwrap().unwrap();
    assert!(done.rest.is_empty());
    let mut body = Body::new(Some(done.rest), done.content_length);
    assert!(matches!(body.poll_next(), BodyPoll::Read));
    assert_eq!(body.on_read(b"abcdef"), Some(b"abc".to_vec()));
    assert!(matches!(body.poll_next(), BodyPoll::Ended));
}

#[test]
fn content_length_overflow_and_plus() {
    let big = vec![("content-length".to_string(), "18446744073709551616".to_string())];
    assert_eq!(content_length(&big), None);
    let max = vec![("content-length".to_string(), "18446744073709551615".to_string())];
    assert_eq!(content_length(&max), Some(usize::MAX));
    let plus_only = vec![("content-length".to_string(), "+".to_string())];
    assert_eq!(content_length(&plus_only), None);
    let spaced = vec![("content-length".to_string(), " 5".to_string())];
    assert_eq!(content_length(&spaced), None);
}
