use simple_http::body::{Body, BodyPoll};

fn drain(body: &mut Body, reads: &[&[u8]]) -> (Vec<u8>, bool) {
    let mut out = Vec::new();
    let mut reads = reads.iter();
    loop {
        match body.poll_next() {
            BodyPoll::Ended => return (out, true),
            BodyPoll::Chunk(c) => out.extend_from_slice(&c),
            BodyPoll::Read => match reads.next() {
                None => return (out, false),
                Some(data) => match body.on_read(data) {
                    Some(c) => out.extend_from_slice(&c),
                    None => return (out, true),
                },
            },
        }
    }
}

#[test]
fn content_length_bounds_the_stream() {
    let mut body = Body::new(None, Some(5));
    let (out, ended) = drain(&mut body, &[b"abc", b"defg", b"hij"]);
    assert_eq!(out, b"abcde".to_vec());
    assert!(ended);
    assert!(body.is_drained());
}

#[test]
fn content_length_exact_reads() {
    let mut body = Body::new(None, Some(6));
    let (out, ended) = drain(&mut body, &[b"abc", b"def", b"never"]);
    assert_eq!(out, b"abcdef".to_vec());
    assert!(ended);
}

#[test]
fn rest_comes_first() {
    let mut body = Body::new(Some(vec![0xAA, 0xBB]), None);
    match body.poll_next() {
        BodyPoll::Chunk(c) => assert_eq!(c, vec![0xAA, 0xBB]),
        _ => panic!("expected the held-back bytes"),
    }
    assert!(matches!(body.poll_next(), BodyPoll::Read));
    assert_eq!(body.on_read(b""), None);
    assert!(matches!(body.poll_next(), BodyPoll::Ended));
}

#[test]
fn rest_is_cut_by_content_length() {
    let mut body = Body::new(Some(b"hello extra".to_vec()), Some(5));
    let (out, ended) = drain(&mut body, &[]);
    assert_eq!(out, b"hello".to_vec());
    assert!(ended);
}

#[test]
fn no_length_reads_until_end() {
    let mut body = Body::new(None, None);
    let (out, ended) = drain(&mut body, &[b"ab", b"cd", b""]);
    assert_eq!(out, b"abcd".to_vec());
    assert!(ended);
}

#[test]
fn read_error_ends_the_stream() {
    let mut body = Body::new(None, Some(10));
    assert!(matches!(body.poll_next(), BodyPoll::Read));
    body.on_read_error();
    assert!(matches!(body.poll_next(), BodyPoll::Ended));
    assert_eq!(body.on_read(b"late"), None);
}

#[test]
fn empty_body_ends_at_once() {
    let mut body = Body::empty();
    assert!(matches!(body.poll_next(), BodyPoll::Ended));
}

#[test]
fn empty_rest_reads_from_transport() {
    let mut body = Body::new(Some(Vec::new()), None);
    assert!(matches!(body.poll_next(), BodyPoll::Read));
    assert_eq!(body.on_read(b"data"), Some(b"data".to_vec()));
    assert!(matches!(body.poll_next(), BodyPoll::Read));
}
