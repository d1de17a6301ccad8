use simple_http::tunnel::{self, TunnelError, TunnelPhase, TunnelRead};

#[test]
fn connect_request_bytes() {
    let headers = vec![("proxy-authorization".to_string(), "Basic abc".to_string())];
    let t = tunnel::new("example.com", 443, &headers).with_stream(());
    assert_eq!(
        t.machine.unwritten(),
        &b"CONNECT example.com:443 HTTP/1.1\r\nHost: example.com:443\r\nproxy-authorization: Basic abc\r\n\r\n"[..]
    );
}

#[test]
fn tunnel_established() {
    let t = tunnel::new("h", 8, &vec![]);
    let mut t = t.with_stream(String::from("the stream"));
    let n = t.machine.unwritten().len();
    assert_eq!(t.machine.on_written(3), Ok(()));
    assert_eq!(t.machine.unwritten().len(), n - 3);
    assert_eq!(t.machine.on_written(n - 3), Ok(()));
    assert_eq!(t.machine.phase(), TunnelPhase::Reading);
    assert_eq!(t.machine.on_read(b"HTTP/1.1 200 Connection"), Ok(TunnelRead::More));
    assert_eq!(t.machine.on_read(b" Established\r\n\r\n"), Ok(TunnelRead::Established));
    assert_eq!(t.into_stream(), "the stream");
}

#[test]
fn tunnel_refused() {
    let mut t = tunnel::new("h", 8, &vec![]).with_stream(());
    let n = t.machine.unwritten().len();
    assert_eq!(t.machine.on_written(n), Ok(()));
    assert_eq!(
        t.machine.on_read(b"HTTP/1.1 407 Proxy Authentication Required\r\n\r\n"),
        Err(TunnelError::Unsuccessful)
    );
}

#[test]
fn tunnel_eof_errors() {
    let mut t = tunnel::new("h", 8, &vec![]).with_stream(());
    assert_eq!(t.machine.on_written(0), Err(TunnelError::UnexpectedEofWriting));
    let n = t.machine.unwritten().len();
    assert_eq!(t.machine.on_written(n), Ok(()));
    assert_eq!(t.machine.on_read(b"HTTP/1.0"), Ok(TunnelRead::More));
    assert_eq!(t.machine.on_read(b""), Err(TunnelError::UnexpectedEofReading));
}

#[test]
fn tunnel_http10_accepted() {
    let mut t = tunnel::new("h", 8, &vec![]).with_stream(());
    let n = t.machine.unwritten().len();
    assert_eq!(t.machine.on_written(n), Ok(()));
    assert_eq!(t.machine.on_read(b"HTTP/1.0 200 OK\r\n\r\n"), Ok(TunnelRead::Established));
}
