//! The CONNECT exchange that turns a connection to a proxy into a tunnel to
//! the destination. The tunnel decides; its owner performs the writes and
//! reads it asks for.
use vstd::prelude::*;
use vstd::slice::{slice_subrange, slice_to_vec};
use crate::text::{has_char, no_line_break, append_bytes, append_decimal, append_str, has_prefix, has_suffix, decimal, utf8, starts_with, ends_with};

verus! {

/// `CONNECT `
pub open spec fn connect_word() -> Seq<u8> {
    seq![67u8, 79, 78, 78, 69, 67, 84, 32]
}

/// ` HTTP/1.1\r\nHost: `
pub open spec fn connect_middle() -> Seq<u8> {
    seq![32u8, 72, 84, 84, 80, 47, 49, 46, 49, 13, 10, 72, 111, 115, 116, 58, 32]
}

/// `: `
pub open spec fn name_separator() -> Seq<u8> {
    seq![58u8, 32]
}

/// `\r\n`
pub open spec fn line_end() -> Seq<u8> {
    seq![13u8, 10]
}

/// `HTTP/1.1 200`
pub open spec fn ok_11() -> Seq<u8> {
    seq![72u8, 84, 84, 80, 47, 49, 46, 49, 32, 50, 48, 48]
}

/// `HTTP/1.0 200`
pub open spec fn ok_10() -> Seq<u8> {
    seq![72u8, 84, 84, 80, 47, 49, 46, 48, 32, 50, 48, 48]
}

/// `\r\n\r\n`
pub open spec fn head_end() -> Seq<u8> {
    seq![13u8, 10, 13, 10]
}

/// `<name>: <value>\r\n` for each header, in order.
pub open spec fn header_lines(headers: Seq<(String, String)>) -> Seq<u8>
    decreases headers.len(),
{
    if headers.len() == 0 {
        Seq::empty()
    } else {
        header_lines(headers.drop_last()) + utf8(headers.last().0@) + name_separator() + utf8(
            headers.last().1@,
        ) + line_end()
    }
}

/// No header name or value holds a line break.
pub open spec fn headers_clean(headers: Seq<(String, String)>) -> bool {
    forall|i: int| 0 <= i < headers.len() ==> #[trigger] clean_header(headers[i])
}

/// Neither the name nor the value of `h` holds a line break.
pub open spec fn clean_header(h: (String, String)) -> bool {
    no_line_break(h.0@) && no_line_break(h.1@)
}

/// Whether no header name or value holds a line break.
pub fn check_headers(headers: &Vec<(String, String)>) -> (r: bool)
    ensures
        r == headers_clean(headers@),
{
    let mut i: usize = 0;
    while i < headers.len()
        invariant
            i <= headers@.len(),
            forall|j: int| 0 <= j < i ==> #[trigger] clean_header(headers@[j]),
        decreases headers@.len() - i,
    {
        let name = headers[i].0.as_str();
        let value = headers[i].1.as_str();
        if has_char(name, '\r') || has_char(name, '\n') || has_char(value, '\r') || has_char(
            value,
            '\n',
        ) {
            assert(!clean_header(headers@[i as int]));
            return false;
        }
        assert(clean_header(headers@[i as int]));
        i = i + 1;
    }
    true
}

/// `<host>:<port>`
pub open spec fn host_port(host: Seq<char>, port: u16) -> Seq<u8> {
    utf8(host) + seq![58u8] + decimal(port as nat)
}

/// `CONNECT <host>:<port> HTTP/1.1\r\nHost: <host>:<port>\r\n<headers>\r\n`
pub open spec fn connect_request(host: Seq<char>, port: u16, headers: Seq<(String, String)>) -> Seq<
    u8,
> {
    connect_word() + host_port(host, port) + connect_middle() + host_port(host, port) + line_end()
        + header_lines(headers) + line_end()
}

/// Why a tunnel could not be set up.
#[derive(Debug, Clone, Copy, PartialEq, Eq, Structural)]
pub enum TunnelError {
    /// The transport took no byte of the CONNECT request.
    UnexpectedEofWriting,
    /// The transport ended before the proxy's answer was complete.
    UnexpectedEofReading,
    /// The proxy answered with another status than 200.
    Unsuccessful,
}

/// Which half of the exchange a tunnel is in.
#[derive(Debug, Clone, Copy, PartialEq, Eq, Structural)]
pub enum TunnelPhase {
    Writing,
    Reading,
}

/// What the proxy's answer so far says.
#[derive(Debug, Clone, Copy, PartialEq, Eq, Structural)]
pub enum TunnelRead {
    /// Read more.
    More,
    /// The tunnel stands.
    Established,
}

/// The verdict on the answer `buf` received so far: nothing before more
/// than 12 bytes; then a status other than 200 fails; a 200 stands once the
/// answer ends with an empty line.
pub open spec fn verdict(buf: Seq<u8>) -> Result<TunnelRead, TunnelError> {
    if buf.len() <= 12 {
        Ok(TunnelRead::More)
    } else if starts_with(buf, ok_11()) || starts_with(buf, ok_10()) {
        if ends_with(buf, head_end()) {
            Ok(TunnelRead::Established)
        } else {
            Ok(TunnelRead::More)
        }
    } else {
        Err(TunnelError::Unsuccessful)
    }
}

/// A CONNECT request, ready to be sent over a connection to the proxy.
pub struct TunnelConnect {
    buf: Vec<u8>,
}

impl View for TunnelConnect {
    type V = Seq<u8>;

    closed spec fn view(&self) -> Seq<u8> {
        self.buf@
    }
}

/// What a tunnel holds: its phase, the request bytes not written yet, and
/// the answer received so far.
pub struct TunnelView {
    pub phase: TunnelPhase,
    pub unwritten: Seq<u8>,
    pub received: Seq<u8>,
}

/// The state of a CONNECT exchange.
pub struct TunnelMachine {
    buf: Vec<u8>,
    phase: TunnelPhase,
}

/// The CONNECT exchange over `stream`.
pub struct Tunnel<S> {
    /// Where the exchange stands.
    pub machine: TunnelMachine,
    /// The connection to the proxy, handed back unchanged once the tunnel stands.
    pub stream: S,
}

impl View for TunnelMachine {
    type V = TunnelView;

    closed spec fn view(&self) -> TunnelView {
        TunnelView {
            phase: self.phase,
            unwritten: if self.phase == TunnelPhase::Writing {
                self.buf@
            } else {
                Seq::empty()
            },
            received: if self.phase == TunnelPhase::Reading {
                self.buf@
            } else {
                Seq::empty()
            },
        }
    }
}

/// Builds the CONNECT request for `host` and `port`, with the proxy's extra
/// headers, none of which may hold a line break.
pub fn new(host: &str, port: u16, headers: &Vec<(String, String)>) -> (r: TunnelConnect)
    requires
        headers_clean(headers@),
    ensures
        r@ == connect_request(host@, port, headers@),
{
    let mut buf: Vec<u8> = Vec::new();
    let word: Vec<u8> = vec![67, 79, 78, 78, 69, 67, 84, 32];
    let colon: Vec<u8> = vec![58];
    let middle: Vec<u8> = vec![32, 72, 84, 84, 80, 47, 49, 46, 49, 13, 10, 72, 111, 115, 116, 58, 32];
    let sep: Vec<u8> = vec![58, 32];
    let crlf: Vec<u8> = vec![13, 10];
    assert(word@ == connect_word());
    assert(middle@ == connect_middle());
    append_bytes(&mut buf, word.as_slice());
    append_str(&mut buf, host);
    append_bytes(&mut buf, colon.as_slice());
    append_decimal(&mut buf, port);
    append_bytes(&mut buf, middle.as_slice());
    append_str(&mut buf, host);
    append_bytes(&mut buf, colon.as_slice());
    append_decimal(&mut buf, port);
    append_bytes(&mut buf, crlf.as_slice());
    let ghost start = buf@;
    let mut i: usize = 0;
    while i < headers.len()
        invariant
            i <= headers@.len(),
            buf@ == start + header_lines(headers@.take(i as int)),
            sep@ == name_separator(),
            crlf@ == line_end(),
        decreases headers@.len() - i,
    {
        append_str(&mut buf, headers[i].0.as_str());
        append_bytes(&mut buf, sep.as_slice());
        append_str(&mut buf, headers[i].1.as_str());
        append_bytes(&mut buf, crlf.as_slice());
        assert(headers@.take(i + 1).drop_last() =~= headers@.take(i as int));
        i = i + 1;
    }
    append_bytes(&mut buf, crlf.as_slice());
    assert(headers@.take(headers@.len() as int) =~= headers@);
    assert(buf@ =~= connect_request(host@, port, headers@));
    TunnelConnect { buf }
}

impl TunnelConnect {
    /// Starts the exchange over `stream`, in the writing phase.
    pub fn with_stream<S>(self, stream: S) -> (r: Tunnel<S>)
        ensures
            r.machine@ == (TunnelView {
                phase: TunnelPhase::Writing,
                unwritten: self@,
                received: Seq::empty(),
            }),
            r.stream == stream,
    {
        let machine = TunnelMachine { buf: self.buf, phase: TunnelPhase::Writing };
        Tunnel { machine, stream }
    }
}

impl<S> Tunnel<S> {
    /// Hands back the connection to the proxy, now a tunnel.
    pub fn into_stream(self) -> (r: S)
        ensures
            r == self.stream,
    {
        self.stream
    }
}

impl TunnelMachine {
    /// Which half of the exchange the tunnel is in.
    pub fn phase(&self) -> (r: TunnelPhase)
        ensures
            r == self@.phase,
    {
        self.phase
    }

    /// The request bytes still to be written.
    pub fn unwritten(&self) -> (r: &[u8])
        ensures
            r@ == self@.unwritten,
    {
        if self.phase == TunnelPhase::Writing {
            self.buf.as_slice()
        } else {
            let none = slice_subrange(self.buf.as_slice(), 0, 0);
            assert(none@ =~= Seq::<u8>::empty());
            none
        }
    }

    /// The transport took `n` bytes of the request. Once all are written the
    /// tunnel turns to reading; a write of no byte before that fails.
    pub fn on_written(&mut self, n: usize) -> (r: Result<(), TunnelError>)
        requires
            old(self)@.phase == TunnelPhase::Writing,
            n <= old(self)@.unwritten.len(),
        ensures
            old(self)@.unwritten.len() == n ==> r is Ok && final(self)@ == (TunnelView {
                phase: TunnelPhase::Reading,
                unwritten: Seq::empty(),
                received: Seq::empty(),
            }),
            old(self)@.unwritten.len() > n && n == 0 ==> r == Err::<(), TunnelError>(
                TunnelError::UnexpectedEofWriting,
            ) && final(self)@ == old(self)@,
            old(self)@.unwritten.len() > n && n > 0 ==> r is Ok && final(self)@ == (TunnelView {
                unwritten: old(self)@.unwritten.skip(n as int),
                ..old(self)@
            }),
    {
        let remaining = self.buf.len();
        if n == remaining {
            self.phase = TunnelPhase::Reading;
            self.buf = Vec::new();
            return Ok(());
        }
        if n == 0 {
            return Err(TunnelError::UnexpectedEofWriting);
        }
        let rest = slice_to_vec(slice_subrange(self.buf.as_slice(), n, remaining));
        self.buf = rest;
        Ok(())
    }

    /// The transport gave `data`. A read of no byte fails; else the verdict
    /// on all that was received decides.
    pub fn on_read(&mut self, data: &[u8]) -> (r: Result<TunnelRead, TunnelError>)
        requires
            old(self)@.phase == TunnelPhase::Reading,
        ensures
            final(self)@.phase == TunnelPhase::Reading,
            data@.len() == 0 ==> r == Err::<TunnelRead, TunnelError>(
                TunnelError::UnexpectedEofReading,
            ) && final(self)@ == old(self)@,
            data@.len() > 0 ==> final(self)@.received == old(self)@.received + data@ && r
                == verdict(final(self)@.received),
    {
        if data.len() == 0 {
            return Err(TunnelError::UnexpectedEofReading);
        }
        append_bytes(&mut self.buf, data);
        let ok11: Vec<u8> = vec![72, 84, 84, 80, 47, 49, 46, 49, 32, 50, 48, 48];
        let ok10: Vec<u8> = vec![72, 84, 84, 80, 47, 49, 46, 48, 32, 50, 48, 48];
        let end: Vec<u8> = vec![13, 10, 13, 10];
        assert(ok11@ == ok_11());
        assert(ok10@ == ok_10());
        assert(end@ == head_end());
        let read = self.buf.as_slice();
        if read.len() <= 12 {
            return Ok(TunnelRead::More);
        }
        if has_prefix(read, ok11.as_slice()) || has_prefix(read, ok10.as_slice()) {
            if has_suffix(read, end.as_slice()) {
                Ok(TunnelRead::Established)
            } else {
                Ok(TunnelRead::More)
            }
        } else {
            Err(TunnelError::Unsuccessful)
        }
    }
}

} // verus!
