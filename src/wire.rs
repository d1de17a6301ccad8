//! Zero-copy parsing of an HTTP/1.x response head.
use vstd::prelude::*;
use vstd::slice::slice_subrange;

verus! {

/// The space byte that the parser trims.
pub const SPACE: u8 = 32;

/// `s` without its leading spaces.
pub open spec fn ltrim_spec(s: Seq<u8>) -> Seq<u8>
    decreases s.len(),
{
    if s.len() > 0 && s[0] == SPACE {
        ltrim_spec(s.drop_first())
    } else {
        s
    }
}

/// `s` without its trailing spaces.
pub open spec fn rtrim_spec(s: Seq<u8>) -> Seq<u8>
    decreases s.len(),
{
    if s.len() > 0 && s.last() == SPACE {
        rtrim_spec(s.drop_last())
    } else {
        s
    }
}

/// `s` without its surrounding spaces.
pub open spec fn trim_spec(s: Seq<u8>) -> Seq<u8> {
    ltrim_spec(rtrim_spec(s))
}

/// Removes the leading spaces of `val`.
fn ltrim(val: &[u8]) -> (r: &[u8])
    ensures
        r@ == ltrim_spec(val@),
{
    let mut i: usize = 0;
    assert(val@.subrange(0, val@.len() as int) =~= val@);
    while i < val.len() && val[i] == SPACE
        invariant
            i <= val@.len(),
            ltrim_spec(val@) == ltrim_spec(val@.subrange(i as int, val@.len() as int)),
        decreases val@.len() - i,
    {
        assert(val@.subrange(i as int, val@.len() as int).drop_first() =~= val@.subrange(
            i + 1,
            val@.len() as int,
        ));
        i = i + 1;
    }
    slice_subrange(val, i, val.len())
}

/// Removes the trailing spaces of `val`.
fn rtrim(val: &[u8]) -> (r: &[u8])
    ensures
        r@ == rtrim_spec(val@),
{
    let mut j: usize = val.len();
    assert(val@.subrange(0, val@.len() as int) =~= val@);
    while j > 0 && val[j - 1] == SPACE
        invariant
            j <= val@.len(),
            rtrim_spec(val@) == rtrim_spec(val@.subrange(0, j as int)),
        decreases j,
    {
        assert(val@.subrange(0, j as int).drop_last() =~= val@.subrange(0, j - 1));
        j = j - 1;
    }
    slice_subrange(val, 0, j)
}


/// Carriage return.
pub const CR: u8 = 13;

/// Line feed.
pub const LF: u8 = 10;

/// The colon that ends a header name.
pub const COLON: u8 = 58;

/// `k` is the first position of byte `b` in `s`.
pub open spec fn first_at(s: Seq<u8>, b: u8, k: int) -> bool {
    0 <= k < s.len() && s[k] == b && forall|j: int| 0 <= j < k ==> s[j] != b
}

/// The first position of `b` in `s`, or the length of `s` where `b` does not occur.
pub open spec fn find_byte(s: Seq<u8>, b: u8) -> int {
    if exists|k: int| first_at(s, b, k) {
        choose|k: int| first_at(s, b, k)
    } else {
        s.len() as int
    }
}

/// A line break starts at position `k` of `s`.
pub open spec fn crlf_at(s: Seq<u8>, k: int) -> bool {
    0 <= k && k + 1 < s.len() && s[k] == CR && s[k + 1] == LF
}

/// `k` is the first position of a line break in `s`.
pub open spec fn first_crlf(s: Seq<u8>, k: int) -> bool {
    crlf_at(s, k) && forall|j: int| 0 <= j < k ==> !crlf_at(s, j)
}

/// The position of the first line break of `s`, if any.
pub open spec fn find_crlf(s: Seq<u8>) -> Option<int> {
    if exists|k: int| first_crlf(s, k) {
        Some(choose|k: int| first_crlf(s, k))
    } else {
        None
    }
}

pub proof fn lemma_find_byte(s: Seq<u8>, b: u8, r: int)
    requires
        0 <= r <= s.len(),
        forall|j: int| 0 <= j < r ==> s[j] != b,
        r < s.len() ==> s[r] == b,
    ensures
        find_byte(s, b) == r,
{
    if r < s.len() {
        assert(first_at(s, b, r));
        let k = choose|k: int| first_at(s, b, k);
        assert(first_at(s, b, k));
        if k < r {
            assert(s[k] != b);
        } else if k > r {
            assert(s[r] != b);
        }
    } else {
        if exists|k: int| first_at(s, b, k) {
            let k = choose|k: int| first_at(s, b, k);
            assert(s[k] != b);
        }
    }
}

proof fn lemma_find_crlf_some(s: Seq<u8>, r: int)
    requires
        first_crlf(s, r),
    ensures
        find_crlf(s) == Some(r),
{
    let k = choose|k: int| first_crlf(s, k);
    assert(first_crlf(s, k));
    if k < r {
        assert(!crlf_at(s, k));
    } else if k > r {
        assert(!crlf_at(s, r));
    }
}

proof fn lemma_find_crlf_none(s: Seq<u8>)
    requires
        forall|j: int| !crlf_at(s, j),
    ensures
        find_crlf(s) == None::<int>,
{
    if exists|k: int| first_crlf(s, k) {
        let k = choose|k: int| first_crlf(s, k);
        assert(crlf_at(s, k));
    }
}

/// The position of the first `b` in `val`, or its length.
fn position(val: &[u8], b: u8) -> (r: usize)
    ensures
        r as int == find_byte(val@, b),
        r <= val@.len(),
{
    let mut i: usize = 0;
    while i < val.len() && val[i] != b
        invariant
            i <= val@.len(),
            forall|j: int| 0 <= j < i ==> val@[j] != b,
        decreases val@.len() - i,
    {
        i = i + 1;
    }
    proof {
        lemma_find_byte(val@, b, i as int);
    }
    i
}

/// The position of the first line break in `val`.
fn position_crlf(val: &[u8]) -> (r: Option<usize>)
    ensures
        match r {
            Some(i) => find_crlf(val@) == Some(i as int) && crlf_at(val@, i as int),
            None => find_crlf(val@) == None::<int>,
        },
{
    let mut i: usize = 0;
    while i < val.len()
        invariant
            i <= val@.len(),
            forall|j: int| 0 <= j < i ==> !crlf_at(val@, j),
        decreases val@.len() - i,
    {
        if i + 1 < val.len() && val[i] == CR && val[i + 1] == LF {
            proof {
                lemma_find_crlf_some(val@, i as int);
            }
            return Some(i);
        }
        i = i + 1;
    }
    proof {
        lemma_find_crlf_none(val@);
    }
    None
}


/// One item of a response head: the status line, or a header field. Each
/// slice borrows from the scanned buffer.
#[derive(Debug)]
pub enum Header<'a> {
    /// Status code, protocol version, reason phrase.
    Status(u16, &'a [u8], &'a [u8]),
    /// Header name and value, trimmed of surrounding spaces.
    Header(&'a [u8], &'a [u8]),
}

/// Why a line of a response head was refused.
#[derive(Debug)]
pub enum ParseError<'a> {
    /// The status line has no reason phrase.
    WrongStatusReason,
    /// The status line does not start with `HTTP/`; holds its first word.
    WrongStatusHeader(&'a [u8]),
    /// The status code is not three digits from 100 to 599; holds the code word.
    WrongStatusCode(&'a [u8]),
    /// A header line holds no colon; holds the trimmed line.
    WrongHeader(&'a [u8]),
}

/// What a `Header` holds, as byte sequences.
pub enum HeaderItem {
    Status(u16, Seq<u8>, Seq<u8>),
    Field(Seq<u8>, Seq<u8>),
}

/// What a `ParseError` holds, as byte sequences.
pub enum ParseFailure {
    WrongStatusReason,
    WrongStatusHeader(Seq<u8>),
    WrongStatusCode(Seq<u8>),
    WrongHeader(Seq<u8>),
}

impl<'a> View for Header<'a> {
    type V = HeaderItem;

    open spec fn view(&self) -> HeaderItem {
        match self {
            Header::Status(c, v, r) => HeaderItem::Status(*c, v@, r@),
            Header::Header(n, v) => HeaderItem::Field(n@, v@),
        }
    }
}

impl<'a> View for ParseError<'a> {
    type V = ParseFailure;

    open spec fn view(&self) -> ParseFailure {
        match self {
            ParseError::WrongStatusReason => ParseFailure::WrongStatusReason,
            ParseError::WrongStatusHeader(x) => ParseFailure::WrongStatusHeader(x@),
            ParseError::WrongStatusCode(x) => ParseFailure::WrongStatusCode(x@),
            ParseError::WrongHeader(x) => ParseFailure::WrongHeader(x@),
        }
    }
}

/// The view of one parse result.
pub open spec fn result_view<'a>(r: Result<Header<'a>, ParseError<'a>>) -> Result<
    HeaderItem,
    ParseFailure,
> {
    match r {
        Ok(h) => Ok(h@),
        Err(e) => Err(e@),
    }
}

/// The bytes `HTTP/` that open a status line.
pub open spec fn http_prefix() -> Seq<u8> {
    seq![72u8, 84u8, 84u8, 80u8, 47u8]
}

/// `code` is three digits, the first from 1 to 5.
pub open spec fn valid_code_digits(code: Seq<u8>) -> bool {
    code.len() == 3 && 49 <= code[0] <= 53 && 48 <= code[1] <= 57 && 48 <= code[2] <= 57
}

/// The number that three digits spell.
pub open spec fn code_value(code: Seq<u8>) -> int {
    (code[0] - 48) * 100 + (code[1] - 48) * 10 + (code[2] - 48)
}

/// The result of parsing a status line `HTTP/<version> <code> <reason>`.
/// The reason phrase is the rest of the line after the code and one space.
pub open spec fn status_spec(line: Seq<u8>) -> Result<HeaderItem, ParseFailure> {
    let i = find_byte(line, SPACE);
    let x = line.take(i);
    if x.len() < 5 || x.take(5) != http_prefix() {
        Err(ParseFailure::WrongStatusHeader(x))
    } else if i == line.len() {
        Err(ParseFailure::WrongStatusCode(Seq::empty()))
    } else {
        let rest = line.skip(i + 1);
        let j = find_byte(rest, SPACE);
        let code = rest.take(j);
        if !valid_code_digits(code) {
            Err(ParseFailure::WrongStatusCode(code))
        } else if j == rest.len() {
            Err(ParseFailure::WrongStatusReason)
        } else {
            Ok(HeaderItem::Status(code_value(code) as u16, x.skip(5), rest.skip(j + 1)))
        }
    }
}

/// The result of parsing a header line `<name>:<value>`, split at the first colon.
pub open spec fn field_spec(line: Seq<u8>) -> Result<HeaderItem, ParseFailure> {
    let k = find_byte(line, COLON);
    if k == line.len() {
        Err(ParseFailure::WrongHeader(trim_spec(line)))
    } else {
        Ok(HeaderItem::Field(trim_spec(line.take(k)), trim_spec(line.skip(k + 1))))
    }
}

/// Splits a header line at its first colon; both sides are trimmed.
fn parse_header<'a>(input: &'a [u8]) -> (r: Result<Header<'a>, ParseError<'a>>)
    ensures
        result_view(r) == field_spec(input@),
{
    let k = position(input, COLON);
    if k == input.len() {
        let all = ltrim(rtrim(input));
        return Err(ParseError::WrongHeader(all));
    }
    let name = ltrim(rtrim(slice_subrange(input, 0, k)));
    let value = ltrim(rtrim(slice_subrange(input, k + 1, input.len())));
    Ok(Header::Header(name, value))
}

/// Parses a status line into its code, version and reason phrase.
fn parse_status<'a>(input: &'a [u8]) -> (r: Result<Header<'a>, ParseError<'a>>)
    ensures
        result_view(r) == status_spec(input@),
{
    let i = position(input, SPACE);
    let x = slice_subrange(input, 0, i);
    if x.len() < 5 || x[0] != 72 || x[1] != 84 || x[2] != 84 || x[3] != 80 || x[4] != 47 {
        proof {
            if x@.len() >= 5 {
                assert(x@.take(5) != http_prefix()) by {
                    if x@.take(5) == http_prefix() {
                        assert(x@.take(5)[0] == 72u8);
                        assert(x@.take(5)[1] == 84u8);
                        assert(x@.take(5)[2] == 84u8);
                        assert(x@.take(5)[3] == 80u8);
                        assert(x@.take(5)[4] == 47u8);
                    }
                }
            }
        }
        return Err(ParseError::WrongStatusHeader(x));
    }
    assert(x@.take(5) =~= http_prefix());
    let version = slice_subrange(x, 5, x.len());
    if i == input.len() {
        let none = slice_subrange(input, 0, 0);
        assert(none@ =~= Seq::<u8>::empty());
        return Err(ParseError::WrongStatusCode(none));
    }
    let rest = slice_subrange(input, i + 1, input.len());
    let j = position(rest, SPACE);
    let code = slice_subrange(rest, 0, j);
    if code.len() != 3 || code[0] < 49 || code[0] > 53 || code[1] < 48 || code[1] > 57
        || code[2] < 48 || code[2] > 57 {
        return Err(ParseError::WrongStatusCode(code));
    }
    if j == rest.len() {
        return Err(ParseError::WrongStatusReason);
    }
    let reason = slice_subrange(rest, j + 1, rest.len());
    let value: u16 = (code[0] - 48) as u16 * 100 + (code[1] - 48) as u16 * 10 + (code[2]
        - 48) as u16;
    assert(x@.skip(5) =~= version@);
    Ok(Header::Status(value, version, reason))
}


/// One step of the parser over the unread bytes `input`: the item that the
/// next line gives and the bytes after that line, or `None` once the head
/// ends (no complete line left, or an empty line after the status line).
pub open spec fn next_spec(input: Seq<u8>, status_parsed: bool) -> Option<
    (Result<HeaderItem, ParseFailure>, Seq<u8>),
> {
    match find_crlf(input) {
        None => None,
        Some(idx) => {
            let line = input.take(idx);
            let rest = input.skip(idx + 2);
            if !status_parsed {
                Some((status_spec(line), rest))
            } else if line.len() > 0 {
                Some((field_spec(line), rest))
            } else {
                None
            }
        },
    }
}

/// Every item that the parser yields from `input`, in order.
pub open spec fn items_spec(input: Seq<u8>, status_parsed: bool) -> Seq<
    Result<HeaderItem, ParseFailure>,
>
    decreases input.len(),
{
    match next_spec(input, status_parsed) {
        None => Seq::empty(),
        Some((item, rest)) => if rest.len() < input.len() {
            seq![item] + items_spec(rest, true)
        } else {
            seq![item]
        },
    }
}

/// A single-pass parser over a response head: a status line, then header
/// lines, up to an empty line.
pub struct HeaderParser<'a> {
    /// The bytes not read yet.
    pub input: &'a [u8],
    /// Whether the status line was read.
    pub status_parsed: bool,
}

/// Starts parsing the response head held in `input`.
pub fn parse_headers<'a>(input: &'a [u8]) -> (r: HeaderParser<'a>)
    ensures
        r.input@ == input@,
        !r.status_parsed,
{
    HeaderParser { input, status_parsed: false }
}

impl<'a> HeaderParser<'a> {
    /// Reads the next line; `None` once the head ends.
    pub fn next(&mut self) -> (r: Option<Result<Header<'a>, ParseError<'a>>>)
        ensures
            match next_spec(old(self).input@, old(self).status_parsed) {
                None => r.is_none() && final(self).input@ == old(self).input@
                    && final(self).status_parsed == old(self).status_parsed,
                Some((item, rest)) => r.is_some() && result_view(r.unwrap()) == item
                    && final(self).input@ == rest && final(self).status_parsed,
            },
    {
        let input: &'a [u8] = self.input;
        let found = position_crlf(input);
        if found.is_none() {
            return None;
        }
        let idx = found.unwrap();
        let n = input.len();
        assert(crlf_at(input@, idx as int));
        let line = slice_subrange(input, 0, idx);
        let rest = slice_subrange(input, idx + 2, n);
        if !self.status_parsed {
            self.input = rest;
            self.status_parsed = true;
            Some(parse_status(line))
        } else if line.len() > 0 {
            self.input = rest;
            Some(parse_header(line))
        } else {
            None
        }
    }
}


/// Byte `b` does not occur in `s`.
pub open spec fn lacks(s: Seq<u8>, b: u8) -> bool {
    forall|i: int| 0 <= i < s.len() ==> s[i] != b
}

/// No carriage return occurs in `s`.
pub open spec fn no_cr(s: Seq<u8>) -> bool {
    lacks(s, CR)
}

/// The start `HTTP/1.0 ` of a status line.
pub open spec fn status_prefix() -> Seq<u8> {
    seq![72u8, 84u8, 84u8, 80u8, 47u8, 49u8, 46u8, 48u8, 32u8]
}

/// The version `1.0`.
pub open spec fn version_10() -> Seq<u8> {
    seq![49u8, 46u8, 48u8]
}

/// The line `HTTP/1.0 <code> <reason>` with its line break.
pub open spec fn status_line_bytes(code: Seq<u8>, reason: Seq<u8>) -> Seq<u8> {
    status_prefix() + code + seq![SPACE] + reason + seq![CR, LF]
}

/// The three decimal digits of `code`.
pub open spec fn code_digits(code: u16) -> Seq<u8> {
    seq![(48 + code / 100) as u8, (48 + (code / 10) % 10) as u8, (48 + code % 10) as u8]
}

/// The line `<name>:<value>` with its line break.
pub open spec fn field_line(name: Seq<u8>, value: Seq<u8>) -> Seq<u8> {
    name + seq![COLON] + value + seq![CR, LF]
}

/// The header lines of `fields`, one after the other.
pub open spec fn field_lines(fields: Seq<(Seq<u8>, Seq<u8>)>) -> Seq<u8>
    decreases fields.len(),
{
    if fields.len() == 0 {
        Seq::empty()
    } else {
        field_line(fields[0].0, fields[0].1) + field_lines(fields.drop_first())
    }
}

/// A header name without colon or carriage return, and a value without
/// carriage return.
pub open spec fn well_formed_field(f: (Seq<u8>, Seq<u8>)) -> bool {
    no_cr(f.0) && no_cr(f.1) && lacks(f.0, COLON)
}

/// What the parser yields for one well-formed header line.
pub open spec fn field_item(f: (Seq<u8>, Seq<u8>)) -> Result<HeaderItem, ParseFailure> {
    Ok(HeaderItem::Field(trim_spec(f.0), trim_spec(f.1)))
}

proof fn lemma_lacks_concat(a: Seq<u8>, b: Seq<u8>, x: u8)
    requires
        lacks(a, x),
        lacks(b, x),
    ensures
        lacks(a + b, x),
{
    assert forall|i: int| 0 <= i < (a + b).len() implies (a + b)[i] != x by {
        if i < a.len() {
            assert((a + b)[i] == a[i]);
        } else {
            assert((a + b)[i] == b[i - a.len()]);
        }
    }
}

proof fn lemma_line_split(l: Seq<u8>, t: Seq<u8>)
    requires
        no_cr(l),
    ensures
        find_crlf(l + seq![CR, LF] + t) == Some(l.len() as int),
        (l + seq![CR, LF] + t).take(l.len() as int) == l,
        (l + seq![CR, LF] + t).skip(l.len() as int + 2) == t,
{
    let s = l + seq![CR, LF] + t;
    assert(crlf_at(s, l.len() as int));
    assert forall|j: int| 0 <= j < l.len() implies !crlf_at(s, j) by {
        assert(s[j] == l[j]);
    }
    assert(first_crlf(s, l.len() as int));
    lemma_find_crlf_some(s, l.len() as int);
    assert(s.take(l.len() as int) =~= l);
    assert(s.skip(l.len() as int + 2) =~= t);
}

proof fn lemma_status_head(code: Seq<u8>, reason: Seq<u8>)
    requires
        no_cr(code),
        lacks(code, SPACE),
        no_cr(reason),
    ensures
        no_cr(status_prefix() + code + seq![SPACE] + reason),
        status_line_bytes(code, reason) == (status_prefix() + code + seq![SPACE] + reason) + seq![
            CR,
            LF,
        ] + Seq::<u8>::empty(),
        next_spec(status_line_bytes(code, reason), false) == Some(
            (
                if valid_code_digits(code) {
                    Ok(HeaderItem::Status(code_value(code) as u16, version_10(), reason))
                } else {
                    Err(ParseFailure::WrongStatusCode(code))
                },
                Seq::<u8>::empty(),
            ),
        ),
{
    let p = status_prefix();
    let a1 = p + code;
    let a2 = a1 + seq![SPACE];
    let head = a2 + reason;
    assert(no_cr(p));
    lemma_lacks_concat(p, code, CR);
    assert(no_cr(seq![SPACE]));
    lemma_lacks_concat(a1, seq![SPACE], CR);
    lemma_lacks_concat(a2, reason, CR);
    assert(status_line_bytes(code, reason) =~= head + seq![CR, LF] + Seq::<u8>::empty());
    lemma_line_split(head, Seq::<u8>::empty());
    assert(head.take(9) =~= p);
    assert forall|j: int| 0 <= j < 8 implies head[j] != SPACE by {
        assert(head[j] == p[j]);
    }
    assert(head[8] == SPACE);
    lemma_find_byte(head, SPACE, 8);
    let x = head.take(8);
    assert(x.take(5) =~= http_prefix());
    assert(x.skip(5) =~= version_10());
    let rest = head.skip(9);
    assert(rest =~= code + seq![SPACE] + reason);
    assert(rest[code.len() as int] == SPACE);
    assert forall|j: int| 0 <= j < code.len() implies rest[j] != SPACE by {
        assert(rest[j] == code[j]);
    }
    lemma_find_byte(rest, SPACE, code.len() as int);
    assert(rest.take(code.len() as int) =~= code);
    assert(rest.skip(code.len() as int + 1) =~= reason);
}

/// A status line `HTTP/1.0 <code> <reason>` whose code lies from 100 to 599
/// parses back to exactly that code, version and reason.
pub proof fn lemma_status_round_trip(code: u16, reason: Seq<u8>)
    requires
        100 <= code <= 599,
        no_cr(reason),
    ensures
        next_spec(status_line_bytes(code_digits(code), reason), false) == Some(
            (Ok::<HeaderItem, ParseFailure>(HeaderItem::Status(code, version_10(), reason)), Seq::<u8>::empty()),
        ),
{
    let d = code_digits(code);
    assert(valid_code_digits(d));
    assert(code_value(d) == code);
    lemma_status_head(d, reason);
}

/// A status line whose code word is not three digits from 100 to 599 fails
/// with a status-code error that holds that word.
pub proof fn lemma_status_code_rejected(code: Seq<u8>, reason: Seq<u8>)
    requires
        no_cr(code),
        lacks(code, SPACE),
        !valid_code_digits(code),
        no_cr(reason),
    ensures
        next_spec(status_line_bytes(code, reason), false) == Some(
            (Err::<HeaderItem, ParseFailure>(ParseFailure::WrongStatusCode(code)), Seq::<u8>::empty()),
        ),
{
    lemma_status_head(code, reason);
}

/// A status line `HTTP/<version> <code> <reason>`, whatever its version,
/// gives back its version and reason where the code word is three digits
/// from 100 to 599, and fails with a status-code error holding the word
/// otherwise.
pub proof fn lemma_status_line(version: Seq<u8>, code: Seq<u8>, reason: Seq<u8>)
    requires
        lacks(version, SPACE),
        lacks(code, SPACE),
    ensures
        status_spec(http_prefix() + version + seq![SPACE] + code + seq![SPACE] + reason) == if valid_code_digits(code) {
            Ok::<HeaderItem, ParseFailure>(HeaderItem::Status(code_value(code) as u16, version, reason))
        } else {
            Err(ParseFailure::WrongStatusCode(code))
        },
{
    let p = http_prefix();
    let x = p + version;
    let line = x + seq![SPACE] + code + seq![SPACE] + reason;
    assert forall|j: int| 0 <= j < x.len() implies line[j] != SPACE by {
        assert(line[j] == x[j]);
        if j >= 5 {
            assert(x[j] == version[j - 5]);
        }
    }
    assert(line[x.len() as int] == SPACE);
    lemma_find_byte(line, SPACE, x.len() as int);
    assert(line.take(x.len() as int) =~= x);
    assert(x.take(5) =~= p);
    assert(x.skip(5) =~= version);
    let rest = line.skip(x.len() as int + 1);
    assert(rest =~= code + seq![SPACE] + reason);
    assert(rest[code.len() as int] == SPACE);
    assert forall|j: int| 0 <= j < code.len() implies rest[j] != SPACE by {
        assert(rest[j] == code[j]);
    }
    lemma_find_byte(rest, SPACE, code.len() as int);
    assert(rest.take(code.len() as int) =~= code);
    assert(rest.skip(code.len() as int + 1) =~= reason);
}

/// Three digits spell a valid status code exactly when the code lies from
/// 100 to 599.
pub proof fn lemma_code_digits_valid(code: u16)
    requires
        code <= 999,
    ensures
        valid_code_digits(code_digits(code)) <==> 100 <= code <= 599,
        100 <= code <= 599 ==> code_value(code_digits(code)) == code,
{
}

proof fn lemma_field_lines(fields: Seq<(Seq<u8>, Seq<u8>)>)
    requires
        forall|i: int| 0 <= i < fields.len() ==> well_formed_field(#[trigger] fields[i]),
    ensures
        items_spec(field_lines(fields) + seq![CR, LF], true) == fields.map_values(
            |f: (Seq<u8>, Seq<u8>)| field_item(f),
        ),
    decreases fields.len(),
{
    let input = field_lines(fields) + seq![CR, LF];
    if fields.len() == 0 {
        assert(input =~= Seq::<u8>::empty() + seq![CR, LF] + Seq::<u8>::empty());
        lemma_line_split(Seq::<u8>::empty(), Seq::<u8>::empty());
        assert(fields.map_values(|f: (Seq<u8>, Seq<u8>)| field_item(f)) =~= Seq::empty());
    } else {
        let f = fields[0];
        assert(well_formed_field(f));
        let a1 = f.0 + seq![COLON];
        let line = a1 + f.1;
        let tail = field_lines(fields.drop_first()) + seq![CR, LF];
        assert(input =~= line + seq![CR, LF] + tail);
        assert(no_cr(seq![COLON]));
        lemma_lacks_concat(f.0, seq![COLON], CR);
        lemma_lacks_concat(a1, f.1, CR);
        lemma_line_split(line, tail);
        assert forall|j: int| 0 <= j < f.0.len() implies line[j] != COLON by {
            assert(line[j] == f.0[j]);
        }
        assert(line[f.0.len() as int] == COLON);
        lemma_find_byte(line, COLON, f.0.len() as int);
        assert(line.take(f.0.len() as int) =~= f.0);
        assert(line.skip(f.0.len() as int + 1) =~= f.1);
        assert(field_spec(line) == field_item(f));
        assert forall|i: int| 0 <= i < fields.drop_first().len() implies well_formed_field(
            #[trigger] fields.drop_first()[i],
        ) by {
            assert(fields.drop_first()[i] == fields[i + 1]);
        }
        lemma_field_lines(fields.drop_first());
        assert(fields.map_values(|f: (Seq<u8>, Seq<u8>)| field_item(f)) =~= seq![field_item(f)]
            + fields.drop_first().map_values(|f: (Seq<u8>, Seq<u8>)| field_item(f)));
    }
}

/// A head made of a status line, well-formed header lines and an empty line
/// parses to the status item followed by one trimmed field item per header
/// line, in their order.
pub proof fn lemma_head_items(code: u16, reason: Seq<u8>, fields: Seq<(Seq<u8>, Seq<u8>)>)
    requires
        100 <= code <= 599,
        no_cr(reason),
        forall|i: int| 0 <= i < fields.len() ==> well_formed_field(#[trigger] fields[i]),
    ensures
        items_spec(
            status_line_bytes(code_digits(code), reason) + field_lines(fields) + seq![CR, LF],
            false,
        ) == seq![Ok::<HeaderItem, ParseFailure>(HeaderItem::Status(code, version_10(), reason))]
            + fields.map_values(|f: (Seq<u8>, Seq<u8>)| field_item(f)),
{
    let d = code_digits(code);
    let head = status_prefix() + d + seq![SPACE] + reason;
    let body = field_lines(fields) + seq![CR, LF];
    let input = status_line_bytes(d, reason) + field_lines(fields) + seq![CR, LF];
    assert(no_cr(d));
    assert(lacks(d, SPACE));
    lemma_status_head(d, reason);
    lemma_status_round_trip(code, reason);
    assert(input =~= head + seq![CR, LF] + body);
    lemma_line_split(head, body);
    lemma_line_split(head, Seq::<u8>::empty());
    lemma_field_lines(fields);
}


/// A head made of any status line `HTTP/<version> <code> <reason>` with a
/// code from 100 to 599, well-formed header lines and an empty line parses
/// to the status item followed by one trimmed field item per header line,
/// in their order.
pub proof fn lemma_head_items_any_version(
    version: Seq<u8>,
    code: Seq<u8>,
    reason: Seq<u8>,
    fields: Seq<(Seq<u8>, Seq<u8>)>,
)
    requires
        lacks(version, SPACE),
        no_cr(version),
        lacks(code, SPACE),
        no_cr(code),
        valid_code_digits(code),
        no_cr(reason),
        forall|i: int| 0 <= i < fields.len() ==> well_formed_field(#[trigger] fields[i]),
    ensures
        items_spec(
            http_prefix() + version + seq![SPACE] + code + seq![SPACE] + reason + seq![CR, LF]
                + field_lines(fields) + seq![CR, LF],
            false,
        ) == seq![
            Ok::<HeaderItem, ParseFailure>(
                HeaderItem::Status(code_value(code) as u16, version, reason),
            ),
        ] + fields.map_values(|f: (Seq<u8>, Seq<u8>)| field_item(f)),
{
    let a1 = http_prefix() + version;
    let a2 = a1 + seq![SPACE];
    let a3 = a2 + code;
    let a4 = a3 + seq![SPACE];
    let line = a4 + reason;
    assert(no_cr(http_prefix()));
    lemma_lacks_concat(http_prefix(), version, CR);
    assert(no_cr(seq![SPACE]));
    lemma_lacks_concat(a1, seq![SPACE], CR);
    lemma_lacks_concat(a2, code, CR);
    lemma_lacks_concat(a3, seq![SPACE], CR);
    lemma_lacks_concat(a4, reason, CR);
    let body = field_lines(fields) + seq![CR, LF];
    let input = http_prefix() + version + seq![SPACE] + code + seq![SPACE] + reason + seq![CR, LF]
        + field_lines(fields) + seq![CR, LF];
    assert(input =~= line + seq![CR, LF] + body);
    lemma_line_split(line, body);
    lemma_status_line(version, code, reason);
    lemma_field_lines(fields);
}

} // verus!
