//! Reading and parsing the head of a response, and the length of the body
//! it declares.
use vstd::prelude::*;
use vstd::slice::{slice_subrange, slice_to_vec};
use crate::request::{lower_of, lowercase};
use crate::text::{append_bytes, same_text};
use crate::wire::{
    parse_headers, items_spec, next_spec, find_crlf, first_crlf, crlf_at, result_view, Header,
    HeaderItem, HeaderParser, ParseFailure,
};

verus! {

/// The text that `String::from_utf8_lossy` makes of bytes.
pub uninterp spec fn lossy_of(b: Seq<u8>) -> Seq<char>;

/// Relies on `String::from_utf8_lossy`: the result depends on the bytes alone.
#[verifier::external_body]
fn utf8_lossy(b: &[u8]) -> (r: String)
    ensures
        r@ == lossy_of(b@),
{
    String::from_utf8_lossy(b).to_string()
}

/// A decimal digit.
pub open spec fn is_digit(c: char) -> bool {
    '0' <= c <= '9'
}

/// The number that the digits `s` spell.
pub open spec fn digits_value(s: Seq<char>) -> nat
    decreases s.len(),
{
    if s.len() == 0 {
        0
    } else {
        digits_value(s.drop_last()) * 10 + (s.last() as nat - '0' as nat) as nat
    }
}

/// The digits of `s` without a leading `+`.
pub open spec fn unsigned_digits(s: Seq<char>) -> Seq<char> {
    if s.len() > 0 && s[0] == '+' {
        s.skip(1)
    } else {
        s
    }
}

/// Every character of `d` is a decimal digit.
pub open spec fn all_digits(d: Seq<char>) -> bool {
    forall|i: int| 0 <= i < d.len() ==> is_digit(#[trigger] d[i])
}

/// What `usize::from_str` makes of `s`: an optional `+` and then one digit
/// or more whose value fits.
pub open spec fn usize_of_text(s: Seq<char>) -> Option<usize> {
    let d = unsigned_digits(s);
    if d.len() > 0 && all_digits(d) && digits_value(d) <= usize::MAX {
        Some(digits_value(d) as usize)
    } else {
        None
    }
}

proof fn lemma_digits_grow(d: Seq<char>, j: int)
    requires
        0 <= j <= d.len(),
        forall|i: int| 0 <= i < d.len() ==> is_digit(#[trigger] d[i]),
    ensures
        digits_value(d) >= digits_value(d.take(j)),
    decreases d.len() - j,
{
    if j < d.len() {
        lemma_digits_grow(d, j + 1);
        assert(d.take(j + 1).drop_last() =~= d.take(j));
        assert(d.take(j + 1).last() == d[j]);
    } else {
        assert(d.take(j) =~= d);
    }
}

/// The number that `s` spells in decimal, read as `usize::from_str` reads
/// it: an optional `+` and then one digit or more whose value fits.
fn parse_usize(s: &str) -> (r: Option<usize>)
    ensures
        r == usize_of_text(s@),
{
    let n = s.unicode_len();
    let start: usize = if n > 0 && s.get_char(0) == '+' {
        1
    } else {
        0
    };
    let ghost d = unsigned_digits(s@);
    assert(d =~= s@.skip(start as int));
    if start >= n {
        return None;
    }
    let mut value: usize = 0;
    let mut i: usize = start;
    while i < n
        invariant
            n == s@.len(),
            start <= i <= n,
            d == s@.skip(start as int),
            d == unsigned_digits(s@),
            forall|j: int| 0 <= j < i - start ==> is_digit(#[trigger] d[j]),
            value as nat == digits_value(d.take(i - start)),
        decreases n - i,
    {
        let c = s.get_char(i);
        assert(d[i - start] == c);
        assert(d.len() == n - start);
        if !('0' <= c && c <= '9') {
            assert(!is_digit(d[i - start]));
            assert(!all_digits(d));
            assert(usize_of_text(s@) is None);
            return None;
        }
        let digit = (c as u32 - '0' as u32) as usize;
        assert(d.take(i - start + 1).drop_last() =~= d.take(i - start));
        assert(d.take(i - start + 1).last() == c);
        assert(digits_value(d.take(i - start + 1)) == digits_value(d.take(i - start)) * 10 + digit);
        if value > (usize::MAX - digit) / 10 {
            proof {
                assert(value * 10 + digit > usize::MAX) by (nonlinear_arith)
                    requires
                        value > (usize::MAX - digit) / 10,
                        digit <= 9,
                ;
                if all_digits(d) {
                    lemma_digits_grow(d, i - start + 1);
                    assert(digits_value(d) > usize::MAX);
                }
                assert(usize_of_text(s@) is None);
            }
            return None;
        }
        value = value * 10 + digit;
        i = i + 1;
    }
    assert(d.take(n - start) =~= d);
    Some(value)
}

/// The lower-case name under which a body length is declared.
pub open spec fn content_length_name() -> Seq<char> {
    "content-length"@
}

/// The first `content-length` header whose value is a number, as that number.
pub open spec fn content_length_of(headers: Seq<(Seq<char>, Seq<char>)>) -> Option<usize>
    decreases headers.len(),
{
    if headers.len() == 0 {
        None
    } else if headers[0].0 == content_length_name() && usize_of_text(headers[0].1) is Some {
        usize_of_text(headers[0].1)
    } else {
        content_length_of(headers.drop_first())
    }
}

/// The view of a list of name and value pairs.
pub open spec fn text_pairs(v: Seq<(String, String)>) -> Seq<(Seq<char>, Seq<char>)> {
    v.map_values(|p: (String, String)| (p.0@, p.1@))
}

/// The body length that `headers` declare.
pub fn content_length(headers: &Vec<(String, String)>) -> (r: Option<usize>)
    ensures
        r == content_length_of(text_pairs(headers@)),
{
    let mut i: usize = 0;
    assert(text_pairs(headers@).skip(0) =~= text_pairs(headers@));
    while i < headers.len()
        invariant
            i <= headers@.len(),
            content_length_of(text_pairs(headers@)) == content_length_of(
                text_pairs(headers@).skip(i as int),
            ),
        decreases headers@.len() - i,
    {
        assert(text_pairs(headers@).skip(i as int).drop_first() =~= text_pairs(headers@).skip(
            i + 1,
        ));
        if same_text(headers[i].0.as_str(), "content-length") {
            let n = parse_usize(headers[i].1.as_str());
            if n.is_some() {
                return n;
            }
        }
        i = i + 1;
    }
    None
}

/// Folds the items of a head, left to right: the status code and reason of
/// the status line, and the header fields in order; `None` once an item is
/// a failure.
pub open spec fn head_acc(items: Seq<Result<HeaderItem, ParseFailure>>) -> Option<
    (u16, Seq<u8>, Seq<(Seq<u8>, Seq<u8>)>),
>
    decreases items.len(),
{
    if items.len() == 0 {
        Some((0, Seq::empty(), Seq::empty()))
    } else {
        match head_acc(items.drop_last()) {
            None => None,
            Some((code, reason, fields)) => match items.last() {
                Err(_) => None,
                Ok(HeaderItem::Status(c, _, r)) => Some((c, r, fields)),
                Ok(HeaderItem::Field(n, v)) => Some((code, reason, fields.push((n, v)))),
            },
        }
    }
}

/// A parsed response head, its texts decoded.
pub struct ResponseHead {
    pub status: u16,
    pub reason: String,
    /// Header names in lower case, with their values.
    pub headers: Vec<(String, String)>,
}

/// Why a response head was refused.
#[derive(Debug, Clone, Copy, PartialEq, Eq, Structural)]
pub enum HeadError {
    /// The transport ended, or the buffer filled, before the head was complete.
    Broken,
    /// A line of the head did not parse.
    Parse,
}

/// A header field as decoded text: the name in lower case.
pub open spec fn decoded_field(f: (Seq<u8>, Seq<u8>)) -> (Seq<char>, Seq<char>) {
    (lower_of(lossy_of(f.0)), lossy_of(f.1))
}

/// The parsed head of `block`: the status code, the decoded reason, and the
/// decoded header fields; a parse failure, or a head without status line,
/// is refused.
pub open spec fn head_spec(block: Seq<u8>) -> Result<(u16, Seq<char>, Seq<(Seq<char>, Seq<char>)>), HeadError> {
    match head_acc(items_spec(block, false)) {
        None => Err(HeadError::Parse),
        Some((code, reason, fields)) => if code < 100 {
            Err(HeadError::Parse)
        } else {
            Ok((code, lossy_of(reason), fields.map_values(|f: (Seq<u8>, Seq<u8>)| decoded_field(f))))
        },
    }
}

proof fn lemma_items_step(input: Seq<u8>, status_parsed: bool)
    requires
        next_spec(input, status_parsed) is Some,
    ensures
        next_spec(input, status_parsed)->Some_0.1.len() < input.len(),
        items_spec(input, status_parsed) == seq![next_spec(input, status_parsed)->Some_0.0]
            + items_spec(next_spec(input, status_parsed)->Some_0.1, true),
{
    let idx = find_crlf(input)->Some_0;
    assert(first_crlf(input, idx));
    assert(crlf_at(input, idx));
}

proof fn lemma_head_acc_none(a: Seq<Result<HeaderItem, ParseFailure>>, b: Seq<Result<HeaderItem, ParseFailure>>)
    requires
        head_acc(a) is None,
    ensures
        head_acc(a + b) is None,
    decreases b.len(),
{
    if b.len() == 0 {
        assert(a + b =~= a);
    } else {
        lemma_head_acc_none(a, b.drop_last());
        assert((a + b).drop_last() =~= a + b.drop_last());
    }
}

/// Parses the head held in `block`.
pub fn parse_head(block: &[u8]) -> (r: Result<ResponseHead, HeadError>)
    ensures
        match head_spec(block@) {
            Ok((code, reason, fields)) => r is Ok && r->Ok_0.status == code && r->Ok_0.reason@
                == reason && text_pairs(r->Ok_0.headers@) == fields,
            Err(e) => r == Err::<ResponseHead, HeadError>(e),
        },
{
    let mut parser: HeaderParser = parse_headers(block);
    let ghost mut done: Seq<Result<HeaderItem, ParseFailure>> = Seq::empty();
    let ghost mut raw: Seq<(Seq<u8>, Seq<u8>)> = Seq::empty();
    let none = slice_subrange(block, 0, 0);
    let ghost mut raw_reason: Seq<u8> = none@;
    let mut status: u16 = 0;
    let mut reason: String = utf8_lossy(none);
    assert(none@ =~= Seq::<u8>::empty());
    let mut headers: Vec<(String, String)> = Vec::new();
    assert(done + items_spec(parser.input@, parser.status_parsed) =~= items_spec(block@, false));
    loop
        invariant
            items_spec(block@, false) == done + items_spec(parser.input@, parser.status_parsed),
            head_acc(done) == Some((status, raw_reason, raw)),
            reason@ == lossy_of(raw_reason),
            text_pairs(headers@) == raw.map_values(|f: (Seq<u8>, Seq<u8>)| decoded_field(f)),
        ensures
            items_spec(block@, false) == done,
            head_acc(done) == Some((status, raw_reason, raw)),
            reason@ == lossy_of(raw_reason),
            text_pairs(headers@) == raw.map_values(|f: (Seq<u8>, Seq<u8>)| decoded_field(f)),
        decreases parser.input@.len(),
    {
        let ghost before_input = parser.input@;
        let ghost before_parsed = parser.status_parsed;
        let item = parser.next();
        match item {
            None => {
                assert(items_spec(before_input, before_parsed) =~= Seq::empty());
                assert(done + Seq::<Result<HeaderItem, ParseFailure>>::empty() =~= done);
                break;
            },
            Some(res) => {
                proof {
                    lemma_items_step(before_input, before_parsed);
                    assert(done + items_spec(before_input, before_parsed) =~= done.push(
                        result_view(res),
                    ) + items_spec(parser.input@, parser.status_parsed));
                }
                match res {
                    Err(_) => {
                        proof {
                            assert(done.push(result_view(res)).drop_last() =~= done);
                            lemma_head_acc_none(
                                done.push(result_view(res)),
                                items_spec(parser.input@, parser.status_parsed),
                            );
                        }
                        return Err(HeadError::Parse);
                    },
                    Ok(Header::Status(code, _, r)) => {
                        proof {
                            assert(done.push(result_view(res)).drop_last() =~= done);
                            done = done.push(result_view(res));
                            raw_reason = r@;
                        }
                        status = code;
                        reason = utf8_lossy(r);
                    },
                    Ok(Header::Header(n, v)) => {
                        let name = utf8_lossy(n);
                        let lower = lowercase(name.as_str());
                        let value = utf8_lossy(v);
                        headers.push((lower, value));
                        proof {
                            assert(done.push(result_view(res)).drop_last() =~= done);
                            done = done.push(result_view(res));
                            let old_raw = raw;
                            raw = raw.push((n@, v@));
                            assert(raw.map_values(|f: (Seq<u8>, Seq<u8>)| decoded_field(f))
                                =~= old_raw.map_values(|f: (Seq<u8>, Seq<u8>)| decoded_field(f)).push(
                                decoded_field((n@, v@)),
                            ));
                        }
                    },
                }
            },
        }
    }
    if status < 100 {
        return Err(HeadError::Parse);
    }
    Ok(ResponseHead { status, reason, headers })
}


/// The most bytes of a response head that are read.
pub const HEAD_BUFFER_CAPACITY: usize = 4096;

/// An empty line ends at position `k + 4` of `s`: `\r\n\r\n` starts at `k`.
pub open spec fn head_end_at(s: Seq<u8>, k: int) -> bool {
    0 <= k && k + 3 < s.len() && s[k] == 13 && s[k + 1] == 10 && s[k + 2] == 13 && s[k + 3]
        == 10
}

/// Where the first `\r\n\r\n` of `s` starts, if anywhere.
pub open spec fn find_head_end(s: Seq<u8>) -> Option<int> {
    if exists|k: int| head_end_at(s, k) && forall|j: int| 0 <= j < k ==> !head_end_at(s, j) {
        Some(choose|k: int| head_end_at(s, k) && forall|j: int| 0 <= j < k ==> !head_end_at(s, j))
    } else {
        None
    }
}

proof fn lemma_find_head_end(s: Seq<u8>, r: Option<int>)
    requires
        match r {
            Some(k) => head_end_at(s, k) && forall|j: int| 0 <= j < k ==> !head_end_at(s, j),
            None => forall|j: int| !head_end_at(s, j),
        },
    ensures
        find_head_end(s) == r,
{
    if exists|k: int| head_end_at(s, k) && forall|j: int| 0 <= j < k ==> !head_end_at(s, j) {
        let k = choose|k: int| head_end_at(s, k) && forall|j: int| 0 <= j < k ==> !head_end_at(s, j);
        match r {
            Some(k2) => {
                if k < k2 {
                    assert(!head_end_at(s, k));
                } else if k > k2 {
                    assert(!head_end_at(s, k2));
                }
            },
            None => {
                assert(!head_end_at(s, k));
            },
        }
    } else {
        match r {
            Some(k2) => {
                assert(head_end_at(s, k2) && forall|j: int| 0 <= j < k2 ==> !head_end_at(s, j));
            },
            None => {},
        }
    }
}

/// Where the first `\r\n\r\n` of `s` starts.
fn position_head_end(s: &[u8]) -> (r: Option<usize>)
    ensures
        match r {
            Some(k) => find_head_end(s@) == Some(k as int) && head_end_at(s@, k as int),
            None => find_head_end(s@) == None::<int>,
        },
{
    let n = s.len();
    let mut i: usize = 0;
    while i < n
        invariant
            n == s@.len(),
            i <= n,
            forall|j: int| 0 <= j < i ==> !head_end_at(s@, j),
        decreases n - i,
    {
        if n >= 4 && i <= n - 4 && s[i] == 13 && s[i + 1] == 10 && s[i + 2] == 13 && s[i + 3] == 10 {
            proof {
                lemma_find_head_end(s@, Some(i as int));
            }
            return Some(i);
        }
        i = i + 1;
    }
    proof {
        lemma_find_head_end(s@, None);
    }
    None
}

/// A complete response head, what was read past it, and the body length it
/// declares.
pub struct HeadDone {
    pub head: ResponseHead,
    pub rest: Vec<u8>,
    pub content_length: Option<usize>,
}

/// Gathers the bytes of a response head across reads.
pub struct HeadReader {
    buf: Vec<u8>,
}

impl View for HeadReader {
    type V = Seq<u8>;

    closed spec fn view(&self) -> Seq<u8> {
        self.buf@
    }
}

impl HeadReader {
    /// A reader that holds nothing yet.
    pub fn new() -> (r: HeadReader)
        ensures
            r@.len() == 0,
    {
        HeadReader { buf: Vec::new() }
    }

    /// How many bytes the next read may bring.
    pub fn room(&self) -> (r: usize)
        ensures
            r == if self@.len() >= HEAD_BUFFER_CAPACITY {
                0
            } else {
                (HEAD_BUFFER_CAPACITY - self@.len()) as usize
            },
    {
        if self.buf.len() >= HEAD_BUFFER_CAPACITY {
            0
        } else {
            HEAD_BUFFER_CAPACITY - self.buf.len()
        }
    }

    /// Takes the bytes of one read. A read of no byte is a broken head; once
    /// the bytes held contain an empty line, the head up to it is parsed and
    /// the bytes after it are handed back; else more is needed (`None`).
    pub fn on_read(&mut self, data: &[u8]) -> (r: Result<Option<HeadDone>, HeadError>)
        ensures
            data@.len() == 0 ==> r == Err::<Option<HeadDone>, HeadError>(HeadError::Broken),
            data@.len() > 0 ==> final(self)@ == old(self)@ + data@ && match find_head_end(
                final(self)@,
            ) {
                None => r == Ok::<Option<HeadDone>, HeadError>(None),
                Some(k) => match head_spec(final(self)@.take(k + 4)) {
                    Err(e) => r == Err::<Option<HeadDone>, HeadError>(e),
                    Ok((code, reason, fields)) => r is Ok && r->Ok_0 is Some && {
                        let d = r->Ok_0->Some_0;
                        &&& d.head.status == code
                        &&& d.head.reason@ == reason
                        &&& text_pairs(d.head.headers@) == fields
                        &&& d.rest@ == final(self)@.skip(k + 4)
                        &&& d.content_length == content_length_of(fields)
                    },
                },
            },
    {
        if data.len() == 0 {
            return Err(HeadError::Broken);
        }
        append_bytes(&mut self.buf, data);
        let all = self.buf.as_slice();
        let n = all.len();
        match position_head_end(all) {
            None => Ok(None),
            Some(k) => {
                let block = slice_subrange(all, 0, k + 4);
                assert(block@ =~= self@.take(k + 4));
                match parse_head(block) {
                    Err(e) => Err(e),
                    Ok(head) => {
                        let rest = slice_to_vec(slice_subrange(all, k + 4, n));
                        let content_length = content_length(&head.headers);
                        Ok(Some(HeadDone { head, rest, content_length }))
                    },
                }
            },
        }
    }
}

} // verus!
