//! The body of a response as a stream of chunks, bounded by its declared
//! length. The body decides; its owner performs the reads it asks for.
use vstd::prelude::*;
use vstd::slice::{slice_subrange, slice_to_vec};

verus! {

/// The most bytes that one read hands to the body.
pub const READ_BUFFER_CAPACITY: usize = 4096;

/// What a `Body` holds.
pub struct BodyState {
    /// No more bytes will come.
    pub drained: bool,
    /// Bytes read past the head, to be yielded before any read.
    pub rest: Option<Seq<u8>>,
    /// Bytes yielded so far under a declared length.
    pub counter: nat,
    /// The declared length, if any.
    pub content_length: Option<nat>,
}

/// What the next step of a body is.
pub enum BodyPoll {
    /// The stream has ended.
    Ended,
    /// A chunk to hand out.
    Chunk(Vec<u8>),
    /// The owner must read from the transport and call `on_read` or `on_read_error`.
    Read,
}

/// What a `BodyPoll` holds, as byte sequences.
pub enum PollStep {
    Ended,
    Chunk(Seq<u8>),
    Read,
}

impl View for BodyPoll {
    type V = PollStep;

    open spec fn view(&self) -> PollStep {
        match self {
            BodyPoll::Ended => PollStep::Ended,
            BodyPoll::Chunk(v) => PollStep::Chunk(v@),
            BodyPoll::Read => PollStep::Read,
        }
    }
}

/// How many of `len` fresh bytes may still be yielded in state `s`.
pub open spec fn allowed(s: BodyState, len: nat) -> nat {
    match s.content_length {
        None => len,
        Some(max) => if s.counter >= max {
            0
        } else if len <= max - s.counter {
            len
        } else {
            (max - s.counter) as nat
        },
    }
}

/// Takes fresh bytes `data` in: the chunk to yield, or `None` where the
/// stream ends (no byte may be yielded), with the next state.
pub open spec fn take_spec(s: BodyState, data: Seq<u8>) -> (BodyState, Option<Seq<u8>>) {
    let n = allowed(s, data.len());
    if n == 0 {
        (BodyState { drained: true, ..s }, None)
    } else {
        (
            BodyState {
                counter: if s.content_length is Some {
                    s.counter + n
                } else {
                    s.counter
                },
                ..s
            },
            Some(data.take(n as int)),
        )
    }
}

/// The declared length has been reached.
pub open spec fn bound_reached(s: BodyState) -> bool {
    match s.content_length {
        None => false,
        Some(max) => s.counter >= max,
    }
}

/// One poll of a body: ended once drained; else the held-back bytes first,
/// where there are any, bounded like any read; else the end once the
/// declared length is reached; else a read.
pub open spec fn poll_spec(s: BodyState) -> (BodyState, PollStep) {
    if s.drained {
        (s, PollStep::Ended)
    } else if s.rest is Some && s.rest->Some_0.len() > 0 {
        let t = take_spec(BodyState { rest: None, ..s }, s.rest->Some_0);
        match t.1 {
            None => (t.0, PollStep::Ended),
            Some(c) => (t.0, PollStep::Chunk(c)),
        }
    } else if bound_reached(s) {
        (BodyState { drained: true, rest: None, ..s }, PollStep::Ended)
    } else {
        (BodyState { rest: None, ..s }, PollStep::Read)
    }
}

/// One read of `data` handed to a body: nothing once drained, else `take_spec`.
pub open spec fn read_spec(s: BodyState, data: Seq<u8>) -> (BodyState, Option<Seq<u8>>) {
    if s.drained {
        (s, None)
    } else {
        take_spec(s, data)
    }
}

/// A response body as a backpressured stream of chunks.
pub struct Body {
    drained: bool,
    rest: Option<Vec<u8>>,
    counter: usize,
    content_length: Option<usize>,
}

impl View for Body {
    type V = BodyState;

    closed spec fn view(&self) -> BodyState {
        BodyState {
            drained: self.drained,
            rest: match self.rest {
                Some(v) => Some(v@),
                None => None,
            },
            counter: self.counter as nat,
            content_length: match self.content_length {
                Some(m) => Some(m as nat),
                None => None,
            },
        }
    }
}

impl Body {
    /// A body that yields nothing.
    pub fn empty() -> (b: Body)
        ensures
            b@ == (BodyState { drained: true, rest: None, counter: 0, content_length: None }),
    {
        Body { drained: true, rest: None, counter: 0, content_length: None }
    }

    /// A body that yields `rest` first, then what the transport gives, at most
    /// `content_length` bytes in all where that is given.
    pub fn new(rest: Option<Vec<u8>>, content_length: Option<usize>) -> (b: Body)
        ensures
            b@ == (BodyState {
                drained: false,
                rest: match rest {
                    Some(v) => Some(v@),
                    None => None,
                },
                counter: 0,
                content_length: match content_length {
                    Some(m) => Some(m as nat),
                    None => None,
                },
            }),
    {
        Body { drained: false, rest, counter: 0, content_length }
    }

    /// How many of `len` fresh bytes may still be yielded.
    fn allowed(&self, len: usize) -> (n: usize)
        ensures
            n as nat == allowed(self@, len as nat),
    {
        match self.content_length {
            None => len,
            Some(max) => if self.counter >= max {
                0
            } else if len <= max - self.counter {
                len
            } else {
                max - self.counter
            },
        }
    }

    /// Takes `data` in as fresh bytes.
    fn take(&mut self, data: &[u8]) -> (r: Option<Vec<u8>>)
        ensures
            (final(self)@, match r {
                Some(v) => Some(v@),
                None => None,
            }) == take_spec(old(self)@, data@),
    {
        let n = self.allowed(data.len());
        if n == 0 {
            self.drained = true;
            return None;
        }
        if self.content_length.is_some() {
            self.counter = self.counter + n;
        }
        let chunk = slice_to_vec(slice_subrange(data, 0, n));
        Some(chunk)
    }

    /// The next step of the stream.
    pub fn poll_next(&mut self) -> (r: BodyPoll)
        ensures
            (final(self)@, r@) == poll_spec(old(self)@),
    {
        if self.drained {
            return BodyPoll::Ended;
        }
        let rest = self.rest.take();
        if let Some(v) = rest {
            if v.len() > 0 {
                return match self.take(v.as_slice()) {
                    Some(c) => BodyPoll::Chunk(c),
                    None => BodyPoll::Ended,
                };
            }
        }
        if self.allowed(1) == 0 {
            self.drained = true;
            BodyPoll::Ended
        } else {
            BodyPoll::Read
        }
    }

    /// Hands the bytes of one read to the body: the chunk to yield, or `None`
    /// where the stream ends. A read of no bytes ends it.
    pub fn on_read(&mut self, data: &[u8]) -> (r: Option<Vec<u8>>)
        ensures
            (final(self)@, match r {
                Some(v) => Some(v@),
                None => None,
            }) == read_spec(old(self)@, data@),
    {
        if self.drained {
            return None;
        }
        self.take(data)
    }

    /// A read failed: the stream yields that failure and ends.
    pub fn on_read_error(&mut self)
        ensures
            final(self)@ == (BodyState { drained: true, ..old(self)@ }),
    {
        self.drained = true;
    }

    /// Whether the stream has ended.
    pub fn is_drained(&self) -> (r: bool)
        ensures
            r == self@.drained,
    {
        self.drained
    }
}


/// The bytes that `reads` bring, one read after the other.
pub open spec fn concat_reads(reads: Seq<Seq<u8>>) -> Seq<u8>
    decreases reads.len(),
{
    if reads.len() == 0 {
        Seq::empty()
    } else {
        reads[0] + concat_reads(reads.drop_first())
    }
}

/// Drives a body as its owner does: polls it, and hands it the next of
/// `reads` whenever it asks for a read. Gives the bytes yielded, chunk after
/// chunk, and whether the stream ended (rather than the reads running out).
pub open spec fn drive(s: BodyState, reads: Seq<Seq<u8>>) -> (Seq<u8>, bool)
    decreases reads.len(), (if s.rest is Some {
        1nat
    } else {
        0nat
    }),
{
    let (s1, step) = poll_spec(s);
    match step {
        PollStep::Ended => (Seq::empty(), true),
        PollStep::Chunk(c) => if s.rest is Some && s1.rest is None {
            let r = drive(s1, reads);
            (c + r.0, r.1)
        } else {
            (c, false)
        },
        PollStep::Read => if reads.len() == 0 {
            (Seq::empty(), false)
        } else {
            let (s2, out) = read_spec(s1, reads[0]);
            match out {
                None => (Seq::empty(), true),
                Some(c) => {
                    let r = drive(s2, reads.drop_first());
                    (c + r.0, r.1)
                },
            }
        },
    }
}

proof fn lemma_body_bounded_from(l: nat, c: nat, reads: Seq<Seq<u8>>)
    requires
        c <= l,
        concat_reads(reads).len() > l - c,
        forall|i: int| 0 <= i < reads.len() ==> #[trigger] reads[i].len() > 0,
    ensures
        drive(
            BodyState { drained: false, rest: None, counter: c, content_length: Some(l) },
            reads,
        ) == (concat_reads(reads).take(l - c), true),
    decreases reads.len(),
{
    let s = BodyState { drained: false, rest: None, counter: c, content_length: Some(l) };
    if c < l {
        assert(reads.len() > 0);
        let d = reads[0];
        let tail = concat_reads(reads.drop_first());
        assert(concat_reads(reads) == d + tail);
        assert(d.len() > 0);
        let n = allowed(s, d.len());
        let s2 = BodyState { counter: c + n, ..s };
        assert(read_spec(s, d) == (s2, Some(d.take(n as int))));
        if c + n < l {
            assert(forall|i: int|
                0 <= i < reads.drop_first().len() ==> #[trigger] reads.drop_first()[i] == reads[i
                    + 1]);
            lemma_body_bounded_from(l, c + n, reads.drop_first());
            assert(n == d.len());
            assert(d.take(n as int) + tail.take(l - c - n) =~= (d + tail).take(l - c));
        } else {
            assert(drive(s2, reads.drop_first()) == (Seq::<u8>::empty(), true));
            assert(d.take(n as int) + Seq::<u8>::empty() =~= (d + tail).take(l - c));
        }
    } else {
        assert(concat_reads(reads).take(0) =~= Seq::<u8>::empty());
    }
}

/// With a declared length `l` and reads that bring more than `l` bytes in
/// all, the body yields exactly the first `l` of those bytes and then ends
/// without error. Each read is non-empty: an empty read is the end of the
/// transport.
pub proof fn lemma_body_bounded(l: nat, reads: Seq<Seq<u8>>)
    requires
        concat_reads(reads).len() > l,
        forall|i: int| 0 <= i < reads.len() ==> #[trigger] reads[i].len() > 0,
    ensures
        drive(BodyState { drained: false, rest: None, counter: 0, content_length: Some(l) }, reads)
            == (concat_reads(reads).take(l as int), true),
        drive(BodyState { drained: false, rest: None, counter: 0, content_length: Some(l) }, reads).0.len()
            == l,
{
    lemma_body_bounded_from(l, 0, reads);
}

/// Held-back bytes are yielded as the first chunk, before any read, where no
/// declared length cuts them.
pub proof fn lemma_rest_first(rest: Seq<u8>)
    requires
        rest.len() > 0,
    ensures
        poll_spec(BodyState { drained: false, rest: Some(rest), counter: 0, content_length: None }).1
            == PollStep::Chunk(rest),
{
    assert(rest.take(rest.len() as int) =~= rest);
}

} // verus!
