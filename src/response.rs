//! A parsed response: status, headers, and the body that follows.
use vstd::prelude::*;
use crate::body::Body;
use crate::text::same_text;

verus! {

/// The view of a list of name and value pairs.
pub open spec fn pairs_view(v: Seq<(String, String)>) -> Seq<(Seq<char>, Seq<char>)> {
    v.map_values(|p: (String, String)| (p.0@, p.1@))
}

/// The value of the first pair named `name`, if any.
pub open spec fn first_value(pairs: Seq<(Seq<char>, Seq<char>)>, name: Seq<char>) -> Option<
    Seq<char>,
>
    decreases pairs.len(),
{
    if pairs.len() == 0 {
        None
    } else if pairs[0].0 == name {
        Some(pairs[0].1)
    } else {
        first_value(pairs.drop_first(), name)
    }
}

/// Response headers, in the order received. A name may occur more than
/// once; lookups give its first value.
pub struct HeaderMap {
    pairs: Vec<(String, String)>,
}

impl View for HeaderMap {
    type V = Seq<(Seq<char>, Seq<char>)>;

    closed spec fn view(&self) -> Seq<(Seq<char>, Seq<char>)> {
        pairs_view(self.pairs@)
    }
}

impl HeaderMap {
    /// The headers `vec`, in their order.
    pub fn new(vec: Vec<(String, String)>) -> (r: HeaderMap)
        ensures
            r@ == pairs_view(vec@),
    {
        HeaderMap { pairs: vec }
    }

    /// The first value of header `name`, if any.
    pub fn get(&self, name: &str) -> (r: Option<&str>)
        ensures
            match r {
                Some(v) => first_value(self@, name@) == Some(v@),
                None => first_value(self@, name@) is None,
            },
    {
        let mut i: usize = 0;
        assert(pairs_view(self.pairs@).skip(0) =~= pairs_view(self.pairs@));
        while i < self.pairs.len()
            invariant
                i <= self.pairs@.len(),
                first_value(self@, name@) == first_value(pairs_view(self.pairs@).skip(i as int), name@),
            decreases self.pairs@.len() - i,
        {
            assert(pairs_view(self.pairs@).skip(i as int).drop_first() =~= pairs_view(self.pairs@).skip(i + 1));
            if same_text(self.pairs[i].0.as_str(), name) {
                return Some(self.pairs[i].1.as_str());
            }
            i = i + 1;
        }
        None
    }

    /// The number of headers.
    pub fn len(&self) -> (r: usize)
        ensures
            r == self@.len(),
    {
        self.pairs.len()
    }
}

/// A response: its status code, headers and body.
pub struct Response {
    status_code: u16,
    headers: HeaderMap,
    body: Body,
}

impl Response {
    /// A response with `status_code`, `headers` and `body`.
    pub fn new(status_code: u16, headers: Vec<(String, String)>, body: Body) -> (r: Response)
        ensures
            r.status_spec() == status_code,
            r.headers_spec() == pairs_view(headers@),
            r.body_spec()@ == body@,
    {
        Response { status_code, headers: HeaderMap::new(headers), body }
    }

    pub closed spec fn status_spec(&self) -> u16 {
        self.status_code
    }

    pub closed spec fn headers_spec(&self) -> Seq<(Seq<char>, Seq<char>)> {
        self.headers@
    }

    pub closed spec fn body_spec(&self) -> Body {
        self.body
    }

    /// The headers.
    pub fn headers(&self) -> (r: &HeaderMap)
        ensures
            r@ == self.headers_spec(),
    {
        &self.headers
    }

    /// The status code.
    pub fn status(&self) -> (r: u16)
        ensures
            r == self.status_spec(),
    {
        self.status_code
    }

    /// The body, as a stream of chunks.
    pub fn into_body(self) -> (r: Body)
        ensures
            r@ == self.body_spec()@,
    {
        self.body
    }
}

} // verus!
