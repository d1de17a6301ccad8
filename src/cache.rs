//! The cache in front of the DNS resolver: the addresses last resolved for
//! each name, with the time they were recorded. The caller supplies the
//! clock and shares the cache between lookups.
use vstd::prelude::*;
use crate::connector::IpAddr;
use crate::text::same_text;

verus! {

/// A cached resolution: the name, its addresses, and when they were recorded.
pub struct CacheEntry {
    pub name: String,
    pub addrs: Vec<IpAddr>,
    pub recorded_at: u64,
}

/// What a cache entry holds.
pub struct EntryView {
    pub name: Seq<char>,
    pub addrs: Seq<IpAddr>,
    pub recorded_at: u64,
}

/// The view of a list of entries.
pub open spec fn entries_view(es: Seq<CacheEntry>) -> Seq<EntryView> {
    es.map_values(|e: CacheEntry| EntryView { name: e.name@, addrs: e.addrs@, recorded_at: e.recorded_at })
}

/// The position of the entry for `name`, if any.
pub open spec fn index_of(es: Seq<EntryView>, name: Seq<char>) -> Option<nat>
    decreases es.len(),
{
    if es.len() == 0 {
        None
    } else if es[0].name == name {
        Some(0)
    } else {
        match index_of(es.drop_first(), name) {
            Some(i) => Some(i + 1),
            None => None,
        }
    }
}

/// The addresses that a lookup of `name` at time `now` gives: those cached,
/// where they were recorded strictly before `now`.
pub open spec fn lookup_spec(es: Seq<EntryView>, name: Seq<char>, now: u64) -> Option<Seq<IpAddr>> {
    match index_of(es, name) {
        Some(i) => if es[i as int].recorded_at < now {
            Some(es[i as int].addrs)
        } else {
            None
        },
        None => None,
    }
}

/// The entries after recording `addrs` for `name` at `now`: in place of the
/// entry for `name`, or after all others.
pub open spec fn add_spec(es: Seq<EntryView>, name: Seq<char>, addrs: Seq<IpAddr>, now: u64) -> Seq<EntryView> {
    let e = EntryView { name, addrs, recorded_at: now };
    match index_of(es, name) {
        Some(i) => es.update(i as int, e),
        None => es.push(e),
    }
}

/// A shared record of resolved names.
pub struct ResolverCache {
    entries: Vec<CacheEntry>,
}

impl View for ResolverCache {
    type V = Seq<EntryView>;

    closed spec fn view(&self) -> Seq<EntryView> {
        entries_view(self.entries@)
    }
}

/// A copy of `v`.
fn copy_addrs(v: &Vec<IpAddr>) -> (r: Vec<IpAddr>)
    ensures
        r@ == v@,
{
    let mut out: Vec<IpAddr> = Vec::new();
    let mut i: usize = 0;
    while i < v.len()
        invariant
            i <= v@.len(),
            out@ == v@.take(i as int),
        decreases v@.len() - i,
    {
        out.push(v[i]);
        i = i + 1;
        assert(out@ =~= v@.take(i as int));
    }
    assert(v@.take(v@.len() as int) =~= v@);
    out
}

impl ResolverCache {
    /// An empty cache.
    pub fn new() -> (r: ResolverCache)
        ensures
            r@.len() == 0,
    {
        ResolverCache { entries: Vec::new() }
    }

    /// The position of the entry for `name`.
    fn position(&self, name: &str) -> (r: Option<usize>)
        ensures
            match r {
                Some(i) => index_of(self@, name@) == Some(i as nat) && i < self@.len(),
                None => index_of(self@, name@) is None,
            },
    {
        let mut i: usize = 0;
        assert(self@.skip(0) =~= self@);
        while i < self.entries.len()
            invariant
                i <= self.entries@.len(),
                self@.len() == self.entries@.len(),
                forall|j: int| 0 <= j < i ==> self@[j].name != name@,
                index_of(self@, name@) == match index_of(self@.skip(i as int), name@) {
                    Some(k) => Some((k + i) as nat),
                    None => None,
                },
            decreases self.entries@.len() - i,
        {
            assert(self@.skip(i as int).drop_first() =~= self@.skip(i + 1));
            assert(self@.skip(i as int)[0] == self@[i as int]);
            if same_text(self.entries[i].name.as_str(), name) {
                return Some(i);
            }
            i = i + 1;
        }
        None
    }

    /// The addresses cached for `name`, where recorded strictly before
    /// `now`. An entry recorded at `now` or later is not used; no entry is
    /// ever too old.
    pub fn lookup(&self, name: &str, now: u64) -> (r: Option<Vec<IpAddr>>)
        ensures
            match r {
                Some(v) => lookup_spec(self@, name@, now) == Some(v@),
                None => lookup_spec(self@, name@, now) is None,
            },
    {
        match self.position(name) {
            Some(i) => {
                if self.entries[i].recorded_at < now {
                    Some(copy_addrs(&self.entries[i].addrs))
                } else {
                    None
                }
            },
            None => None,
        }
    }

    /// Records `addrs` for `name` at `now`.
    pub fn add(&mut self, name: String, addrs: Vec<IpAddr>, now: u64)
        ensures
            final(self)@ == add_spec(old(self)@, name@, addrs@, now),
    {
        let entry = CacheEntry { name: name.clone(), addrs, recorded_at: now };
        match self.position(name.as_str()) {
            Some(i) => {
                self.entries.set(i, entry);
                assert(entries_view(self.entries@) =~= add_spec(entries_view(old(self).entries@), name@, entry.addrs@, now));
            },
            None => {
                self.entries.push(entry);
                assert(entries_view(self.entries@) =~= add_spec(entries_view(old(self).entries@), name@, entry.addrs@, now));
            },
        }
    }
}

} // verus!
