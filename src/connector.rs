//! The decisions of the TCP connector: which destinations it accepts, the
//! addresses it tries, and the race of a preferred address family against a
//! delayed fallback family. Its owner performs the connection attempts and
//! the timer, and reports back.
use vstd::prelude::*;
use crate::destination::Destination;
use crate::text::same_text;

verus! {

/// An IP address.
#[derive(Debug, Clone, Copy, PartialEq, Eq, Structural)]
pub enum IpAddr {
    V4(u8, u8, u8, u8),
    V6(u16, u16, u16, u16, u16, u16, u16, u16),
}

/// An IP address with a port.
#[derive(Debug, Clone, Copy, PartialEq, Eq, Structural)]
pub struct SocketAddr {
    pub ip: IpAddr,
    pub port: u16,
}

/// Both addresses are of one family.
pub open spec fn same_family(a: IpAddr, b: IpAddr) -> bool {
    (a is V4) == (b is V4)
}

fn is_v4(a: &IpAddr) -> (r: bool)
    ensures
        r == (*a is V4),
{
    match a {
        IpAddr::V4(..) => true,
        IpAddr::V6(..) => false,
    }
}

/// The addresses of `s` of the family of `first` (`keep`), or of the other
/// family, in their order.
pub open spec fn family_filter(s: Seq<SocketAddr>, first: IpAddr, keep: bool) -> Seq<SocketAddr>
    decreases s.len(),
{
    if s.len() == 0 {
        Seq::empty()
    } else if same_family(s.last().ip, first) == keep {
        family_filter(s.drop_last(), first, keep).push(s.last())
    } else {
        family_filter(s.drop_last(), first, keep)
    }
}

/// An ordered batch of addresses to try.
pub struct IpAddrs {
    pub addrs: Vec<SocketAddr>,
}

/// Each of `ips` with `port`, in order.
pub open spec fn with_port(ips: Seq<IpAddr>, port: u16) -> Seq<SocketAddr> {
    ips.map_values(|ip: IpAddr| SocketAddr { ip, port })
}

impl IpAddrs {
    /// The batch of `ips` on `port`, in their order.
    pub fn new(ips: &Vec<IpAddr>, port: u16) -> (r: IpAddrs)
        ensures
            r.addrs@ == with_port(ips@, port),
    {
        let mut addrs: Vec<SocketAddr> = Vec::new();
        let mut i: usize = 0;
        while i < ips.len()
            invariant
                i <= ips@.len(),
                addrs@ == with_port(ips@.take(i as int), port),
            decreases ips@.len() - i,
        {
            addrs.push(SocketAddr { ip: ips[i], port });
            i = i + 1;
            assert(with_port(ips@.take(i as int), port) =~= with_port(ips@.take(i - 1), port).push(
                SocketAddr { ip: ips@[i - 1], port },
            ));
        }
        assert(ips@.take(ips@.len() as int) =~= ips@);
        IpAddrs { addrs }
    }

    /// Splits the batch into the addresses of the family of the first one,
    /// and the others, each in their order.
    pub fn split_by_preference(self) -> (r: (IpAddrs, IpAddrs))
        ensures
            self.addrs@.len() == 0 ==> r.0.addrs@.len() == 0 && r.1.addrs@.len() == 0,
            self.addrs@.len() > 0 ==> r.0.addrs@ == family_filter(self.addrs@, self.addrs@[0].ip, true)
                && r.1.addrs@ == family_filter(self.addrs@, self.addrs@[0].ip, false),
    {
        let mut preferred: Vec<SocketAddr> = Vec::new();
        let mut fallback: Vec<SocketAddr> = Vec::new();
        if self.addrs.len() == 0 {
            return (IpAddrs { addrs: preferred }, IpAddrs { addrs: fallback });
        }
        let first_v4 = is_v4(&self.addrs[0].ip);
        let ghost first = self.addrs@[0].ip;
        let mut i: usize = 0;
        while i < self.addrs.len()
            invariant
                i <= self.addrs@.len(),
                first_v4 == (first is V4),
                preferred@ == family_filter(self.addrs@.take(i as int), first, true),
                fallback@ == family_filter(self.addrs@.take(i as int), first, false),
            decreases self.addrs@.len() - i,
        {
            let a = self.addrs[i];
            assert(self.addrs@.take(i + 1).drop_last() =~= self.addrs@.take(i as int));
            if is_v4(&a.ip) == first_v4 {
                preferred.push(a);
            } else {
                fallback.push(a);
            }
            i = i + 1;
        }
        assert(self.addrs@.take(self.addrs@.len() as int) =~= self.addrs@);
        (IpAddrs { addrs: preferred }, IpAddrs { addrs: fallback })
    }
}

/// Why a destination was refused before any connection attempt.
#[derive(Debug, Clone, Copy, PartialEq, Eq, Structural)]
pub enum InvalidUrl {
    MissingScheme,
    NotHttp,
    MissingAuthority,
}

impl InvalidUrl {
    /// The text of the refusal.
    pub fn description(&self) -> (r: &'static str)
        ensures
            *self == InvalidUrl::MissingScheme ==> r@ == "invalid URL, missing scheme"@,
            *self == InvalidUrl::NotHttp ==> r@ == "invalid URL, scheme must be http"@,
            *self == InvalidUrl::MissingAuthority ==> r@ == "invalid URL, missing domain"@,
    {
        match self {
            InvalidUrl::MissingScheme => "invalid URL, missing scheme",
            InvalidUrl::NotHttp => "invalid URL, scheme must be http",
            InvalidUrl::MissingAuthority => "invalid URL, missing domain",
        }
    }
}

/// Settings of the TCP connector, with the resolver of type `R` that it
/// uses for names.
pub struct HttpConnector<R> {
    pub enforce_http: bool,
    /// How long the preferred family goes alone before the fallback family
    /// joins, in milliseconds; `None` tries all addresses in turn.
    pub happy_eyeballs_timeout: Option<u64>,
    /// Keep-alive interval for the sockets, in milliseconds.
    pub keep_alive_timeout: Option<u64>,
    pub local_address: Option<IpAddr>,
    pub nodelay: bool,
    pub resolver: R,
    pub reuse_address: bool,
}

/// Where a connection is to go: a host name or IP literal, and a port.
pub struct ConnectTarget {
    pub host: String,
    pub port: u16,
}

impl<R> HttpConnector<R> {
    /// A connector over `resolver`: plain `http` only, a fallback delay of
    /// 300 ms, no keep-alive, no local address, no `nodelay`, no address
    /// reuse.
    pub fn new_with_resolver(resolver: R) -> (r: HttpConnector<R>)
        ensures
            r.enforce_http,
            r.happy_eyeballs_timeout == Some(300u64),
            r.keep_alive_timeout is None,
            r.local_address is None,
            !r.nodelay,
            r.resolver == resolver,
            !r.reuse_address,
    {
        HttpConnector {
            enforce_http: true,
            happy_eyeballs_timeout: Some(300),
            keep_alive_timeout: None,
            local_address: None,
            nodelay: false,
            resolver,
            reuse_address: false,
        }
    }

    /// Whether only `http` destinations are accepted.
    pub fn enforce_http(&mut self, is_enforced: bool)
        ensures
            final(self).enforce_http == is_enforced,
            final(self).happy_eyeballs_timeout == old(self).happy_eyeballs_timeout,
            final(self).keep_alive_timeout == old(self).keep_alive_timeout,
            final(self).local_address == old(self).local_address,
            final(self).nodelay == old(self).nodelay,
            final(self).resolver == old(self).resolver,
            final(self).reuse_address == old(self).reuse_address,
    {
        self.enforce_http = is_enforced;
    }

    /// Where a connection to `dst` goes: refused where `http` is enforced and
    /// the scheme is another, where the scheme or the host is empty; the
    /// port is the destination's, else 443 for `https` and 80 otherwise.
    pub fn target(&self, dst: &Destination) -> (r: Result<ConnectTarget, InvalidUrl>)
        ensures
            self.enforce_http && dst@.scheme != "http"@ ==> r == Err::<ConnectTarget, InvalidUrl>(
                InvalidUrl::NotHttp,
            ),
            !self.enforce_http && dst@.scheme.len() == 0 ==> r == Err::<ConnectTarget, InvalidUrl>(
                InvalidUrl::MissingScheme,
            ),
            (self.enforce_http ==> dst@.scheme == "http"@) && dst@.scheme.len() > 0 ==> (
            dst@.host.len() == 0 ==> r == Err::<ConnectTarget, InvalidUrl>(
                InvalidUrl::MissingAuthority,
            )) && (dst@.host.len() > 0 ==> r is Ok && r->Ok_0.host@ == dst@.host
                && r->Ok_0.port == match dst@.port {
                Some(p) => p,
                None => if dst@.scheme == "https"@ {
                    443u16
                } else {
                    80u16
                },
            }),
    {
        let scheme = dst.scheme();
        if self.enforce_http {
            if !same_text(scheme, "http") {
                return Err(InvalidUrl::NotHttp);
            }
        } else if scheme.unicode_len() == 0 {
            return Err(InvalidUrl::MissingScheme);
        }
        proof {
            if self.enforce_http {
                reveal_strlit("http");
            }
        }
        let host = dst.host();
        if host.unicode_len() == 0 {
            return Err(InvalidUrl::MissingAuthority);
        }
        let port = match dst.port() {
            Some(p) => p,
            None => if same_text(scheme, "https") {
                443
            } else {
                80
            },
        };
        Ok(ConnectTarget { host: host.to_owned(), port })
    }
}


/// One side of the race between address families.
#[derive(Debug, Clone, Copy, PartialEq, Eq, Structural)]
pub enum Side {
    Preferred,
    Fallback,
}

/// Where the fallback family stands.
#[derive(Debug, Clone, Copy, PartialEq, Eq, Structural)]
pub enum FallbackState {
    /// Its delay has not run out yet.
    Waiting,
    /// It has joined the race.
    Racing,
    /// It has none or no more addresses.
    Dead,
}

/// What the owner of a race is told.
#[derive(Debug, Clone, Copy, PartialEq, Eq, Structural)]
pub enum RaceEvent {
    /// The race begins.
    Start,
    /// The attempt of a side failed.
    Failed(Side),
    /// The attempt of a side connected.
    Connected(Side),
    /// The fallback delay ran out.
    TimerFired,
}

/// What the owner of a race is to do next.
#[derive(Debug, Clone, Copy, PartialEq, Eq, Structural)]
pub enum RaceAction {
    /// Start an attempt to the address for the side, in place of its last one.
    Connect(Side, SocketAddr),
    /// Wait for an attempt or the timer.
    Wait,
    /// The attempt of the side is the connection; drop the other.
    Won(Side),
    /// Every address failed: report the last error seen.
    Failed,
}

/// What a race holds.
pub struct RaceState {
    pub preferred: Seq<SocketAddr>,
    /// How many preferred addresses have been tried.
    pub pref_next: nat,
    /// A preferred attempt is under way.
    pub pref_live: bool,
    pub fallback: Seq<SocketAddr>,
    /// How many fallback addresses have been tried.
    pub fall_next: nat,
    pub fall: FallbackState,
}

/// Tries the next fallback address, or gives the fallback up.
pub open spec fn advance_fallback(s: RaceState) -> (RaceState, RaceAction) {
    if s.fall_next < s.fallback.len() {
        (
            RaceState { fall_next: s.fall_next + 1, fall: FallbackState::Racing, ..s },
            RaceAction::Connect(Side::Fallback, s.fallback[s.fall_next as int]),
        )
    } else if s.pref_live {
        (RaceState { fall: FallbackState::Dead, ..s }, RaceAction::Wait)
    } else {
        (RaceState { fall: FallbackState::Dead, ..s }, RaceAction::Failed)
    }
}

/// Tries the next preferred address. Once there is none, the fallback
/// family carries on alone, joining at once where its delay has not run
/// out; the race fails only when both families are exhausted.
pub open spec fn advance_preferred(s: RaceState) -> (RaceState, RaceAction) {
    if s.pref_next < s.preferred.len() {
        (
            RaceState { pref_next: s.pref_next + 1, pref_live: true, ..s },
            RaceAction::Connect(Side::Preferred, s.preferred[s.pref_next as int]),
        )
    } else {
        let s1 = RaceState { pref_live: false, ..s };
        match s.fall {
            FallbackState::Waiting => advance_fallback(s1),
            FallbackState::Racing => (s1, RaceAction::Wait),
            FallbackState::Dead => (s1, RaceAction::Failed),
        }
    }
}

/// One step of the race.
pub open spec fn race_step(s: RaceState, e: RaceEvent) -> (RaceState, RaceAction) {
    match e {
        RaceEvent::Start => advance_preferred(s),
        RaceEvent::Failed(Side::Preferred) => if s.pref_live {
            advance_preferred(s)
        } else {
            (s, RaceAction::Wait)
        },
        RaceEvent::Failed(Side::Fallback) => if s.fall == FallbackState::Racing {
            advance_fallback(s)
        } else {
            (s, RaceAction::Wait)
        },
        RaceEvent::Connected(Side::Preferred) => if s.pref_live {
            (s, RaceAction::Won(Side::Preferred))
        } else {
            (s, RaceAction::Wait)
        },
        RaceEvent::Connected(Side::Fallback) => if s.fall == FallbackState::Racing {
            (s, RaceAction::Won(Side::Fallback))
        } else {
            (s, RaceAction::Wait)
        },
        RaceEvent::TimerFired => if s.fall == FallbackState::Waiting && s.pref_live {
            advance_fallback(s)
        } else {
            (s, RaceAction::Wait)
        },
    }
}

/// The race over `preferred` and `fallback`, before it starts.
pub open spec fn race_init(preferred: Seq<SocketAddr>, fallback: Seq<SocketAddr>) -> RaceState {
    RaceState {
        preferred,
        pref_next: 0,
        pref_live: false,
        fallback,
        fall_next: 0,
        fall: if fallback.len() == 0 {
            FallbackState::Dead
        } else {
            FallbackState::Waiting
        },
    }
}

/// A connection attempt over a batch of addresses: the family of the first
/// address goes first, the other joins after a delay.
pub struct ConnectingTcp {
    preferred: Vec<SocketAddr>,
    pref_next: usize,
    pref_live: bool,
    fallback: Vec<SocketAddr>,
    fall_next: usize,
    fall: FallbackState,
}

impl View for ConnectingTcp {
    type V = RaceState;

    closed spec fn view(&self) -> RaceState {
        RaceState {
            preferred: self.preferred@,
            pref_next: self.pref_next as nat,
            pref_live: self.pref_live,
            fallback: self.fallback@,
            fall_next: self.fall_next as nat,
            fall: self.fall,
        }
    }
}

impl ConnectingTcp {
    /// The race over `addrs`: split by family where a fallback delay is set,
    /// else all addresses in turn.
    pub fn new(addrs: IpAddrs, with_fallback: bool) -> (r: ConnectingTcp)
        ensures
            !with_fallback ==> r@ == race_init(addrs.addrs@, Seq::empty()),
            with_fallback && addrs.addrs@.len() > 0 ==> r@ == race_init(
                family_filter(addrs.addrs@, addrs.addrs@[0].ip, true),
                family_filter(addrs.addrs@, addrs.addrs@[0].ip, false),
            ),
            with_fallback && addrs.addrs@.len() == 0 ==> r@ == race_init(Seq::empty(), Seq::empty()),
    {
        if with_fallback {
            let ghost all = addrs.addrs@;
            let (preferred, fallback) = addrs.split_by_preference();
            assert(all.len() == 0 ==> preferred.addrs@ =~= Seq::<SocketAddr>::empty()
                && fallback.addrs@ =~= Seq::<SocketAddr>::empty());
            let fall = if fallback.addrs.len() == 0 {
                FallbackState::Dead
            } else {
                FallbackState::Waiting
            };
            ConnectingTcp {
                preferred: preferred.addrs,
                pref_next: 0,
                pref_live: false,
                fallback: fallback.addrs,
                fall_next: 0,
                fall,
            }
        } else {
            ConnectingTcp {
                preferred: addrs.addrs,
                pref_next: 0,
                pref_live: false,
                fallback: Vec::new(),
                fall_next: 0,
                fall: FallbackState::Dead,
            }
        }
    }

    fn advance_fallback(&mut self) -> (r: RaceAction)
        ensures
            (final(self)@, r) == advance_fallback(old(self)@),
    {
        if self.fall_next < self.fallback.len() {
            let a = self.fallback[self.fall_next];
            self.fall_next = self.fall_next + 1;
            self.fall = FallbackState::Racing;
            RaceAction::Connect(Side::Fallback, a)
        } else {
            self.fall = FallbackState::Dead;
            if self.pref_live {
                RaceAction::Wait
            } else {
                RaceAction::Failed
            }
        }
    }

    fn advance_preferred(&mut self) -> (r: RaceAction)
        ensures
            (final(self)@, r) == advance_preferred(old(self)@),
    {
        if self.pref_next < self.preferred.len() {
            let a = self.preferred[self.pref_next];
            self.pref_next = self.pref_next + 1;
            self.pref_live = true;
            RaceAction::Connect(Side::Preferred, a)
        } else {
            self.pref_live = false;
            match self.fall {
                FallbackState::Waiting => self.advance_fallback(),
                FallbackState::Racing => RaceAction::Wait,
                FallbackState::Dead => RaceAction::Failed,
            }
        }
    }

    /// Takes in what happened and says what to do next.
    pub fn step(&mut self, event: RaceEvent) -> (r: RaceAction)
        ensures
            (final(self)@, r) == race_step(old(self)@, event),
    {
        match event {
            RaceEvent::Start => self.advance_preferred(),
            RaceEvent::Failed(Side::Preferred) => if self.pref_live {
                self.advance_preferred()
            } else {
                RaceAction::Wait
            },
            RaceEvent::Failed(Side::Fallback) => if self.fall == FallbackState::Racing {
                self.advance_fallback()
            } else {
                RaceAction::Wait
            },
            RaceEvent::Connected(Side::Preferred) => if self.pref_live {
                RaceAction::Won(Side::Preferred)
            } else {
                RaceAction::Wait
            },
            RaceEvent::Connected(Side::Fallback) => if self.fall == FallbackState::Racing {
                RaceAction::Won(Side::Fallback)
            } else {
                RaceAction::Wait
            },
            RaceEvent::TimerFired => if self.fall == FallbackState::Waiting && self.pref_live {
                self.advance_fallback()
            } else {
                RaceAction::Wait
            },
        }
    }
}


/// Runs the race from `s` through `events`: the state after them and the
/// action on the last one.
pub open spec fn run_race(s: RaceState, events: Seq<RaceEvent>) -> (RaceState, RaceAction)
    decreases events.len(),
{
    if events.len() == 0 {
        (s, RaceAction::Wait)
    } else if events.len() == 1 {
        race_step(s, events[0])
    } else {
        run_race(race_step(s, events[0]).0, events.drop_first())
    }
}

/// `k` failures of the attempts of `side`.
pub open spec fn failures(side: Side, k: nat) -> Seq<RaceEvent> {
    Seq::new(k, |i: int| RaceEvent::Failed(side))
}

/// The address that the last attempt of `side` went to.
pub open spec fn current_attempt(s: RaceState, side: Side) -> SocketAddr {
    match side {
        Side::Preferred => s.preferred[s.pref_next - 1],
        Side::Fallback => s.fallback[s.fall_next - 1],
    }
}

proof fn lemma_run_concat(s: RaceState, a: Seq<RaceEvent>, b: Seq<RaceEvent>)
    requires
        b.len() > 0,
    ensures
        run_race(s, a + b) == run_race(run_race(s, a).0, b),
    decreases a.len(),
{
    if a.len() == 0 {
        assert(a + b =~= b);
    } else {
        let s1 = race_step(s, a[0]).0;
        assert((a + b).drop_first() =~= a.drop_first() + b);
        assert((a + b)[0] == a[0]);
        lemma_run_concat(s1, a.drop_first(), b);
        if a.len() == 1 {
            assert(a.drop_first() =~= Seq::<RaceEvent>::empty());
        }
    }
}

proof fn lemma_preferred_failures(s: RaceState, k: nat)
    requires
        s.pref_live,
        s.fall == FallbackState::Waiting,
        s.pref_next + k <= s.preferred.len(),
    ensures
        run_race(s, failures(Side::Preferred, k)).0 == (RaceState {
            pref_next: s.pref_next + k,
            ..s
        }),
    decreases k,
{
    if k == 0 {
        assert(RaceState { pref_next: s.pref_next + k, ..s } == s);
    } else {
        let s1 = race_step(s, RaceEvent::Failed(Side::Preferred)).0;
        assert(s1 == RaceState { pref_next: s.pref_next + 1, ..s });
        assert(failures(Side::Preferred, k).drop_first() =~= failures(Side::Preferred, (k - 1) as nat));
        lemma_preferred_failures(s1, (k - 1) as nat);
    }
}

proof fn lemma_racing_survives(s: RaceState, j: nat)
    requires
        s.fall == FallbackState::Racing,
    ensures
        run_race(s, failures(Side::Preferred, j)).0.fall == FallbackState::Racing,
        run_race(s, failures(Side::Preferred, j)).0.fall_next == s.fall_next,
        run_race(s, failures(Side::Preferred, j)).0.fallback == s.fallback,
    decreases j,
{
    if j > 0 {
        let s1 = race_step(s, RaceEvent::Failed(Side::Preferred)).0;
        assert(failures(Side::Preferred, j).drop_first() =~= failures(Side::Preferred, (j - 1) as nat));
        lemma_racing_survives(s1, (j - 1) as nat);
    }
}

/// The action starts an attempt to a fallback address.
pub open spec fn connects_fallback(a: RaceAction) -> bool {
    match a {
        RaceAction::Connect(Side::Fallback, _) => true,
        _ => false,
    }
}

/// Before the timer fires, the fallback family has joined only once every
/// preferred address was tried and none is under way.
pub open spec fn joins_late(s: RaceState) -> bool {
    &&& s.pref_next <= s.preferred.len()
    &&& s.fall == FallbackState::Racing ==> s.fall_next > 0
    &&& s.fall_next > 0 ==> !s.pref_live && s.pref_next == s.preferred.len()
}

proof fn lemma_joins_late_step(s: RaceState, e: RaceEvent)
    requires
        joins_late(s),
        e != RaceEvent::TimerFired,
    ensures
        joins_late(race_step(s, e).0),
        connects_fallback(race_step(s, e).1) ==> race_step(s, e).0.fall_next > 0,
        race_step(s, e).0.preferred == s.preferred,
{
}

proof fn lemma_joins_late_run(s: RaceState, events: Seq<RaceEvent>)
    requires
        joins_late(s),
        forall|i: int| 0 <= i < events.len() ==> events[i] != RaceEvent::TimerFired,
    ensures
        joins_late(run_race(s, events).0),
        connects_fallback(run_race(s, events).1) ==> run_race(s, events).0.fall_next > 0,
        run_race(s, events).0.preferred == s.preferred,
    decreases events.len(),
{
    if events.len() > 0 {
        lemma_joins_late_step(s, events[0]);
    }
    if events.len() > 1 {
        let s1 = race_step(s, events[0]).0;
        assert forall|i: int| 0 <= i < events.drop_first().len() implies events.drop_first()[i]
            != RaceEvent::TimerFired by {
            assert(events.drop_first()[i] == events[i + 1]);
        }
        lemma_joins_late_run(s1, events.drop_first());
    }
}

/// Before the fallback delay runs out, a fallback address is tried only
/// once every preferred address has been tried and has failed: as long as
/// the timer has not fired, a step that asks to connect to a fallback
/// address leaves no preferred address untried and no preferred attempt
/// under way.
pub proof fn lemma_fallback_waits_for_timer_or_exhaustion(
    preferred: Seq<SocketAddr>,
    fallback: Seq<SocketAddr>,
    events: Seq<RaceEvent>,
)
    requires
        forall|i: int| 0 <= i < events.len() ==> events[i] != RaceEvent::TimerFired,
    ensures
        ({
            let r = run_race(race_init(preferred, fallback), events);
            connects_fallback(r.1) ==> r.0.pref_next == preferred.len() && !r.0.pref_live
        }),
{
    lemma_joins_late_run(race_init(preferred, fallback), events);
}

/// When every preferred address fails before the fallback delay runs out,
/// the first fallback address is tried at once.
pub proof fn lemma_fallback_after_exhaustion(preferred: Seq<SocketAddr>, fallback: Seq<SocketAddr>)
    requires
        preferred.len() > 0,
        fallback.len() > 0,
    ensures
        run_race(
            race_init(preferred, fallback),
            seq![RaceEvent::Start] + failures(Side::Preferred, preferred.len()),
        ).1 == RaceAction::Connect(Side::Fallback, fallback[0]),
{
    let s0 = race_init(preferred, fallback);
    let n = preferred.len();
    let start = seq![RaceEvent::Start];
    let f1 = failures(Side::Preferred, (n - 1) as nat);
    let last = seq![RaceEvent::Failed(Side::Preferred)];
    assert(failures(Side::Preferred, n) =~= f1 + last);
    assert(start + failures(Side::Preferred, n) =~= start + (f1 + last));
    let s1 = run_race(s0, start).0;
    assert(s1 == RaceState { pref_next: 1, pref_live: true, ..s0 });
    lemma_preferred_failures(s1, (n - 1) as nat);
    lemma_run_concat(s0, start, f1 + last);
    lemma_run_concat(s1, f1, last);
}

/// When the fallback delay runs out after `k` of the preferred addresses
/// have failed, fewer than all of them, the first fallback address is
/// tried; once that attempt connects the connection goes through it,
/// whatever further preferred failures came in between.
pub proof fn lemma_fallback_wins(
    preferred: Seq<SocketAddr>,
    fallback: Seq<SocketAddr>,
    k: nat,
    j: nat,
)
    requires
        fallback.len() > 0,
        k < preferred.len(),
    ensures
        ({
            let events = seq![RaceEvent::Start] + failures(Side::Preferred, k) + seq![
                RaceEvent::TimerFired,
            ] + failures(Side::Preferred, j) + seq![RaceEvent::Connected(Side::Fallback)];
            let r = run_race(race_init(preferred, fallback), events);
            r.1 == RaceAction::Won(Side::Fallback) && current_attempt(r.0, Side::Fallback)
                == fallback[0]
        }),
{
    let s0 = race_init(preferred, fallback);
    let start = seq![RaceEvent::Start];
    let f1 = failures(Side::Preferred, k);
    let timer = seq![RaceEvent::TimerFired];
    let f2 = failures(Side::Preferred, j);
    let conn = seq![RaceEvent::Connected(Side::Fallback)];
    let s1 = run_race(s0, start).0;
    assert(s1 == RaceState { pref_next: 1, pref_live: true, ..s0 });
    lemma_preferred_failures(s1, k);
    let s2 = run_race(s1, f1).0;
    lemma_run_concat(s0, start, f1 + timer + f2 + conn);
    assert(start + f1 + timer + f2 + conn =~= start + (f1 + timer + f2 + conn));
    lemma_run_concat(s1, f1, timer + f2 + conn);
    assert(f1 + timer + f2 + conn =~= f1 + (timer + f2 + conn));
    let s3 = run_race(s2, timer).0;
    assert(s3 == RaceState { fall_next: 1, fall: FallbackState::Racing, ..s2 });
    lemma_run_concat(s2, timer, f2 + conn);
    assert(timer + f2 + conn =~= timer + (f2 + conn));
    lemma_racing_survives(s3, j);
    lemma_run_concat(s3, f2, conn);
}

} // verus!
