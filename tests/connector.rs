use simple_http::connector::{
    ConnectingTcp, HttpConnector, InvalidUrl, IpAddr, IpAddrs, RaceAction, RaceEvent, Side, SocketAddr,
};
use simple_http::destination::Destination;

fn v4(last: u8) -> IpAddr {
    IpAddr::V4(10, 0, 0, last)
}

fn v6(last: u16) -> IpAddr {
    IpAddr::V6(0, 0, 0, 0, 0, 0, 0, last)
}

fn sa(ip: IpAddr) -> SocketAddr {
    SocketAddr { ip, port: 80 }
}

#[test]
fn split_by_family_keeps_order() {
    let batch = IpAddrs::new(&vec![v6(1), v4(1), v6(2), v4(2)], 80);
    let (pref, fall) = batch.split_by_preference();
    assert_eq!(pref.addrs, vec![sa(v6(1)), sa(v6(2))]);
    assert_eq!(fall.addrs, vec![sa(v4(1)), sa(v4(2))]);
}

#[test]
fn fallback_wins_when_preferred_fails() {
    let batch = IpAddrs::new(&vec![v6(1), v6(2), v6(3), v4(9)], 80);
    let mut race = ConnectingTcp::new(batch, true);
    assert_eq!(race.step(RaceEvent::Start), RaceAction::Connect(Side::Preferred, sa(v6(1))));
    assert_eq!(race.step(RaceEvent::Failed(Side::Preferred)), RaceAction::Connect(Side::Preferred, sa(v6(2))));
    assert_eq!(race.step(RaceEvent::TimerFired), RaceAction::Connect(Side::Fallback, sa(v4(9))));
    assert_eq!(race.step(RaceEvent::Failed(Side::Preferred)), RaceAction::Connect(Side::Preferred, sa(v6(3))));
    assert_eq!(race.step(RaceEvent::Failed(Side::Preferred)), RaceAction::Wait);
    assert_eq!(race.step(RaceEvent::Connected(Side::Fallback)), RaceAction::Won(Side::Fallback));
}

#[test]
fn fallback_starts_when_preferred_exhausted_early() {
    let batch = IpAddrs::new(&vec![v4(1), v6(7)], 80);
    let mut race = ConnectingTcp::new(batch, true);
    assert_eq!(race.step(RaceEvent::Start), RaceAction::Connect(Side::Preferred, sa(v4(1))));
    assert_eq!(race.step(RaceEvent::Failed(Side::Preferred)), RaceAction::Connect(Side::Fallback, sa(v6(7))));
    assert_eq!(race.step(RaceEvent::TimerFired), RaceAction::Wait);
    assert_eq!(race.step(RaceEvent::Failed(Side::Fallback)), RaceAction::Failed);
}

#[test]
fn fallback_fails_through_then_preferred_fails() {
    let batch = IpAddrs::new(&vec![v4(1), v4(2), v6(7)], 80);
    let mut race = ConnectingTcp::new(batch, true);
    assert_eq!(race.step(RaceEvent::Start), RaceAction::Connect(Side::Preferred, sa(v4(1))));
    assert_eq!(race.step(RaceEvent::TimerFired), RaceAction::Connect(Side::Fallback, sa(v6(7))));
    assert_eq!(race.step(RaceEvent::Failed(Side::Fallback)), RaceAction::Wait);
    assert_eq!(race.step(RaceEvent::Failed(Side::Preferred)), RaceAction::Connect(Side::Preferred, sa(v4(2))));
    assert_eq!(race.step(RaceEvent::Failed(Side::Preferred)), RaceAction::Failed);
}

#[test]
fn without_fallback_all_in_turn() {
    let batch = IpAddrs::new(&vec![v4(1), v6(1)], 80);
    let mut race = ConnectingTcp::new(batch, false);
    assert_eq!(race.step(RaceEvent::Start), RaceAction::Connect(Side::Preferred, sa(v4(1))));
    assert_eq!(race.step(RaceEvent::TimerFired), RaceAction::Wait);
    assert_eq!(race.step(RaceEvent::Failed(Side::Preferred)), RaceAction::Connect(Side::Preferred, sa(v6(1))));
    assert_eq!(race.step(RaceEvent::Failed(Side::Preferred)), RaceAction::Failed);
}

#[test]
fn empty_batch_fails() {
    let mut race = ConnectingTcp::new(IpAddrs::new(&vec![], 80), true);
    assert_eq!(race.step(RaceEvent::Start), RaceAction::Failed);
}

#[test]
fn preferred_win_drops_fallback() {
    let batch = IpAddrs::new(&vec![v4(1), v6(1)], 443);
    let mut race = ConnectingTcp::new(batch, true);
    assert!(matches!(race.step(RaceEvent::Start), RaceAction::Connect(Side::Preferred, _)));
    assert_eq!(race.step(RaceEvent::Connected(Side::Preferred)), RaceAction::Won(Side::Preferred));
}

#[test]
fn connector_targets() {
    let mut c = HttpConnector::new_with_resolver(());
    assert_eq!(c.happy_eyeballs_timeout, Some(300));
    let http = Destination::parse("http://a.com/").unwrap();
    let t = c.target(&http).unwrap();
    assert_eq!((t.host.as_str(), t.port), ("a.com", 80));
    let https = Destination::parse("https://a.com/").unwrap();
    assert_eq!(c.target(&https).err(), Some(InvalidUrl::NotHttp));
    c.enforce_http(false);
    let t = c.target(&https).unwrap();
    assert_eq!(t.port, 443);
    let custom = Destination::parse("https://a.com:8443/").unwrap();
    assert_eq!(c.target(&custom).unwrap().port, 8443);
    assert_eq!(InvalidUrl::NotHttp.description(), "invalid URL, scheme must be http");
}
