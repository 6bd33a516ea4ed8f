use jalb::address::{IpAddress, SocketAddress};
use jalb::peer::{ConnectAttempt, Coordinate, Peer, ProbeOutcome};
use jalb::selector::{RoundRobin, Selector};
use jalb::target::NetworkTarget;

fn address_of(p: &Option<Peer>) -> String {
    p.as_ref().unwrap().address.as_string()
}

#[test]
fn test_round_robin() {
    let peers = vec![
        Peer::new("127.0.0.1:8080").unwrap(),
        Peer::new("127.0.0.1:8081").unwrap(),
        Peer::new("127.0.0.1:8082").unwrap(),
        Peer::new("127.0.0.1:8083").unwrap(),
        Peer::new("127.0.0.1:8084").unwrap(),
        Peer::new("127.0.0.1:8085").unwrap(),
    ];

    let mut selector = RoundRobin::default();

    for peer in peers {
        selector.add_peer(peer);
    }

    let peer1 = selector.next();
    assert_eq!(address_of(&peer1), "127.0.0.1:8080");
}

#[test]
fn round_robin_cycles_in_pool_order() {
    let mut selector = RoundRobin::new();
    selector.add_peer(Peer::new("10.0.0.1:80").unwrap());
    selector.add_peer(Peer::new("10.0.0.2:80").unwrap());
    selector.add_peer(Peer::new("10.0.0.3:80").unwrap());
    let expected = ["10.0.0.1:80", "10.0.0.2:80", "10.0.0.3:80"];
    for k in 0..7 {
        assert_eq!(address_of(&selector.next()), expected[k % 3]);
    }
}

#[test]
fn round_robin_on_empty_pool_gives_no_peer() {
    let mut selector = RoundRobin::new();
    assert!(selector.next().is_none());
    assert!(Selector::next(&mut selector).is_none());
    assert_eq!(selector.len(), 0);
}

#[test]
fn trait_next_follows_the_same_order() {
    let mut selector = RoundRobin::new();
    Selector::add_peer(&mut selector, Peer::new("10.0.0.1:80").unwrap());
    Selector::add_peer(&mut selector, Peer::new("10.0.0.2:80").unwrap());
    assert_eq!(address_of(&Selector::next(&mut selector)), "10.0.0.1:80");
    assert_eq!(address_of(&Selector::next(&mut selector)), "10.0.0.2:80");
    assert_eq!(address_of(&Selector::next(&mut selector)), "10.0.0.1:80");
}

#[test]
fn peer_starts_unhealthy_with_weight_one() {
    let p = Peer::new("127.0.0.1:9000").unwrap();
    assert!(!p.healthy);
    assert_eq!(p.weight, 1);
    assert!(p.coordinates.is_none());
    assert!(p.health_endpoint.is_none());
}

#[test]
fn timed_out_probe_marks_peer_unhealthy() {
    let mut p = Peer::new("127.0.0.1:9000").unwrap();
    assert_eq!(p.record_probe(ConnectAttempt::Connected), ProbeOutcome::Healthy);
    assert!(p.healthy);
    assert_eq!(p.record_probe(ConnectAttempt::TimedOut), ProbeOutcome::Unreachable);
    assert!(!p.healthy);
    assert_eq!(p.record_probe(ConnectAttempt::Failed), ProbeOutcome::Unreachable);
    assert!(!p.healthy);
}

#[test]
fn pool_records_probe_of_one_peer() {
    let mut selector = RoundRobin::with_pool(vec![
        Peer::new("10.0.0.1:80").unwrap(),
        Peer::new("10.0.0.2:80").unwrap(),
    ]);
    assert_eq!(selector.record_probe(1, ConnectAttempt::Connected), ProbeOutcome::Healthy);
    let first = selector.next().unwrap();
    let second = selector.next().unwrap();
    assert!(!first.healthy);
    assert!(second.healthy);
    let targets = selector.probe_targets();
    assert_eq!(targets.len(), 2);
    assert_eq!(targets[1], NetworkTarget::SocketAddr(SocketAddress { ip: IpAddress::V4(10, 0, 0, 2), port: 80 }));
}

#[test]
fn coordinates_are_checked_for_range() {
    assert!(Coordinate::new(90_000_000, -180_000_000).is_ok());
    assert!(Coordinate::new(-90_000_000, 180_000_000).is_ok());
    assert!(Coordinate::new(90_000_001, 0).is_err());
    assert!(Coordinate::new(0, -180_000_001).is_err());
}
