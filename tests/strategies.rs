use jalb::least_connections::LeastConnections;
use jalb::peer::{ConnectAttempt, Peer};
use jalb::weighted::WeightedRoundRobin;

fn weighted_peer(addr: &str, weight: u32) -> Peer {
    let mut p = Peer::new(addr).unwrap();
    p.weight = weight;
    p
}

#[test]
fn weighted_round_robin_on_empty_pool_gives_no_peer() {
    let mut s = WeightedRoundRobin::new();
    assert!(s.next().is_none());
    assert_eq!(s.total_weight(), 0);
}

#[test]
fn weighted_round_robin_follows_virtual_slots() {
    let mut s = WeightedRoundRobin::new();
    s.add_peer(weighted_peer("10.0.0.1:80", 1));
    s.add_peer(weighted_peer("10.0.0.2:80", 4));
    assert_eq!(s.total_weight(), 5);
    let order: Vec<usize> = (0..10).map(|_| s.next().unwrap().0).collect();
    assert_eq!(order, vec![0, 1, 1, 1, 1, 0, 1, 1, 1, 1]);
}

#[test]
fn weighted_round_robin_keeps_turns_after_probe() {
    let mut s = WeightedRoundRobin::new();
    s.add_peer(weighted_peer("10.0.0.1:80", 2));
    s.add_peer(weighted_peer("10.0.0.2:80", 1));
    assert_eq!(s.next().unwrap().0, 0);
    s.record_probe(1, ConnectAttempt::Connected);
    assert_eq!(s.next().unwrap().0, 0);
    let (i, p) = s.next().unwrap();
    assert_eq!(i, 1);
    assert!(p.healthy);
    assert_eq!(s.probe_targets().len(), 2);
}

#[test]
fn least_connections_counts_and_releases() {
    let mut s = LeastConnections::new();
    assert!(s.next().is_none());
    s.add_peer(Peer::new("10.0.0.1:80").unwrap());
    s.add_peer(Peer::new("10.0.0.2:80").unwrap());
    assert_eq!(s.next().unwrap().0, 0);
    assert_eq!(s.next().unwrap().0, 1);
    assert_eq!(s.next().unwrap().0, 0);
    s.release(0);
    s.release(0);
    s.release(7);
    assert_eq!(s.next().unwrap().0, 0);
    assert_eq!(s.len(), 2);
}
