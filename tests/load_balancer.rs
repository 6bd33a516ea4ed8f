use jalb::address::{IpAddress, SocketAddress};
use jalb::config::{
    BackendOptions, Config, LoadBalancerConfig, LoadBalancerStrategy, LoadBalancerType,
    LoggingConfig, PeerConfig,
};
use jalb::errors::{ConfigError, NetworkTargetError, PeerError};
use jalb::load_balancer::{Dispatch, NetworkLoadBalancer};
use jalb::peer::{Coordinate, Peer};
use jalb::security::Security;
use jalb::target::NetworkTarget;

fn peer_entry(addr: &str) -> PeerConfig {
    PeerConfig { address: NetworkTarget::parse(addr).unwrap(), weight: None, coordinates: None }
}

fn config(strategy: LoadBalancerStrategy, peers: Vec<PeerConfig>, security: Security) -> Config {
    Config {
        loadbalancer: LoadBalancerConfig {
            load_balancer_type: LoadBalancerType::Network,
            strategy,
            listener_address: None,
            port: None,
            max_connections: 100,
            max_requests_per_connection: 10,
        },
        logging: LoggingConfig { rotate_logs: true, log_capacity_mb: None },
        security,
        backend: BackendOptions {
            name: "main".to_string(),
            health_endpoint: None,
            health_check_interval_seconds: Some(10),
            health_check_timeout_seconds: Some(2),
            failed_request_threshold: None,
            request_timeout_seconds: Some(5),
            rate_limit: None,
            peers,
        },
    }
}

fn client(a: u8) -> SocketAddress {
    SocketAddress { ip: IpAddress::V4(192, 168, 1, a), port: 50000 }
}

fn forwarded(d: Dispatch) -> String {
    match d {
        Dispatch::Forward(_, p) => p.address.as_string(),
        other => panic!("expected a peer, got {:?}", other),
    }
}

#[test]
fn four_connections_over_three_peers_wrap_around() {
    let cfg = config(
        LoadBalancerStrategy::RoundRobin,
        vec![peer_entry("127.0.0.1:7001"), peer_entry("127.0.0.1:7002"), peer_entry("127.0.0.1:7003")],
        Security::new(),
    );
    let mut lb = NetworkLoadBalancer::new_from_config(&cfg).unwrap();
    assert_eq!(forwarded(lb.listener_task(client(1))), "127.0.0.1:7001");
    assert_eq!(forwarded(lb.listener_task(client(2))), "127.0.0.1:7002");
    assert_eq!(forwarded(lb.listener_task(client(3))), "127.0.0.1:7003");
    assert_eq!(forwarded(lb.listener_task(client(4))), "127.0.0.1:7001");
}

#[test]
fn filtered_client_is_rejected_without_moving_the_cursor() {
    let mut security = Security::new();
    security.add_to_blacklist(IpAddress::V4(192, 168, 1, 9));
    let cfg = config(
        LoadBalancerStrategy::RoundRobin,
        vec![peer_entry("127.0.0.1:7001"), peer_entry("127.0.0.1:7002")],
        security,
    );
    let mut lb = NetworkLoadBalancer::new_from_config(&cfg).unwrap();
    assert!(!lb.is_allowed(&IpAddress::V4(192, 168, 1, 9)));
    assert!(matches!(lb.listener_task(client(9)), Dispatch::Rejected));
    assert_eq!(forwarded(lb.listener_task(client(1))), "127.0.0.1:7001");
}

#[test]
fn empty_pool_gives_no_peer() {
    let cfg = config(LoadBalancerStrategy::RoundRobin, Vec::new(), Security::new());
    let mut lb = NetworkLoadBalancer::new_from_config(&cfg).unwrap();
    assert!(matches!(lb.listener_task(client(1)), Dispatch::NoPeer));
}

#[test]
fn geolocation_strategy_is_refused() {
    let cfg = config(LoadBalancerStrategy::Geolocation, vec![peer_entry("127.0.0.1:7001")], Security::new());
    match NetworkLoadBalancer::new_from_config(&cfg) {
        Err(ConfigError::InvalidStrategy(name)) => assert_eq!(name, "geo"),
        other => panic!("unexpected {:?}", other.map(|_| ())),
    }
}

fn weighted_entry(addr: &str, weight: u32) -> PeerConfig {
    let mut p = peer_entry(addr);
    p.weight = Some(weight);
    p
}

#[test]
fn weighted_strategy_gives_each_peer_its_weight_in_turns() {
    let cfg = config(
        LoadBalancerStrategy::WeightedAverage,
        vec![weighted_entry("127.0.0.1:7001", 2), weighted_entry("127.0.0.1:7002", 1), weighted_entry("127.0.0.1:7003", 3)],
        Security::new(),
    );
    let mut lb = NetworkLoadBalancer::new_from_config(&cfg).unwrap();
    let expected = [
        "127.0.0.1:7001",
        "127.0.0.1:7001",
        "127.0.0.1:7002",
        "127.0.0.1:7003",
        "127.0.0.1:7003",
        "127.0.0.1:7003",
    ];
    for k in 0..12 {
        assert_eq!(forwarded(lb.listener_task(client(1))), expected[k % 6]);
    }
}

#[test]
fn least_used_strategy_picks_fewest_in_flight() {
    let cfg = config(
        LoadBalancerStrategy::LeastUsed,
        vec![peer_entry("127.0.0.1:7001"), peer_entry("127.0.0.1:7002"), peer_entry("127.0.0.1:7003")],
        Security::new(),
    );
    let mut lb = NetworkLoadBalancer::new_from_config(&cfg).unwrap();
    // Ties go to the lowest index.
    assert_eq!(forwarded(lb.listener_task(client(1))), "127.0.0.1:7001");
    assert_eq!(forwarded(lb.listener_task(client(2))), "127.0.0.1:7002");
    assert_eq!(forwarded(lb.listener_task(client(3))), "127.0.0.1:7003");
    // The connection to the second peer finishes: it is now the least loaded.
    lb.connection_closed(1);
    assert_eq!(forwarded(lb.listener_task(client(4))), "127.0.0.1:7002");
    assert_eq!(forwarded(lb.listener_task(client(5))), "127.0.0.1:7001");
}

#[test]
fn bad_peer_entries_are_refused() {
    let mut zero = peer_entry("127.0.0.1:7001");
    zero.weight = Some(0);
    let cfg = config(LoadBalancerStrategy::RoundRobin, vec![zero], Security::new());
    assert!(matches!(
        NetworkLoadBalancer::new_from_config(&cfg),
        Err(ConfigError::InvalidPeer(PeerError::ZeroWeight))
    ));

    let mut far = peer_entry("127.0.0.1:7001");
    far.coordinates = Some(Coordinate { latitude: 91_000_000, longitude: 0 });
    let cfg = config(LoadBalancerStrategy::RoundRobin, vec![far], Security::new());
    assert!(matches!(
        NetworkLoadBalancer::new_from_config(&cfg),
        Err(ConfigError::InvalidPeer(PeerError::CoordinateError))
    ));
}

#[test]
fn health_endpoint_is_joined_to_url_peers() {
    let mut cfg = config(
        LoadBalancerStrategy::RoundRobin,
        vec![peer_entry("http://example.com:8080"), peer_entry("127.0.0.1:7002")],
        Security::new(),
    );
    cfg.backend.health_endpoint = Some("health".to_string());
    let peers = cfg.backend.peers().unwrap();
    assert_eq!(peers[0].probe_target().as_string(), "http://example.com:8080/health");
    assert_eq!(peers[1].probe_target().as_string(), "127.0.0.1:7002");
    assert_eq!(peers[0].weight, 1);

    cfg.backend.peers = vec![peer_entry("data:text/plain,Stuff")];
    assert!(matches!(
        Peer::from_config(&cfg.backend.peers[0], &cfg.backend),
        Err(PeerError::InvalidHealthEndpointError(NetworkTargetError::InvalidUrlBase(_)))
    ));
}

#[test]
fn probe_results_reach_the_pool() {
    let cfg = config(
        LoadBalancerStrategy::RoundRobin,
        vec![peer_entry("127.0.0.1:7001"), peer_entry("127.0.0.1:7002")],
        Security::new(),
    );
    let mut lb = NetworkLoadBalancer::new_from_config(&cfg).unwrap();
    assert_eq!(lb.probe_targets().len(), 2);
    assert!(lb.record_probe(0, jalb::peer::ConnectAttempt::Connected).is_some());
    assert!(lb.record_probe(5, jalb::peer::ConnectAttempt::Connected).is_none());
    match lb.listener_task(client(1)) {
        Dispatch::Forward(i, p) => {
            assert_eq!(i, 0);
            assert!(p.healthy)
        }
        other => panic!("unexpected {:?}", other),
    }
}

#[test]
fn config_defaults() {
    let cfg = config(LoadBalancerStrategy::RoundRobin, Vec::new(), Security::new());
    assert_eq!(cfg.ip(), IpAddress::V4(127, 0, 0, 1));
    assert_eq!(cfg.port(), 9220);
    assert_eq!(cfg.listener_address().to_text(), "127.0.0.1:9220");
    assert_eq!(cfg.log_file_max_size(), 10485760);
    assert!(cfg.rotate_logs());
    assert_eq!(cfg.backend.get_request_timeout(), Some(std::time::Duration::from_secs(5)));
    assert_eq!(cfg.backend.get_health_check_timeout(), Some(std::time::Duration::from_secs(2)));
    let lb = NetworkLoadBalancer::new_from_config(&cfg).unwrap();
    assert_eq!(lb.backend().request_timeout, Some(std::time::Duration::from_secs(5)));
}

#[test]
fn serving_stops_only_after_the_limit() {
    assert!(!jalb::load_balancer::serving_time_over(5, 5));
    assert!(jalb::load_balancer::serving_time_over(6, 5));
    assert!(!jalb::load_balancer::serving_time_over(0, 5));
}
