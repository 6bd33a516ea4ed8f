use jalb::backend::Backend;
use jalb::selectors::{RoundRobinSelector, Selector};

#[test]
fn should_select_next() {
    let mut selector = RoundRobinSelector::new();

    let backends = vec![
        Backend::new("127.0.0.1:3000").unwrap(),
        Backend::new("127.0.0.1:3002").unwrap(),
        Backend::new("127.0.0.1:3003").unwrap(),
        Backend::new("127.0.0.1:3004").unwrap(),
    ];

    assert_eq!(selector.select_service(&backends), Some(0));
    assert_eq!(selector.select_service(&backends), Some(1));
    assert_eq!(selector.select_service(&backends), Some(2));
    assert_eq!(selector.select_service(&backends), Some(3));

    assert_eq!(selector.select_service(&backends), Some(0));
}

#[test]
fn select_service_on_no_backends_is_none() {
    let mut selector = RoundRobinSelector::default();
    let backends: Vec<Backend> = Vec::new();
    assert_eq!(Selector::select_service(&mut selector, &backends), None);
    assert_eq!(selector.select_service(&backends), None);
}

#[test]
fn select_service_stays_in_bounds_when_the_list_shrinks() {
    let mut selector = RoundRobinSelector::new();
    let four = vec![
        Backend::new("127.0.0.1:3000").unwrap(),
        Backend::new("127.0.0.1:3001").unwrap(),
        Backend::new("127.0.0.1:3002").unwrap(),
        Backend::new("127.0.0.1:3003").unwrap(),
    ];
    assert_eq!(selector.select_service(&four), Some(0));
    assert_eq!(selector.select_service(&four), Some(1));
    assert_eq!(selector.select_service(&four), Some(2));
    let two = vec![
        Backend::new("127.0.0.1:3000").unwrap(),
        Backend::new("127.0.0.1:3001").unwrap(),
    ];
    assert_eq!(selector.select_service(&two), Some(1));
    assert_eq!(selector.select_service(&two), Some(0));
}

#[test]
fn backend_builders_set_one_option_each() {
    let b = Backend::new("127.0.0.1:3000")
        .unwrap()
        .with_health_endpoint("health")
        .with_health_check_interval(std::time::Duration::from_secs(5))
        .with_request_timeout(std::time::Duration::from_secs(7))
        .with_failed_request_threshold(3)
        .with_rate_limit(100);
    assert_eq!(b.health_endpoint.as_deref(), Some("health"));
    assert_eq!(b.health_check_interval, Some(std::time::Duration::from_secs(5)));
    assert_eq!(b.request_timeout, Some(std::time::Duration::from_secs(7)));
    assert_eq!(b.failed_request_threshold, Some(3));
    assert_eq!(b.rate_limit, Some(100));
    assert_eq!(b.health_check_timeout, None);
    assert_eq!(b.targets.len(), 1);
    assert_eq!(b.targets[0].as_string(), "127.0.0.1:3000");
}

#[test]
fn backend_new_refuses_bad_address() {
    assert!(Backend::new("nowhere").is_err());
}
