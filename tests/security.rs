use jalb::address::IpAddress;
use jalb::security::Security;

#[test]
fn test_ip_filter_basic() {
    let mut filter = Security::new();
    filter.add_to_whitelist(IpAddress::V4(127, 0, 0, 1));

    let allowed_ip = IpAddress::V4(127, 0, 0, 1);
    let disallowed_ip = IpAddress::V4(192, 168, 2, 11);

    assert!(filter.is_allowed(&allowed_ip));
    assert!(!filter.is_allowed(&disallowed_ip));
}

#[test]
fn test_ip_filter_no_whitelist() {
    let mut filter = Security::new();

    filter.add_to_blacklist(IpAddress::V4(168, 11, 12, 15));

    let allowed_ips: Vec<IpAddress> = vec![
        IpAddress::V4(168, 10, 12, 15),
        IpAddress::V4(168, 13, 12, 15),
        IpAddress::V4(168, 14, 12, 15),
        IpAddress::V4(112, 10, 12, 55),
        IpAddress::V4(148, 10, 15, 15),
        IpAddress::V4(158, 10, 12, 15),
        IpAddress::V4(168, 10, 125, 5),
        IpAddress::V4(158, 10, 12, 15),
        IpAddress::V4(92, 10, 12, 15),
        IpAddress::V4(127, 0, 0, 1),
    ];

    for ip in allowed_ips {
        assert!(filter.is_allowed(&ip))
    }

    // The deny set wins: a denied address is refused.
    let disallowed_ip = IpAddress::V4(168, 11, 12, 15);
    assert!(!filter.is_allowed(&disallowed_ip));
}

#[test]
fn deny_wins_over_allow() {
    let mut filter = Security::new();
    let x = IpAddress::V4(10, 0, 0, 7);
    filter.add_to_whitelist(x);
    filter.add_to_blacklist(x);
    assert!(!filter.is_allowed(&x));
}

#[test]
fn empty_allow_set_lets_any_address_in() {
    let mut filter = Security::new();
    filter.add_to_blacklist(IpAddress::V4(10, 0, 0, 1));
    assert!(filter.is_allowed(&IpAddress::V4(10, 0, 0, 2)));
    assert!(filter.is_allowed(&IpAddress::V6(1)));
    assert!(Security::new().is_allowed(&IpAddress::V4(1, 2, 3, 4)));
}

#[test]
fn allow_set_without_address_refuses_it() {
    let mut filter = Security::new();
    filter.add_to_whitelist(IpAddress::V4(10, 0, 0, 1));
    assert!(!filter.is_allowed(&IpAddress::V4(10, 0, 0, 2)));
}

#[test]
fn removing_from_sets_restores_access() {
    let mut filter = Security::new();
    let x = IpAddress::V4(10, 0, 0, 1);
    let y = IpAddress::V4(10, 0, 0, 2);
    filter.add_to_blacklist(x);
    filter.add_to_blacklist(x);
    assert!(!filter.is_allowed(&x));
    filter.remove_from_blacklist(&x);
    assert!(filter.is_allowed(&x));
    filter.add_to_whitelist(x);
    assert!(!filter.is_allowed(&y));
    filter.remove_from_whitelist(&x);
    assert!(filter.is_allowed(&y));
}
