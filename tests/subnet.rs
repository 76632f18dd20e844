use isc2kea::{
    find_subnet_for_ip, find_subnet_for_ip_v6, iface_for_ip, iface_for_ip_v6, ip_in_subnet,
    ip_in_subnet_v6, Subnet, SubnetV6,
};

#[test]
fn test_ip_in_subnet() {
    assert!(ip_in_subnet("192.168.1.10", "192.168.1.0/24").unwrap());
    assert!(ip_in_subnet("192.168.1.254", "192.168.1.0/24").unwrap());
    assert!(!ip_in_subnet("192.168.2.10", "192.168.1.0/24").unwrap());
    assert!(!ip_in_subnet("10.0.0.1", "192.168.1.0/24").unwrap());

    // Test /16
    assert!(ip_in_subnet("10.20.30.40", "10.20.0.0/16").unwrap());
    assert!(!ip_in_subnet("10.21.30.40", "10.20.0.0/16").unwrap());

    // Test /32 (single host)
    assert!(ip_in_subnet("192.168.1.100", "192.168.1.100/32").unwrap());
    assert!(!ip_in_subnet("192.168.1.101", "192.168.1.100/32").unwrap());
}

#[test]
fn test_find_subnet_for_ip() {
    let subnets = vec![
        Subnet {
            uuid: "subnet-1".to_string(),
            cidr: "192.168.1.0/24".to_string(),
            iface: None,
        },
        Subnet {
            uuid: "subnet-2".to_string(),
            cidr: "10.0.0.0/8".to_string(),
            iface: None,
        },
    ];

    assert_eq!(
        find_subnet_for_ip("192.168.1.50", &subnets).unwrap(),
        "subnet-1"
    );
    assert_eq!(
        find_subnet_for_ip("10.20.30.40", &subnets).unwrap(),
        "subnet-2"
    );

    // Should fail for non-matching IP
    let result = find_subnet_for_ip("172.16.0.1", &subnets);
    assert!(result.is_err());
    assert!(result
        .unwrap_err()
        .message()
        .contains("does not match any configured subnet"));
}

#[test]
fn test_find_subnet_for_ip_most_specific() {
    let subnets = vec![
        Subnet {
            uuid: "subnet-wide".to_string(),
            cidr: "10.0.0.0/16".to_string(),
            iface: None,
        },
        Subnet {
            uuid: "subnet-narrow".to_string(),
            cidr: "10.0.1.0/24".to_string(),
            iface: None,
        },
    ];

    assert_eq!(
        find_subnet_for_ip("10.0.1.42", &subnets).unwrap(),
        "subnet-narrow"
    );
}

#[test]
fn test_ip_in_subnet_v6() {
    assert!(ip_in_subnet_v6("2001:db8::1", "2001:db8::/64").unwrap());
    assert!(!ip_in_subnet_v6("2001:db8:1::1", "2001:db8::/64").unwrap());
    assert!(ip_in_subnet_v6("2001:db8::1", "2001:db8::1/128").unwrap());
    assert!(!ip_in_subnet_v6("2001:db8::2", "2001:db8::1/128").unwrap());
}

#[test]
fn test_find_subnet_for_ip_v6() {
    let subnets = vec![
        SubnetV6 {
            uuid: "subnet-6a".to_string(),
            cidr: "2001:db8:42::/64".to_string(),
            iface: None,
        },
        SubnetV6 {
            uuid: "subnet-6b".to_string(),
            cidr: "fd00:abcd::/64".to_string(),
            iface: None,
        },
    ];

    assert_eq!(
        find_subnet_for_ip_v6("2001:db8:42::10", &subnets).unwrap(),
        "subnet-6a"
    );
    assert_eq!(
        find_subnet_for_ip_v6("fd00:abcd::1", &subnets).unwrap(),
        "subnet-6b"
    );

    let result = find_subnet_for_ip_v6("2001:db8:99::1", &subnets);
    assert!(result.is_err());
    assert!(result
        .unwrap_err()
        .message()
        .contains("does not match any configured subnet"));
}

#[test]
fn test_find_subnet_for_ip_v6_most_specific() {
    let subnets = vec![
        SubnetV6 {
            uuid: "subnet-wide".to_string(),
            cidr: "2001:db8::/48".to_string(),
            iface: None,
        },
        SubnetV6 {
            uuid: "subnet-narrow".to_string(),
            cidr: "2001:db8:abcd::/64".to_string(),
            iface: None,
        },
    ];

    assert_eq!(
        find_subnet_for_ip_v6("2001:db8:abcd::42", &subnets).unwrap(),
        "subnet-narrow"
    );
}

#[test]
fn test_iface_for_ip() {
    let iface_cidrs = vec![
        ("lan".to_string(), "192.168.1.0/24".to_string()),
        ("opt1".to_string(), "10.0.0.0/8".to_string()),
    ];

    assert_eq!(iface_for_ip("192.168.1.42", &iface_cidrs).unwrap(), "lan");
    assert_eq!(iface_for_ip("10.20.30.40", &iface_cidrs).unwrap(), "opt1");
    assert!(iface_for_ip("172.16.0.1", &iface_cidrs).is_err());
}

#[test]
fn test_iface_for_ip_v6() {
    let iface_cidrs = vec![
        ("lan".to_string(), "fd00:abcd::/64".to_string()),
        ("opt1".to_string(), "2001:db8:42::/64".to_string()),
    ];

    assert_eq!(
        iface_for_ip_v6("fd00:abcd::1", &iface_cidrs).unwrap(),
        "lan"
    );
    assert_eq!(
        iface_for_ip_v6("2001:db8:42::10", &iface_cidrs).unwrap(),
        "opt1"
    );
    assert!(iface_for_ip_v6("2001:db8:99::1", &iface_cidrs).is_err());
}

#[test]
fn equal_prefixes_resolve_to_the_first_declared() {
    let subnets = vec![
        Subnet { uuid: "first".to_string(), cidr: "10.0.1.0/24".to_string(), iface: None },
        Subnet { uuid: "second".to_string(), cidr: "10.0.1.0/24".to_string(), iface: None },
        Subnet { uuid: "wide".to_string(), cidr: "10.0.0.0/8".to_string(), iface: None },
    ];
    assert_eq!(find_subnet_for_ip("10.0.1.7", &subnets).unwrap(), "first");
    assert_eq!(find_subnet_for_ip("10.9.9.9", &subnets).unwrap(), "wide");
}

#[test]
fn malformed_texts_are_reported() {
    let subnets = vec![Subnet { uuid: "s".to_string(), cidr: "10.0.0.0/33".to_string(), iface: None }];
    let err = find_subnet_for_ip("10.0.0.1", &subnets).unwrap_err();
    assert!(err.message().contains("Invalid CIDR notation: 10.0.0.0/33"));
    let err = find_subnet_for_ip("10.0.0.300", &subnets).unwrap_err();
    assert!(err.message().contains("Invalid IP address: 10.0.0.300"));
    assert!(ip_in_subnet("10.0.0.1", "10.0.0.0").is_err());
    assert!(ip_in_subnet_v6("10.0.0.1", "2001:db8::/64").is_err());
}

#[test]
fn zero_length_prefix_holds_everything() {
    assert!(ip_in_subnet("203.0.113.9", "0.0.0.0/0").unwrap());
    assert!(ip_in_subnet_v6("2001:db8::9", "::/0").unwrap());
    assert!(!ip_in_subnet_v6("2001:db9::", "2001:db8::/32").unwrap());
}

#[test]
fn leading_zero_octets_do_not_read() {
    assert!(ip_in_subnet("192.168.001.010", "192.168.1.0/24").is_err());
    assert!(ip_in_subnet("10.0.0.1", "10.0.0.0/8").unwrap());
    assert!(ip_in_subnet("0.0.0.0", "0.0.0.0/0").unwrap());
}
