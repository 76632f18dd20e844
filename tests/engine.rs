use isc2kea::engine::{convert_dnsmasq, convert_kea, scan_dnsmasq, scan_kea, DnsmasqData, KeaData, SourceData};
use isc2kea::{
    scan_counts, Backend, IscDhcpOptionsV4, IscRangeV4, IscStaticMap, IscStaticMapV6,
    MigrationError, MigrationOptions, Subnet, SubnetV6,
};

fn mapping(iface: &str, mac: &str, ip: &str) -> IscStaticMap {
    IscStaticMap {
        iface: iface.to_string(),
        mac: mac.to_string(),
        ipaddr: ip.to_string(),
        hostname: Some("host".to_string()),
        cid: None,
        descr: None,
    }
}

fn mapping_v6(iface: &str, duid: &str, ip: &str) -> IscStaticMapV6 {
    IscStaticMapV6 {
        iface: iface.to_string(),
        duid: duid.to_string(),
        ipaddr: ip.to_string(),
        hostname: None,
        descr: None,
        domain_search: Some("example.com other.org".to_string()),
    }
}

fn source(mappings: Vec<IscStaticMap>, ifaces: Vec<(&str, &str)>) -> SourceData {
    SourceData {
        mappings,
        mappings_v6: Vec::new(),
        ranges: Vec::new(),
        ranges_v6: Vec::new(),
        options_v4: Vec::new(),
        options_v6: Vec::new(),
        iface_cidrs: ifaces.iter().map(|(a, b)| (a.to_string(), b.to_string())).collect(),
        iface_cidrs_v6: Vec::new(),
        flags_v4: Vec::new(),
        flags_v6: Vec::new(),
    }
}

fn kea(subnets: Vec<(&str, &str)>, reserved: Vec<&str>) -> KeaData {
    KeaData {
        has_dhcp4: true,
        has_dhcp6: true,
        subnets: subnets
            .iter()
            .map(|(u, c)| Subnet { uuid: u.to_string(), cidr: c.to_string(), iface: None })
            .collect(),
        subnets_v6: Vec::new(),
        reservation_ips: reserved.iter().map(|s| s.to_string()).collect(),
        reservation_ips_v6: Vec::new(),
        reservation_duids_v6: Vec::new(),
        option_values: Vec::new(),
        option_values_v6: Vec::new(),
        interfaces: None,
        interfaces_v6: None,
    }
}

fn flat(present: bool) -> DnsmasqData {
    DnsmasqData {
        present,
        host_ips: Vec::new(),
        host_macs: Vec::new(),
        host_client_ids: Vec::new(),
        range_keys: Vec::new(),
        option_keys: Vec::new(),
        interfaces: None,
    }
}

fn field<'a>(fields: &'a [(String, String)], name: &str) -> Option<&'a str> {
    fields.iter().find(|(n, _)| n == name).map(|(_, v)| v.as_str())
}

#[test]
fn one_mapping_one_subnet_is_reserved() {
    let src = source(vec![mapping("lan", "00:11:22:33:44:55", "192.168.1.10")], vec![("lan", "192.168.1.0/24")]);
    let data = kea(vec![("s1", "192.168.1.0/24")], vec![]);
    let opts = MigrationOptions::default();
    let scan = scan_kea(&src, &data, &opts).unwrap();
    assert_eq!(scan.reservations_to_create, 1);
    assert_eq!(scan.reservations_skipped, 0);
    let conv = convert_kea(&src, &data, &opts).unwrap();
    assert_eq!(conv.stats.reservations_to_create, 1);
    let rec = conv.reservations[0].as_ref().unwrap();
    assert_eq!(rec.tag, "reservation");
    assert!(!rec.uuid.is_empty());
    assert_eq!(field(&rec.fields, "subnet"), Some("s1"));
    assert_eq!(field(&rec.fields, "ip_address"), Some("192.168.1.10"));
    assert_eq!(field(&rec.fields, "hw_address"), Some("00:11:22:33:44:55"));
    assert_eq!(field(&rec.fields, "hostname"), Some("host"));
}

#[test]
fn existing_reservation_is_skipped() {
    let src = source(vec![mapping("lan", "00:11:22:33:44:55", "192.168.1.10")], vec![("lan", "192.168.1.0/24")]);
    let data = kea(vec![("s1", "192.168.1.0/24")], vec!["192.168.1.10"]);
    let opts = MigrationOptions::default();
    let scan = scan_kea(&src, &data, &opts).unwrap();
    assert_eq!((scan.reservations_to_create, scan.reservations_skipped), (0, 1));
    let conv = convert_kea(&src, &data, &opts).unwrap();
    assert_eq!((conv.stats.reservations_to_create, conv.stats.reservations_skipped), (0, 1));
    assert!(conv.reservations.iter().all(|r| r.is_none()));
}

#[test]
fn source_duplicates_keep_the_first() {
    let src = source(
        vec![
            mapping("lan", "00:11:22:33:44:55", "192.168.1.10"),
            mapping("lan", "66:77:88:99:aa:bb", "192.168.1.10"),
        ],
        vec![("lan", "192.168.1.0/24")],
    );
    let data = kea(vec![("s1", "192.168.1.0/24")], vec![]);
    let conv = convert_kea(&src, &data, &MigrationOptions::default()).unwrap();
    assert_eq!((conv.stats.reservations_to_create, conv.stats.reservations_skipped), (1, 1));
    assert!(conv.reservations[0].is_some());
    assert!(conv.reservations[1].is_none());
}

#[test]
fn second_conversion_creates_nothing() {
    let src = source(
        vec![mapping("lan", "00:11:22:33:44:55", "192.168.1.10"), mapping("lan", "00:11:22:33:44:56", "192.168.1.11")],
        vec![("lan", "192.168.1.0/24")],
    );
    let data = kea(vec![("s1", "192.168.1.0/24")], vec![]);
    let first = convert_kea(&src, &data, &MigrationOptions::default()).unwrap();
    assert_eq!(first.stats.reservations_to_create, 2);
    let data2 = kea(vec![("s1", "192.168.1.0/24")], vec!["192.168.1.10", "192.168.1.11"]);
    let second = convert_kea(&src, &data2, &MigrationOptions::default()).unwrap();
    assert_eq!(second.stats.reservations_to_create, 0);
    assert_eq!(second.stats.reservations_skipped, 2);
}

#[test]
fn declared_interface_must_hold_the_address() {
    let src = source(
        vec![mapping("opt1", "00:11:22:33:44:55", "192.168.1.10")],
        vec![("lan", "192.168.1.0/24"), ("opt1", "10.0.0.0/24")],
    );
    let data = kea(vec![("s1", "192.168.1.0/24")], vec![]);
    for r in [scan_kea(&src, &data, &MigrationOptions::default()).map(|_| ()), convert_kea(&src, &data, &MigrationOptions::default()).map(|_| ())] {
        match r {
            Err(MigrationError::InterfaceMismatch { ip, isc_iface, derived_iface }) => {
                assert_eq!(ip, "192.168.1.10");
                assert_eq!(isc_iface, "opt1");
                assert_eq!(derived_iface, "lan");
            }
            other => panic!("unexpected {:?}", other),
        }
    }
}

#[test]
fn interface_names_compare_without_case() {
    let src = source(vec![mapping("LAN", "00:11:22:33:44:55", "192.168.1.10")], vec![("lan", "192.168.1.0/24")]);
    let data = kea(vec![("s1", "192.168.1.0/24")], vec![]);
    assert!(scan_kea(&src, &data, &MigrationOptions::default()).is_ok());
}

#[test]
fn missing_backend_and_missing_subnets() {
    let src = source(vec![mapping("lan", "00:11:22:33:44:55", "192.168.1.10")], vec![("lan", "192.168.1.0/24")]);
    let mut data = kea(vec![], vec![]);
    let err = scan_kea(&src, &data, &MigrationOptions::default()).unwrap_err();
    assert!(matches!(err, MigrationError::NoBackendSubnets { .. }));
    assert!(err.message().contains("No Kea subnets found"));
    data.has_dhcp4 = false;
    let err = scan_kea(&src, &data, &MigrationOptions::default()).unwrap_err();
    assert!(matches!(err, MigrationError::BackendNotConfigured { .. }));
}

#[test]
fn no_containing_subnet_fails() {
    let src = source(vec![mapping("lan", "00:11:22:33:44:55", "192.168.1.10")], vec![("lan", "192.168.1.0/24")]);
    let data = kea(vec![("s1", "10.0.0.0/8")], vec![]);
    let err = convert_kea(&src, &data, &MigrationOptions::default()).unwrap_err();
    assert!(matches!(err, MigrationError::NoMatchingSubnet(_)));
}

#[test]
fn fail_if_existing_stops_the_run() {
    let src = source(vec![mapping("lan", "00:11:22:33:44:55", "192.168.1.10")], vec![("lan", "192.168.1.0/24")]);
    let data = kea(vec![("s1", "192.168.1.0/24")], vec!["192.168.1.99"]);
    let opts = MigrationOptions { fail_if_existing: true, ..MigrationOptions::default() };
    let err = scan_kea(&src, &data, &opts).unwrap_err();
    assert!(err.message().contains("Existing reservations found (1 IPs)"));
}

#[test]
fn created_subnet_receives_the_mapping() {
    let mut src = source(vec![mapping("opt1", "00:11:22:33:44:55", "10.22.1.150")], vec![("opt1", "10.22.1.0/24")]);
    src.ranges.push(IscRangeV4 {
        iface: "opt1".to_string(),
        from: "10.22.1.100".to_string(),
        to: "10.22.1.200".to_string(),
    });
    let data = kea(vec![], vec![]);
    let opts = MigrationOptions { create_subnets: true, ..MigrationOptions::default() };
    let scan = scan_kea(&src, &data, &opts).unwrap();
    assert_eq!(scan.reservations_to_create, 1);
    let conv = convert_kea(&src, &data, &opts).unwrap();
    let change = conv.subnet_changes[0].as_ref().unwrap();
    assert!(!change.replace);
    assert_eq!(change.record.tag, "subnet4");
    assert_eq!(field(&change.record.fields, "subnet"), Some("10.22.1.0/24"));
    assert_eq!(field(&change.record.fields, "pools"), Some("10.22.1.100-10.22.1.200"));
    let rec = conv.reservations[0].as_ref().unwrap();
    assert_eq!(field(&rec.fields, "subnet"), Some(change.record.uuid.as_str()));
    assert_eq!(conv.interfaces, Some(vec!["opt1".to_string()]));
}

#[test]
fn existing_subnet_is_skipped_or_forced() {
    let mut src = source(vec![], vec![("opt1", "10.22.1.0/24")]);
    src.ranges.push(IscRangeV4 { iface: "opt1".to_string(), from: "10.22.1.100".to_string(), to: "10.22.1.200".to_string() });
    let data = kea(vec![("old", "10.22.1.0/24")], vec![]);
    let opts = MigrationOptions { create_subnets: true, ..MigrationOptions::default() };
    let conv = convert_kea(&src, &data, &opts).unwrap();
    assert!(conv.subnet_changes[0].is_none());
    let forced = MigrationOptions { create_subnets: true, force_subnets: true, ..MigrationOptions::default() };
    let conv = convert_kea(&src, &data, &forced).unwrap();
    assert!(conv.subnet_changes[0].as_ref().unwrap().replace);
    assert_eq!(conv.subnets.len(), 1);
    assert_ne!(conv.subnets[0].uuid, "old");
}

#[test]
fn range_outside_interface_fails() {
    let mut src = source(vec![], vec![("opt1", "10.22.1.0/24")]);
    src.ranges.push(IscRangeV4 { iface: "opt1".to_string(), from: "10.22.1.100".to_string(), to: "10.22.2.5".to_string() });
    let opts = MigrationOptions { create_subnets: true, ..MigrationOptions::default() };
    let err = convert_kea(&src, &kea(vec![], vec![]), &opts).unwrap_err();
    assert!(matches!(err, MigrationError::RangeOutsideSubnet { .. }));
    src.ranges[0].iface = "opt2".to_string();
    let err = convert_kea(&src, &kea(vec![], vec![]), &opts).unwrap_err();
    assert!(matches!(err, MigrationError::NoInterfaceCidrForRange { .. }));
}

#[test]
fn kea_options_are_attached_by_network() {
    let mut src = source(vec![], vec![("opt1", "10.22.1.0/24")]);
    src.options_v4.push(IscDhcpOptionsV4 {
        iface: "opt1".to_string(),
        dns_servers: vec!["8.8.8.8".to_string(), "1.1.1.1".to_string(), "8.8.8.8".to_string()],
        routers: Some("10.22.1.1".to_string()),
        domain_name: None,
        domain_search: None,
        ntp_servers: Vec::new(),
    });
    let mut data = kea(vec![("s1", "10.22.1.0/24")], vec![]);
    data.option_values.push(("s1".to_string(), "routers".to_string(), "10.22.1.254".to_string()));
    let opts = MigrationOptions { create_options: true, ..MigrationOptions::default() };
    let conv = convert_kea(&src, &data, &opts).unwrap();
    let plan = conv.option_plans[0].as_ref().unwrap();
    assert_eq!(plan.uuid, "s1");
    assert!(plan.clear_autocollect);
    let dns = &plan.decisions[0];
    assert_eq!(dns.field, "domain_name_servers");
    assert_eq!(dns.value.as_deref(), Some("8.8.8.8,1.1.1.1"));
    assert_eq!(dns.action, isc2kea::options::OptionAction::Write);
    assert_eq!(plan.decisions[1].action, isc2kea::options::OptionAction::Keep);
    assert_eq!(plan.decisions[2].action, isc2kea::options::OptionAction::Absent);
}

#[test]
fn flat_options_create_skip_and_force() {
    let mut src = source(vec![], vec![("opt1", "10.22.1.0/24")]);
    src.options_v4.push(IscDhcpOptionsV4 {
        iface: "opt1".to_string(),
        dns_servers: vec!["8.8.8.8".to_string(), "1.1.1.1".to_string()],
        routers: Some("10.22.1.1".to_string()),
        domain_name: None,
        domain_search: None,
        ntp_servers: Vec::new(),
    });
    let opts = MigrationOptions { backend: Backend::Dnsmasq, create_options: true, ..MigrationOptions::default() };
    let conv = convert_dnsmasq(&src, &flat(true), &opts).unwrap();
    assert_eq!(conv.options.len(), 2);
    let dns = conv.options[0].as_ref().unwrap();
    assert_eq!(dns.key, "set|6||opt1||");
    assert_eq!(field(&dns.record.fields, "value"), Some("8.8.8.8,1.1.1.1"));
    let gw = conv.options[1].as_ref().unwrap();
    assert_eq!(gw.key, "set|3||opt1||");
    assert_eq!(field(&gw.record.fields, "value"), Some("10.22.1.1"));

    let mut data = flat(true);
    data.option_keys = vec!["set|6||opt1||".to_string(), "set|3||opt1||".to_string()];
    let again = convert_dnsmasq(&src, &data, &opts).unwrap();
    assert!(again.options.iter().all(|c| c.is_none()));
    let forced = MigrationOptions { force_options: true, ..opts.clone() };
    let replaced = convert_dnsmasq(&src, &data, &forced).unwrap();
    assert!(replaced.options.iter().all(|c| c.as_ref().unwrap().replace));
}

#[test]
fn flat_hosts_share_the_address_ledger() {
    let mut src = source(vec![mapping("lan", "00:11:22:33:44:55", "192.168.1.10")], vec![("lan", "192.168.1.0/24")]);
    src.iface_cidrs_v6.push(("lan".to_string(), "fd00::/64".to_string()));
    src.mappings_v6.push(mapping_v6("lan", "00:01:02", "fd00::10"));
    src.mappings_v6.push(mapping_v6("lan", "00:01:02", "fd00::11"));
    let mut data = flat(true);
    data.host_macs.push("00:11:22:33:44:55".to_string());
    let opts = MigrationOptions { backend: Backend::Dnsmasq, ..MigrationOptions::default() };
    let scan = scan_dnsmasq(&src, &data, &opts).unwrap();
    assert_eq!((scan.reservations_to_create, scan.reservations_skipped), (0, 1));
    assert_eq!((scan.reservations_v6_to_create, scan.reservations_v6_skipped), (1, 1));
    let conv = convert_dnsmasq(&src, &data, &opts).unwrap();
    let host = conv.hosts_v6[0].as_ref().unwrap();
    assert_eq!(field(&host.fields, "client_id"), Some("00:01:02"));
    assert_eq!(field(&host.fields, "domain"), Some("example.com"));
    assert_eq!(field(&host.fields, "hwaddr"), Some(""));
}

#[test]
fn flat_backend_must_be_present() {
    let src = source(vec![mapping("lan", "00:11:22:33:44:55", "192.168.1.10")], vec![("lan", "192.168.1.0/24")]);
    let opts = MigrationOptions { backend: Backend::Dnsmasq, ..MigrationOptions::default() };
    let err = scan_dnsmasq(&src, &flat(false), &opts).unwrap_err();
    assert!(err.message().contains("dnsmasq DHCPv4 not configured"));
}

#[test]
fn enabling_switches_services() {
    let mut src = source(vec![mapping("lan", "00:11:22:33:44:55", "192.168.1.10")], vec![("lan", "192.168.1.0/24")]);
    src.flags_v4 = vec![
        ("opt1".to_string(), Some("1".to_string())),
        ("lan".to_string(), Some(" yes ".to_string())),
        ("wan".to_string(), Some(" 0 ".to_string())),
        ("dmz".to_string(), None),
    ];
    let data = kea(vec![("s1", "192.168.1.0/24")], vec![]);
    let opts = MigrationOptions { enable_backend: true, ..MigrationOptions::default() };
    let conv = convert_kea(&src, &data, &opts).unwrap();
    assert_eq!(conv.stats.isc_disabled_v4, vec!["lan".to_string(), "opt1".to_string()]);
    assert!(conv.stats.backend_enabled_v4);
    assert!(!conv.stats.backend_enabled_v6);
    let mut off = kea(vec![("s1", "192.168.1.0/24")], vec![]);
    off.has_dhcp4 = false;
    let err = convert_kea(&src, &off, &opts).unwrap_err();
    assert!(err.message().contains("Failed to enable Kea DHCPv4"));
}

#[test]
fn counts_without_checks() {
    let src = source(vec![mapping("lan", "a", "1.2.3.4")], vec![]);
    let mut data = kea(vec![("s1", "192.168.1.0/24")], vec![]);
    data.subnets_v6.push(SubnetV6 { uuid: "s2".to_string(), cidr: "2001:db8::/64".to_string(), iface: None });
    let k = scan_counts(&src, &data, &Backend::Kea);
    assert_eq!((k.isc_mappings_found, k.target_subnets_found, k.target_subnets_v6_found), (1, 1, 1));
    let d = scan_counts(&src, &data, &Backend::Dnsmasq);
    assert_eq!((d.target_subnets_found, d.target_subnets_v6_found), (0, 0));
}

#[test]
fn flat_ranges_are_keyed_by_mask_and_prefix() {
    let mut src = source(vec![], vec![("opt1", "10.22.1.0/24")]);
    src.ranges.push(IscRangeV4 { iface: "opt1".to_string(), from: "10.22.1.100".to_string(), to: "10.22.1.200".to_string() });
    src.iface_cidrs_v6.push(("opt1".to_string(), "fd00:1::/64".to_string()));
    src.ranges_v6.push(isc2kea::IscRangeV6 { iface: "opt1".to_string(), from: "fd00:1::100".to_string(), to: "fd00:1::200".to_string() });
    let opts = MigrationOptions { backend: Backend::Dnsmasq, create_subnets: true, ..MigrationOptions::default() };
    let conv = convert_dnsmasq(&src, &flat(true), &opts).unwrap();
    assert_eq!(conv.ranges.len(), 2);
    let v4 = conv.ranges[0].as_ref().unwrap();
    assert_eq!(v4.key, "opt1|10.22.1.100|10.22.1.200||255.255.255.0");
    assert_eq!(field(&v4.record.fields, "subnet_mask"), Some("255.255.255.0"));
    let v6 = conv.ranges[1].as_ref().unwrap();
    assert_eq!(v6.key, "opt1|fd00:1::100|fd00:1::200|64|");
    assert_eq!(conv.interfaces, Some(vec!["opt1".to_string()]));
    assert_eq!(conv.stats.interfaces_configured, vec!["opt1".to_string()]);

    let mut data = flat(true);
    data.range_keys.push(v4.key.clone());
    let again = convert_dnsmasq(&src, &data, &opts).unwrap();
    assert!(again.ranges[0].is_none());
    assert!(again.ranges[1].is_some());
    let strict = MigrationOptions { fail_if_existing: true, ..opts.clone() };
    assert!(matches!(
        scan_dnsmasq(&src, &data, &strict),
        Err(MigrationError::ExistingRecordsFound { .. })
    ));
}

#[test]
fn v6_mismatch_is_reported_with_any_flags() {
    let mut src = source(vec![], vec![("lan", "192.168.1.0/24")]);
    src.iface_cidrs_v6 = vec![("lan".to_string(), "fd00::/64".to_string()), ("opt1".to_string(), "fd01::/64".to_string())];
    src.mappings_v6.push(mapping_v6("opt1", "00:01", "fd00::5"));
    let mut data = kea(vec![("s1", "192.168.1.0/24")], vec![]);
    data.subnets_v6.push(SubnetV6 { uuid: "s6".to_string(), cidr: "fd00::/64".to_string(), iface: None });
    let opts = MigrationOptions { create_subnets: true, enable_backend: true, ..MigrationOptions::default() };
    let err = convert_kea(&src, &data, &opts).unwrap_err();
    assert!(matches!(err, MigrationError::InterfaceMismatch { .. }));
}

#[test]
fn flat_enable_needs_ranges() {
    let mut src = source(vec![], vec![("opt1", "10.22.1.0/24")]);
    src.flags_v4 = vec![("opt1".to_string(), Some("1".to_string()))];
    let opts = MigrationOptions { backend: Backend::Dnsmasq, enable_backend: true, ..MigrationOptions::default() };
    let conv = convert_dnsmasq(&src, &flat(true), &opts).unwrap();
    assert!(!conv.enable);
    assert_eq!(conv.stats.isc_disabled_v4, vec!["opt1".to_string()]);
    src.ranges.push(IscRangeV4 { iface: "opt1".to_string(), from: "10.22.1.100".to_string(), to: "10.22.1.200".to_string() });
    let conv = convert_dnsmasq(&src, &flat(true), &opts).unwrap();
    assert!(conv.enable && conv.stats.backend_enabled_v4 && conv.stats.backend_enabled_v6);
}

#[test]
fn scan_with_subnet_creation_counts_without_mutation() {
    let mut src = source(vec![mapping("opt1", "04:d9:f5:cb:9b:54", "10.22.1.100")], vec![("opt1", "10.22.1.0/24")]);
    src.ranges.push(IscRangeV4 { iface: "opt1".to_string(), from: "10.22.1.100".to_string(), to: "10.22.1.200".to_string() });
    let opts = MigrationOptions { create_subnets: true, ..MigrationOptions::default() };
    let s = scan_kea(&src, &kea(vec![], vec![]), &opts).unwrap();
    assert_eq!((s.target_subnets_found, s.target_subnets_v6_found, s.reservations_to_create), (0, 0, 1));
    let mut empty = source(vec![mapping("opt1", "04:d9:f5:cb:9b:54", "10.22.1.100")], vec![("opt1", "10.22.1.0/24")]);
    empty.ranges.clear();
    let err = scan_kea(&empty, &kea(vec![], vec![]), &opts).unwrap_err();
    assert!(matches!(err, MigrationError::NoRangesForSubnets { v6: false }));
}
