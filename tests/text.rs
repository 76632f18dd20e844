use isc2kea::addr::Family;
use isc2kea::extract::{interface_cidr, options_bundle_v4};
use isc2kea::prefix_to_netmask;
use isc2kea::services::{enabled_interfaces, ensure_isc_was_enabled, is_enabled, merge_interface_list};
use isc2kea::text::{
    domain_search_csv, escape_xml, first_domain, join_list, name_matches, normalize_domain_search,
    short_uuid, u8_text,
};

#[test]
fn lists_are_deduplicated_in_order() {
    let v = vec!["b".to_string(), "".to_string(), "a".to_string(), "b".to_string()];
    assert_eq!(join_list(&v), Some("b,a".to_string()));
    assert_eq!(join_list(&[]), None);
    assert_eq!(join_list(&["".to_string()]), None);
}

#[test]
fn domain_search_forms() {
    assert_eq!(domain_search_csv("a.com; b.org,c.net  d.io"), Some("a.com,b.org,c.net,d.io".to_string()));
    assert_eq!(domain_search_csv(" ;, "), None);
    assert_eq!(normalize_domain_search("a.com;b.org"), "a.com b.org");
    assert_eq!(normalize_domain_search("a a;b,a"), "a b");
    assert_eq!(normalize_domain_search("example2.com; example3.com"), "example2.com example3.com");
    assert_eq!(first_domain("  x.example, y.example"), "x.example");
    assert_eq!(first_domain("a;b c"), "a;b");
    assert_eq!(first_domain(""), "");
}

#[test]
fn netmask_of_prefix() {
    assert_eq!(prefix_to_netmask(24).unwrap(), "255.255.255.0");
    assert_eq!(prefix_to_netmask(20).unwrap(), "255.255.240.0");
    assert_eq!(prefix_to_netmask(0).unwrap(), "0.0.0.0");
    assert!(prefix_to_netmask(33).is_err());
    assert_eq!(u8_text(7), "7");
    assert_eq!(u8_text(64), "64");
    assert_eq!(u8_text(128), "128");
}

#[test]
fn interface_networks() {
    assert_eq!(interface_cidr(Family::V4, "192.168.1.1", "24").unwrap(), Some("192.168.1.0/24".to_string()));
    assert_eq!(interface_cidr(Family::V6, "2001:db8::1", "64").unwrap(), Some("2001:db8::/64".to_string()));
    assert_eq!(interface_cidr(Family::V4, "DHCP", "24").unwrap(), None);
    assert_eq!(interface_cidr(Family::V6, "track6", "64").unwrap(), None);
    assert_eq!(interface_cidr(Family::V4, "192.168.1.1", "").unwrap(), None);
    assert_eq!(interface_cidr(Family::V4, "192.168.1.1", "x").unwrap(), None);
    assert!(interface_cidr(Family::V4, "192.168.1.1", "40").is_err());
}

#[test]
fn enable_flags() {
    assert!(is_enabled(&Some("1".to_string())));
    assert!(is_enabled(&Some(" on".to_string())));
    assert!(!is_enabled(&Some(" 0 ".to_string())));
    assert!(!is_enabled(&Some("  ".to_string())));
    assert!(!is_enabled(&None));
    assert!(is_enabled(&Some("00".to_string())));
    let flags = vec![
        ("wan".to_string(), Some("1".to_string())),
        ("lan".to_string(), Some("1".to_string())),
        ("wan".to_string(), Some("1".to_string())),
    ];
    assert_eq!(enabled_interfaces(&flags), vec!["lan".to_string(), "wan".to_string()]);
}

#[test]
fn interface_lists_merge_sorted() {
    let merged = merge_interface_list(&Some("opt1,lan,".to_string()), &["wan".to_string(), "lan".to_string()]);
    assert_eq!(merged, vec!["lan".to_string(), "opt1".to_string(), "wan".to_string()]);
}

#[test]
fn option_bundles_need_content() {
    assert!(options_bundle_v4("lan".to_string(), vec![], None, None, None, vec![]).is_none());
    let b = options_bundle_v4("lan".to_string(), vec![], None, None, Some("a.com,b.org".to_string()), vec![]).unwrap();
    assert_eq!(b.domain_search.as_deref(), Some("a.com b.org"));
}

#[test]
fn xml_escapes_and_names() {
    assert_eq!(escape_xml("a<b & 'c' \"d\">"), "a&lt;b &amp; &apos;c&apos; &quot;d&quot;&gt;");
    assert_eq!(escape_xml("plain"), "plain");
    assert!(name_matches("Kea", "kea"));
    assert!(name_matches("ns:Dhcp4", "dhcp4"));
    assert!(name_matches("a:b:dhcp4", "DHCP4"));
    assert!(!name_matches("dhcp4x", "dhcp4"));
    assert_eq!(short_uuid("0123456789abcdef"), "01234567");
    assert_eq!(short_uuid("abc"), "abc");
}

#[test]
fn legacy_service_must_have_been_on() {
    assert!(ensure_isc_was_enabled(&[], &[]).is_err());
    assert!(ensure_isc_was_enabled(&["lan".to_string()], &[]).is_ok());
}
