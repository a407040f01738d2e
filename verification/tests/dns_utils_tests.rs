use esp_wifi_ap::dns_utils::{DnsConfig, DnsTest, DnsUtils};
use esp_wifi_ap::error::{ConfigError, HostnameError};

#[test]
fn full_hostnames_are_validated_label_by_label() {
    assert!(DnsUtils::is_valid_hostname("valid-hostname"));
    assert!(DnsUtils::is_valid_hostname("test123"));
    assert!(DnsUtils::is_valid_hostname("my-device-01"));
    assert!(DnsUtils::is_valid_hostname("a.b.c"));
    assert!(DnsUtils::is_valid_hostname("printer.office.local"));
    assert!(DnsUtils::is_valid_hostname(
        "too.many.dots.in.hostname.for.test.purposes.exceeding.limits"
    ));
    assert!(!DnsUtils::is_valid_hostname(""));
    assert!(!DnsUtils::is_valid_hostname("-invalid"));
    assert!(!DnsUtils::is_valid_hostname("invalid-"));
    assert!(!DnsUtils::is_valid_hostname("a..b"));
    assert!(!DnsUtils::is_valid_hostname(".a"));
    assert!(!DnsUtils::is_valid_hostname("a."));
    assert!(!DnsUtils::is_valid_hostname("a.-b.c"));
    assert!(!DnsUtils::is_valid_hostname("a b"));
    assert!(!DnsUtils::is_valid_hostname(&format!("{}.com", "a".repeat(64))));
}

#[test]
fn full_hostnames_have_at_most_253_characters() {
    let label = "a".repeat(63);
    let fits = format!("{}.{}.{}.{}", label, label, label, "b".repeat(61));
    assert_eq!(fits.len(), 253);
    assert!(DnsUtils::is_valid_hostname(&fits));
    let too_long = format!("{}.{}.{}.{}", label, label, label, "b".repeat(62));
    assert_eq!(too_long.len(), 254);
    assert!(!DnsUtils::is_valid_hostname(&too_long));
}

#[test]
fn labels_are_validated() {
    assert!(DnsUtils::is_valid_label("a"));
    assert!(DnsUtils::is_valid_label("a-1"));
    assert!(!DnsUtils::is_valid_label(""));
    assert!(!DnsUtils::is_valid_label("a.b"));
    assert!(!DnsUtils::is_valid_label("-a"));
    assert!(!DnsUtils::is_valid_label(&"a".repeat(64)));
}

#[test]
fn sanitize_hostname_makes_a_label() {
    assert_eq!(DnsUtils::sanitize_hostname("My Device!"), "my-device");
    assert_eq!(DnsUtils::sanitize_hostname("Test_123"), "test-123");
    assert_eq!(DnsUtils::sanitize_hostname("a!b"), "a-b");
    assert_eq!(DnsUtils::sanitize_hostname("-invalid"), "invalid");
    assert_eq!(DnsUtils::sanitize_hostname("  spaced  out  "), "spaced--out");
    assert_eq!(DnsUtils::sanitize_hostname("dots.and.spaces test"), "dots-and-spaces-test");
    assert_eq!(DnsUtils::sanitize_hostname("..a..b.."), "a--b");
    assert_eq!(DnsUtils::sanitize_hostname(""), "");
    assert_eq!(DnsUtils::sanitize_hostname("!!!"), "");
    assert_eq!(DnsUtils::sanitize_hostname("café"), "caf");
    assert_eq!(DnsUtils::sanitize_hostname("a\u{a0}b\tc"), "a-b-c");
    assert_eq!(DnsUtils::sanitize_hostname(&"x".repeat(70)), "x".repeat(63));
    let once = DnsUtils::sanitize_hostname("Hello, World");
    assert_eq!(DnsUtils::sanitize_hostname(&once), once);
}

#[test]
fn hostnames_are_made_of_mac_addresses() {
    let mac = [0xaa, 0xbb, 0xcc, 0x0d, 0xee, 0xf0];
    assert_eq!(DnsUtils::hostname_from_mac(mac, "device"), "device-0deef0");
    assert_eq!(DnsUtils::hostname_from_mac(mac, ""), "-0deef0");
    assert_eq!(DnsUtils::generate_hostname(mac, None), "device-0deef0");
    assert_eq!(DnsUtils::generate_hostname(mac, Some("Living Room")), "living-room");
    assert_eq!(DnsUtils::generate_hostname(mac, Some("tv.lan")), "tv-lan");
    assert_eq!(DnsUtils::generate_hostname(mac, Some("a!b")), "a-b");
    assert_eq!(DnsUtils::generate_hostname(mac, Some("???")), "device-0deef0");
    assert_eq!(DnsUtils::generate_hostname(mac, Some("")), "device-0deef0");
    assert_eq!(DnsUtils::generate_hostname(mac, Some(&"x".repeat(64))), "x".repeat(63));
    let cut_behind_hyphen = format!("{}-b", "x".repeat(62));
    assert_eq!(DnsUtils::generate_hostname(mac, Some(&cut_behind_hyphen)), "device-0deef0");
}

#[test]
fn private_ranges_are_recognized() {
    assert!(DnsUtils::is_private_ip([10, 0, 0, 1]));
    assert!(DnsUtils::is_private_ip([172, 16, 0, 1]));
    assert!(DnsUtils::is_private_ip([172, 31, 255, 255]));
    assert!(DnsUtils::is_private_ip([192, 168, 1, 1]));
    assert!(DnsUtils::is_private_ip([169, 254, 1, 1]));
    assert!(!DnsUtils::is_private_ip([8, 8, 8, 8]));
    assert!(!DnsUtils::is_private_ip([172, 15, 0, 1]));
    assert!(!DnsUtils::is_private_ip([172, 32, 0, 1]));
    assert!(!DnsUtils::is_private_ip([192, 169, 0, 1]));
    assert!(!DnsUtils::is_private_ip([169, 253, 0, 1]));
    assert!(!DnsUtils::is_private_ip([11, 0, 0, 1]));
}

#[test]
fn test_entries_are_made_without_the_local_suffix() {
    assert_eq!(
        DnsUtils::create_test_entry("laptop.local", [10, 0, 0, 1]),
        Ok(("laptop".to_string(), [10, 0, 0, 1]))
    );
    assert_eq!(
        DnsUtils::create_test_entry("Laptop.office", [10, 0, 0, 1]),
        Ok(("Laptop.office".to_string(), [10, 0, 0, 1]))
    );
    assert_eq!(
        DnsUtils::create_test_entry("laptop.local.local", [10, 0, 0, 1]),
        Ok(("laptop".to_string(), [10, 0, 0, 1]))
    );
    assert_eq!(
        DnsUtils::create_test_entry(".local", [10, 0, 0, 1]),
        Err(HostnameError::InvalidHostname)
    );
    assert_eq!(
        DnsUtils::create_test_entry("bad name", [10, 0, 0, 1]),
        Err(HostnameError::InvalidHostname)
    );
}

#[test]
fn device_info_describes_a_device() {
    assert_eq!(
        DnsUtils::device_info("laptop", [192, 168, 4, 2], [0, 0x1a, 0x2b, 0x3c, 0x4d, 0x5e]),
        "Device: laptop.local -> 192.168.4.2 (MAC: 00:1a:2b:3c:4d:5e)"
    );
    assert_eq!(
        DnsUtils::device_info("", [0, 10, 100, 255], [255, 255, 255, 255, 255, 255]),
        "Device: .local -> 0.10.100.255 (MAC: ff:ff:ff:ff:ff:ff)"
    );
}

#[test]
fn configurations_are_validated() {
    let config = DnsConfig::default();
    assert_eq!(config.domain_suffix, ".local");
    assert_eq!(config.cache_ttl, 300);
    assert_eq!(config.max_cache_entries, 100);
    assert_eq!(DnsUtils::validate_config(&config), Ok(()));

    let no_suffix = DnsConfig { domain_suffix: String::new(), cache_ttl: 0, max_cache_entries: 0 };
    assert_eq!(DnsUtils::validate_config(&no_suffix), Err(ConfigError::EmptyDomainSuffix));
    let no_dot = DnsConfig { domain_suffix: "local".to_string(), cache_ttl: 0, max_cache_entries: 0 };
    assert_eq!(DnsUtils::validate_config(&no_dot), Err(ConfigError::DomainSuffixWithoutDot));
    let no_ttl = DnsConfig { domain_suffix: ".lan".to_string(), cache_ttl: 0, max_cache_entries: 0 };
    assert_eq!(DnsUtils::validate_config(&no_ttl), Err(ConfigError::ZeroCacheTtl));
    let no_room = DnsConfig { domain_suffix: ".lan".to_string(), cache_ttl: 1, max_cache_entries: 0 };
    assert_eq!(DnsUtils::validate_config(&no_room), Err(ConfigError::ZeroCacheEntries));
    let fine = DnsConfig { domain_suffix: ".".to_string(), cache_ttl: 1, max_cache_entries: 1 };
    assert_eq!(DnsUtils::validate_config(&fine), Ok(()));
}

#[test]
fn test_table_stores_hostnames_as_given() {
    let mut table = DnsTest::new();
    assert_eq!(table.add_test_entry("Laptop.local", [10, 0, 0, 1]), Ok(()));
    assert_eq!(table.add_test_entry("test-device-0001", [192, 168, 4, 3]), Ok(()));
    assert_eq!(table.add_test_entry("not valid", [10, 0, 0, 2]), Err(HostnameError::InvalidHostname));
    assert_eq!(table.query_test_entry("Laptop"), Some([10, 0, 0, 1]));
    assert_eq!(table.query_test_entry("Laptop.local"), Some([10, 0, 0, 1]));
    assert_eq!(table.query_test_entry("laptop"), None);
    assert_eq!(
        table.list_test_entries(),
        vec![
            ("Laptop.local".to_string(), [10, 0, 0, 1]),
            ("test-device-0001.local".to_string(), [192, 168, 4, 3])
        ]
    );
    table.remove_test_entry("Laptop.local");
    table.remove_test_entry("missing");
    assert_eq!(table.query_test_entry("Laptop"), None);
    assert_eq!(table.list_test_entries().len(), 1);
}
