use esp_wifi_ap::error::HostnameError;
use esp_wifi_ap::mac_hostname_config::{
    create_example_mappings, MacHostnameConfig, StaticMappingsBuilder,
};

#[test]
fn test_add_and_get_mapping() {
    let mut config = MacHostnameConfig::new();
    let mac = [0xaa, 0xbb, 0xcc, 0xdd, 0xee, 0xff];

    config.add_mapping(mac, "test-device".to_string()).unwrap();
    assert_eq!(config.get_hostname(mac), Some("test-device".to_string()));
    assert_eq!(config.get_mac("test-device"), Some(mac));
}

#[test]
fn test_hostname_sanitization() {
    let mut config = MacHostnameConfig::new();
    let mac = [0xaa, 0xbb, 0xcc, 0xdd, 0xee, 0xff];

    config.add_mapping(mac, "Test Device!".to_string()).unwrap();
    assert_eq!(config.get_hostname(mac), Some("test-device".to_string()));
}

#[test]
fn test_duplicate_hostname_rejection() {
    let mut config = MacHostnameConfig::new();
    let mac1 = [0xaa, 0xbb, 0xcc, 0xdd, 0xee, 0xff];
    let mac2 = [0x11, 0x22, 0x33, 0x44, 0x55, 0x66];

    config.add_mapping(mac1, "test-device".to_string()).unwrap();
    assert!(config.add_mapping(mac2, "test-device".to_string()).is_err());
}

#[test]
fn test_config_string_loading() {
    let mut config = MacHostnameConfig::new();
    let config_str = "aa:bb:cc:dd:ee:ff:laptop,11:22:33:44:55:66:raspberry";

    let loaded = config.load_from_config(config_str).unwrap();
    assert_eq!(loaded, 2);

    let mac1 = [0xaa, 0xbb, 0xcc, 0xdd, 0xee, 0xff];
    let mac2 = [0x11, 0x22, 0x33, 0x44, 0x55, 0x66];

    assert_eq!(config.get_hostname(mac1), Some("laptop".to_string()));
    assert_eq!(config.get_hostname(mac2), Some("raspberry".to_string()));
}

#[test]
fn test_builder_pattern() {
    let config = StaticMappingsBuilder::new()
        .add("aa:bb:cc:dd:ee:ff", "test-device")
        .unwrap()
        .build();

    let mac = [0xaa, 0xbb, 0xcc, 0xdd, 0xee, 0xff];
    assert_eq!(config.get_hostname(mac), Some("test-device".to_string()));
}

#[test]
fn conflict_names_the_holder_and_changes_nothing() {
    let mut config = MacHostnameConfig::new();
    let m1 = [1, 2, 3, 4, 5, 6];
    let m2 = [6, 5, 4, 3, 2, 1];
    assert_eq!(config.add_mapping(m1, "x".to_string()), Ok(()));
    assert_eq!(
        config.add_mapping(m2, "x".to_string()),
        Err(HostnameError::HostnameConflict { holder: m1 })
    );
    assert_eq!(config.get_hostname(m1), Some("x".to_string()));
    assert_eq!(config.get_mac("x"), Some(m1));
    assert_eq!(config.get_hostname(m2), None);
    assert_eq!(config.mapping_count(), 1);
}

#[test]
fn conflict_is_detected_after_sanitizing() {
    let mut config = MacHostnameConfig::new();
    let m1 = [1, 2, 3, 4, 5, 6];
    let m2 = [6, 5, 4, 3, 2, 1];
    config.add_mapping(m1, "My Device".to_string()).unwrap();
    assert_eq!(
        config.add_mapping(m2, "my_device.local".to_string()),
        Err(HostnameError::HostnameConflict { holder: m1 })
    );
}

#[test]
fn adding_again_for_the_same_device_succeeds() {
    let mut config = MacHostnameConfig::new();
    let mac = [1, 2, 3, 4, 5, 6];
    assert_eq!(config.add_mapping(mac, "printer".to_string()), Ok(()));
    assert_eq!(config.add_mapping(mac, "printer".to_string()), Ok(()));
    assert_eq!(config.mapping_count(), 1);
    assert_eq!(config.get_mac("printer"), Some(mac));
}

#[test]
fn a_new_hostname_releases_the_old_one() {
    let mut config = MacHostnameConfig::new();
    let m1 = [1, 2, 3, 4, 5, 6];
    let m2 = [6, 5, 4, 3, 2, 1];
    config.add_mapping(m1, "old-name".to_string()).unwrap();
    config.add_mapping(m1, "new-name".to_string()).unwrap();
    assert_eq!(config.get_hostname(m1), Some("new-name".to_string()));
    assert_eq!(config.get_mac("new-name"), Some(m1));
    assert_eq!(config.get_mac("old-name"), None);
    assert!(!config.is_hostname_reserved("old-name"));
    assert_eq!(config.add_mapping(m2, "old-name".to_string()), Ok(()));
    assert_eq!(config.get_mac("old-name"), Some(m2));
    assert_eq!(
        config.list_mappings(),
        vec![(m1, "new-name".to_string()), (m2, "old-name".to_string())]
    );
}

#[test]
fn invalid_hostnames_are_refused() {
    let mut config = MacHostnameConfig::new();
    let mac = [1, 2, 3, 4, 5, 6];
    assert_eq!(
        config.add_mapping(mac, "".to_string()),
        Err(HostnameError::InvalidHostname)
    );
    assert_eq!(
        config.add_mapping(mac, "!!!".to_string()),
        Err(HostnameError::InvalidHostname)
    );
    assert_eq!(
        config.add_mapping(mac, "---".to_string()),
        Err(HostnameError::InvalidHostname)
    );
    assert_eq!(
        config.add_mapping(mac, ".local".to_string()),
        Err(HostnameError::InvalidHostname)
    );
    let cut_behind_hyphen = format!("{}-b", "a".repeat(62));
    assert_eq!(
        config.add_mapping(mac, cut_behind_hyphen),
        Err(HostnameError::InvalidHostname)
    );
    assert_eq!(config.mapping_count(), 0);
    assert!(!config.has_static_mapping(mac));
}

#[test]
fn long_hostnames_are_cut_to_the_label_limit() {
    let mut config = MacHostnameConfig::new();
    let mac = [1, 2, 3, 4, 5, 6];
    assert_eq!(config.add_mapping(mac, "a".repeat(100)), Ok(()));
    assert_eq!(config.get_hostname(mac), Some("a".repeat(63)));
    let other = [3, 4, 5, 6, 7, 8];
    assert_eq!(config.add_mapping(other, "b".repeat(63)), Ok(()));
    assert_eq!(config.get_hostname(other), Some("b".repeat(63)));
}

#[test]
fn characters_outside_ascii_become_hyphens() {
    let mut config = MacHostnameConfig::new();
    let mac = [2, 3, 4, 5, 6, 7];
    assert_eq!(config.add_mapping(mac, "café-réseau".to_string()), Ok(()));
    assert_eq!(config.get_hostname(mac), Some("caf--r-seau".to_string()));
}

#[test]
fn remove_mapping_frees_both_directions() {
    let mut config = MacHostnameConfig::new();
    let m1 = [1, 2, 3, 4, 5, 6];
    let m2 = [6, 5, 4, 3, 2, 1];
    config.add_mapping(m1, "one".to_string()).unwrap();
    config.add_mapping(m2, "two".to_string()).unwrap();
    assert_eq!(config.remove_mapping(m1), Some("one".to_string()));
    assert_eq!(config.remove_mapping(m1), None);
    assert_eq!(config.get_hostname(m1), None);
    assert_eq!(config.get_mac("one"), None);
    assert_eq!(config.get_hostname(m2), Some("two".to_string()));
    assert_eq!(config.mapping_count(), 1);
    assert_eq!(config.add_mapping(m2, "one".to_string()), Ok(()));
}

#[test]
fn lookups_sanitize_the_hostname() {
    let mut config = MacHostnameConfig::new();
    let mac = [1, 2, 3, 4, 5, 6];
    config.add_mapping(mac, "Living Room TV".to_string()).unwrap();
    assert_eq!(config.get_mac("living-room-tv"), Some(mac));
    assert_eq!(config.get_mac("LIVING ROOM TV"), Some(mac));
    assert_eq!(config.get_mac("living-room-tv.local"), Some(mac));
    assert_eq!(config.get_mac("living-room-tv.LOCAL.local"), Some(mac));
    assert!(config.is_hostname_reserved("Living_Room_TV"));
    assert!(!config.is_hostname_reserved("kitchen"));
    assert!(config.has_static_mapping(mac));
}

#[test]
fn clear_mappings_empties_the_registry() {
    let mut config = MacHostnameConfig::new();
    config.add_mapping([1, 2, 3, 4, 5, 6], "one".to_string()).unwrap();
    config.add_mapping([6, 5, 4, 3, 2, 1], "two".to_string()).unwrap();
    assert_eq!(config.mapping_count(), 2);
    config.clear_mappings();
    assert_eq!(config.mapping_count(), 0);
    assert_eq!(config.list_mappings(), vec![]);
    assert_eq!(config.get_mac("one"), None);
}

#[test]
fn with_mappings_adds_in_order_and_skips_what_is_refused() {
    let m1 = [1, 2, 3, 4, 5, 6];
    let m2 = [6, 5, 4, 3, 2, 1];
    let m3 = [9, 9, 9, 9, 9, 9];
    let config = MacHostnameConfig::with_mappings(vec![
        (m1, "Media Box".to_string()),
        (m2, "media-box".to_string()),
        (m3, "???".to_string()),
        (m2, "tablet".to_string()),
    ]);
    assert_eq!(
        config.list_mappings(),
        vec![(m1, "media-box".to_string()), (m2, "tablet".to_string())]
    );
    assert_eq!(config.get_mac("media-box"), Some(m1));
}

#[test]
fn builder_reports_what_it_refuses() {
    assert!(matches!(
        StaticMappingsBuilder::new().add("aa:bb:cc:dd:ee", "host"),
        Err(HostnameError::InvalidMacAddress)
    ));
    assert!(matches!(
        StaticMappingsBuilder::new().add("aa:bb:cc:dd:ee:zz", "host"),
        Err(HostnameError::InvalidMacAddress)
    ));
    assert!(matches!(
        StaticMappingsBuilder::new().add("aa:bb:cc:dd:ee:ff", "!!!"),
        Err(HostnameError::InvalidHostname)
    ));
    assert!(matches!(
        StaticMappingsBuilder::new().add_mac([1, 2, 3, 4, 5, 6], ""),
        Err(HostnameError::InvalidHostname)
    ));
}

#[test]
fn builder_keeps_one_mapping_for_each_device() {
    let mac = [1, 2, 3, 4, 5, 6];
    let config = StaticMappingsBuilder::new()
        .add_mac(mac, "first")
        .unwrap()
        .add("01:02:03:04:05:06", "Second Name")
        .unwrap()
        .add_mac([7, 7, 7, 7, 7, 7], "third")
        .unwrap()
        .build();
    assert_eq!(
        config.list_mappings(),
        vec![
            (mac, "second-name".to_string()),
            ([7, 7, 7, 7, 7, 7], "third".to_string())
        ]
    );
}

#[test]
fn example_mappings_hold_five_devices() {
    let config = create_example_mappings().unwrap();
    assert_eq!(config.mapping_count(), 5);
    assert_eq!(
        config.get_hostname([0xaa, 0xbb, 0xcc, 0xdd, 0xee, 0xff]),
        Some("my-laptop".to_string())
    );
    assert_eq!(config.get_mac("smart-tv"), Some([0x44, 0x55, 0x66, 0x77, 0x88, 0x99]));
    assert_eq!(
        config.list_mappings()[1],
        ([0x11, 0x22, 0x33, 0x44, 0x55, 0x66], "raspberry-pi".to_string())
    );
}

#[test]
fn registry_sanitizer_and_validator() {
    assert_eq!(MacHostnameConfig::sanitize_hostname("Test_Device"), "test-device");
    assert_eq!(MacHostnameConfig::sanitize_hostname("Printer.local"), "printer");
    assert!(MacHostnameConfig::is_valid_hostname("device-01"));
    assert!(!MacHostnameConfig::is_valid_hostname("-invalid"));
    assert!(!MacHostnameConfig::is_valid_hostname("invalid-"));
    assert!(!MacHostnameConfig::is_valid_hostname(""));
    assert!(!MacHostnameConfig::is_valid_hostname("My Device!"));
    assert!(!MacHostnameConfig::is_valid_hostname(&"a".repeat(64)));
    assert!(MacHostnameConfig::is_valid_hostname(&"a".repeat(63)));
}
