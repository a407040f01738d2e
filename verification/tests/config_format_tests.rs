use esp_wifi_ap::config_format::parse_config_entry;
use esp_wifi_ap::error::HostnameError;
use esp_wifi_ap::mac_hostname_config::MacHostnameConfig;

#[test]
fn loading_literal_scenario() {
    let mut config = MacHostnameConfig::new();
    let loaded = config
        .load_from_config("aa:bb:cc:dd:ee:ff:laptop,11:22:33:44:55:66:raspberry")
        .unwrap();
    assert_eq!(loaded, 2);
    assert_eq!(config.mapping_count(), 2);
    assert_eq!(
        config.get_hostname([0xaa, 0xbb, 0xcc, 0xdd, 0xee, 0xff]),
        Some("laptop".to_string())
    );
}

#[test]
fn loading_skips_malformed_entries() {
    let mut config = MacHostnameConfig::new();
    let text = " aa:bb:cc:dd:ee:ff:Laptop One ,, \t,bad,aa:bb:cc:dd:ee:laptop,\
                zz:bb:cc:dd:ee:ff:other,11:22:33:44:55:66:a:b,\n1:2:3:4:5:6:pi\u{a0}";
    assert_eq!(config.load_from_config(text), Ok(2));
    assert_eq!(
        config.list_mappings(),
        vec![
            ([0xaa, 0xbb, 0xcc, 0xdd, 0xee, 0xff], "laptop-one".to_string()),
            ([1, 2, 3, 4, 5, 6], "pi".to_string())
        ]
    );
}

#[test]
fn loading_skips_what_the_registry_refuses() {
    let mut config = MacHostnameConfig::new();
    let text = "aa:bb:cc:dd:ee:ff:laptop,11:22:33:44:55:66:laptop,11:22:33:44:55:66:!!!,\
                aa:bb:cc:dd:ee:ff:laptop";
    assert_eq!(config.load_from_config(text), Ok(2));
    assert_eq!(
        config.list_mappings(),
        vec![([0xaa, 0xbb, 0xcc, 0xdd, 0xee, 0xff], "laptop".to_string())]
    );
}

#[test]
fn loading_nothing_changes_nothing() {
    let mut config = MacHostnameConfig::new();
    assert_eq!(config.load_from_config(""), Ok(0));
    assert_eq!(config.load_from_config(" , ,"), Ok(0));
    assert_eq!(config.mapping_count(), 0);
}

#[test]
fn export_writes_the_entries_in_order() {
    let mut config = MacHostnameConfig::new();
    assert_eq!(config.export_to_config(), "");
    config.add_mapping([0xAA, 0xBB, 0xCC, 0xDD, 0xEE, 0xFF], "Laptop".to_string()).unwrap();
    assert_eq!(config.export_to_config(), "aa:bb:cc:dd:ee:ff:laptop");
    config.add_mapping([1, 2, 3, 4, 5, 6], "raspberry".to_string()).unwrap();
    assert_eq!(
        config.export_to_config(),
        "aa:bb:cc:dd:ee:ff:laptop,01:02:03:04:05:06:raspberry"
    );
}

#[test]
fn config_round_trip() {
    let mut config = MacHostnameConfig::new();
    config.add_mapping([0xaa, 0xbb, 0xcc, 0xdd, 0xee, 0xff], "laptop".to_string()).unwrap();
    config.add_mapping([0x11, 0x22, 0x33, 0x44, 0x55, 0x66], "Raspberry Pi".to_string()).unwrap();
    config.add_mapping([0, 0, 0, 0, 0, 1], "a".repeat(80)).unwrap();
    let exported = config.export_to_config();

    let mut copy = MacHostnameConfig::new();
    assert_eq!(copy.load_from_config(&exported), Ok(3));
    assert_eq!(copy.list_mappings(), config.list_mappings());
    assert_eq!(copy.export_to_config(), exported);

    assert_eq!(config.load_from_config(&exported), Ok(3));
    assert_eq!(config.list_mappings(), copy.list_mappings());
}

#[test]
fn parse_config_entry_reads_one_entry() {
    assert_eq!(
        parse_config_entry("aa:bb:cc:dd:ee:ff:laptop"),
        Ok(([0xaa, 0xbb, 0xcc, 0xdd, 0xee, 0xff], "laptop".to_string()))
    );
    assert_eq!(
        parse_config_entry("  A:B:C:D:E:F:My Laptop \n"),
        Ok(([10, 11, 12, 13, 14, 15], "My Laptop".to_string()))
    );
    assert_eq!(
        parse_config_entry("aa:bb:cc:dd:ee:ff:"),
        Ok(([0xaa, 0xbb, 0xcc, 0xdd, 0xee, 0xff], "".to_string()))
    );
}

#[test]
fn parse_config_entry_refuses_malformed_entries() {
    let bad = [
        "",
        "   ",
        "laptop",
        "aa:bb:cc:dd:ee:ff",
        "aa:bb:cc:dd:ee:ff:lap:top",
        "aa:bb:cc:dd:ee:fg:laptop",
        "aa:bb:cc:dd:ee:1ff:laptop",
        "aa:bb: cc:dd:ee:ff:laptop",
    ];
    for entry in bad {
        assert_eq!(parse_config_entry(entry), Err(HostnameError::MalformedConfigEntry));
    }
}

#[test]
fn print_mappings_reports_the_registry() {
    let mut config = MacHostnameConfig::new();
    assert_eq!(
        config.print_mappings(),
        vec!["No static MAC hostname mappings configured".to_string()]
    );
    config.add_mapping([0xaa, 0xbb, 0xcc, 0xdd, 0xee, 0xff], "laptop".to_string()).unwrap();
    config.add_mapping([1, 2, 3, 4, 5, 6], "pi".to_string()).unwrap();
    assert_eq!(
        config.print_mappings(),
        vec![
            "Static MAC hostname mappings (2):".to_string(),
            "  aa:bb:cc:dd:ee:ff -> laptop.local".to_string(),
            "  01:02:03:04:05:06 -> pi.local".to_string(),
        ]
    );
}
