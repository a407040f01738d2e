use esp_wifi_ap::mac_hostname_demo::{
    workload_hostname_of, workload_mac_of, MacHostnameDemo, PerformanceCounts,
};

#[test]
fn test_demo_creation() {
    let demo = MacHostnameDemo::new();
    assert_eq!(demo.config().mapping_count(), 0);
}

#[test]
fn test_sample_devices_demo() {
    let demo = MacHostnameDemo::with_sample_devices().unwrap();
    assert!(demo.config().mapping_count() > 0);
}

#[test]
fn test_home_office_config() {
    let demo = MacHostnameDemo::new();
    let config = demo.create_home_office_config().unwrap();
    assert_eq!(config.mapping_count(), 5);
}

#[test]
fn test_performance_test() {
    let demo = MacHostnameDemo::new();
    assert!(demo.run_performance_test(10).is_ok());
}

#[test]
fn sample_devices_resolve_both_ways() {
    let demo = MacHostnameDemo::with_sample_devices().unwrap();
    let config = demo.config();
    assert_eq!(config.mapping_count(), 10);
    assert_eq!(
        config.get_hostname([0xaa, 0xbb, 0xcc, 0xdd, 0xee, 0xff]),
        Some("johns-macbook".to_string())
    );
    assert_eq!(
        config.get_hostname([0x11, 0x22, 0x33, 0x44, 0x55, 0x66]),
        Some("raspberry-pi-4b".to_string())
    );
    assert_eq!(
        config.get_hostname([0x77, 0x88, 0x99, 0xaa, 0xbb, 0xcc]),
        Some("arduino-weather".to_string())
    );
    assert_eq!(config.get_hostname([0xff, 0xff, 0xff, 0xff, 0xff, 0xff]), None);
    assert_eq!(config.get_mac("office-printer"), Some([0x88, 0x99, 0xaa, 0xbb, 0xcc, 0xdd]));
}

#[test]
fn ready_made_registries_have_their_sizes() {
    let demo = MacHostnameDemo::new();
    assert_eq!(demo.create_smart_home_config().unwrap().mapping_count(), 8);
    let business = demo.create_business_config().unwrap();
    assert_eq!(business.mapping_count(), 9);
    assert_eq!(
        business.list_mappings()[8],
        ([0xb8, 0xb9, 0xba, 0xbb, 0xbc, 0xbd], "security-camera-entrance".to_string())
    );
}

#[test]
fn workload_adds_and_finds_every_device() {
    let demo = MacHostnameDemo::new();
    assert_eq!(
        demo.run_performance_test(0),
        Ok(PerformanceCounts { added: 0, found: 0 })
    );
    assert_eq!(
        demo.run_performance_test(300),
        Ok(PerformanceCounts { added: 300, found: 300 })
    );
}

#[test]
fn workload_names_and_addresses() {
    assert_eq!(workload_hostname_of(0), "test-device-0000");
    assert_eq!(workload_hostname_of(7), "test-device-0007");
    assert_eq!(workload_hostname_of(999), "test-device-0999");
    assert_eq!(workload_hostname_of(1000), "test-device-1000");
    assert_eq!(workload_hostname_of(123456), "test-device-123456");
    assert_eq!(workload_mac_of(0), [0xaa, 0xbb, 0xcc, 0, 0, 0]);
    assert_eq!(workload_mac_of(0x010203), [0xaa, 0xbb, 0xcc, 1, 2, 3]);
    assert_eq!(workload_mac_of(0x1ffffff), [0xaa, 0xbb, 0xcc, 0xff, 0xff, 0xff]);
}
