use esp_wifi_ap::device_join::{dashed_hostname, draw_names, register_joined_device, NamePool};
use esp_wifi_ap::dns_server::DnsServer;
use esp_wifi_ap::mac_hostname_config::MacHostnameConfig;
use esp_wifi_ap::mdns_service::MdnsService;
use esp_wifi_ap::error::CredentialsError;
use esp_wifi_ap::selection::{check_credentials, cycle_to_next_network, mac_to_name_index};

const LAPTOP: [u8; 6] = [0xaa, 0xbb, 0xcc, 0xdd, 0xee, 0xff];
const PHONE: [u8; 6] = [0x11, 0x22, 0x33, 0x44, 0x55, 0x66];
const WATCH: [u8; 6] = [0x01, 0x02, 0x03, 0x0a, 0x0b, 0x0c];

#[test]
fn a_device_with_a_static_hostname_keeps_it() {
    let mut registry = MacHostnameConfig::new();
    registry.add_mapping(LAPTOP, "Work Laptop".to_string()).unwrap();
    let mut names = NamePool::new(vec!["clumsy-bird".to_string()]);
    let mut dns = DnsServer::new();
    let mut mdns = MdnsService::new();
    mdns.init().unwrap();

    let joined =
        register_joined_device(&registry, &mut names, &mut dns, &mut mdns, LAPTOP, [192, 168, 4, 2]);
    assert_eq!(joined.friendly_name, "work-laptop");
    assert_eq!(joined.hostname, "work-laptop");
    assert_eq!(joined.mdns_hostname, Some("work-laptop".to_string()));
    assert_eq!(names.remaining(), 1);
    assert_eq!(dns.resolve_hostname("work-laptop"), Some([192, 168, 4, 2]));
    assert_eq!(mdns.query_hostname("work-laptop"), Some([192, 168, 4, 2]));
}

#[test]
fn a_device_without_a_static_hostname_gets_a_name_of_the_pool() {
    let registry = MacHostnameConfig::new();
    let mut names = NamePool::new(vec!["Quiet Owl".to_string(), "clumsy-bird".to_string()]);
    let mut dns = DnsServer::new();
    let mut mdns = MdnsService::new();
    mdns.init().unwrap();

    let first =
        register_joined_device(&registry, &mut names, &mut dns, &mut mdns, PHONE, [192, 168, 4, 3]);
    assert_eq!(first.friendly_name, "clumsy-bird");
    assert_eq!(first.hostname, "clumsy-bird");
    assert_eq!(first.mdns_hostname, Some("clumsy-bird".to_string()));
    assert_eq!(names.remaining(), 1);

    let second =
        register_joined_device(&registry, &mut names, &mut dns, &mut mdns, WATCH, [192, 168, 4, 4]);
    assert_eq!(second.friendly_name, "Quiet Owl");
    assert_eq!(second.hostname, "quiet-owl");
    assert_eq!(second.mdns_hostname, Some("device-0a0b0c".to_string()));
    assert_eq!(names.remaining(), 0);
    assert_eq!(dns.resolve_hostname("quiet-owl"), Some([192, 168, 4, 4]));
    assert_eq!(mdns.query_hostname("device-0a0b0c"), Some([192, 168, 4, 4]));

    let again =
        register_joined_device(&registry, &mut names, &mut dns, &mut mdns, PHONE, [192, 168, 4, 9]);
    assert_eq!(again.friendly_name, "clumsy-bird");
    assert_eq!(again.hostname, "clumsy-bird");
    assert_eq!(again.mdns_hostname, Some("clumsy-bird-1".to_string()));
    assert_eq!(dns.resolve_hostname("clumsy-bird"), Some([192, 168, 4, 9]));
    assert_eq!(dns.list_hostnames().len(), 2);
    assert_eq!(mdns.get_hostname_count(), 3);
}

#[test]
fn an_empty_pool_gives_way_to_the_mac_address() {
    let registry = MacHostnameConfig::new();
    let mut names = NamePool::new(vec![]);
    let mut dns = DnsServer::new();
    let mut mdns = MdnsService::new();

    let joined =
        register_joined_device(&registry, &mut names, &mut dns, &mut mdns, WATCH, [10, 0, 0, 5]);
    assert_eq!(joined.friendly_name, "device-0a0b0c");
    assert_eq!(joined.hostname, "device-0a0b0c");
    assert_eq!(joined.mdns_hostname, None);
    assert_eq!(mdns.get_hostname_count(), 0);
    assert_eq!(dns.resolve_hostname("device-0a0b0c"), Some([10, 0, 0, 5]));
}

#[test]
fn the_pool_remembers_what_it_gave() {
    let mut names = NamePool::new(vec!["b".to_string(), "a".to_string()]);
    assert_eq!(names.name_for(LAPTOP, "nameless-device"), "a");
    assert_eq!(names.name_for(PHONE, "nameless-device"), "b");
    assert_eq!(names.name_for(WATCH, "nameless-device"), "nameless-device");
    assert_eq!(names.name_for(LAPTOP, "other"), "a");
    assert_eq!(names.name_for(WATCH, "other"), "nameless-device");
    assert_eq!(names.remaining(), 0);
}

#[test]
fn friendly_names_become_hostnames() {
    assert_eq!(dashed_hostname("Quiet Owl"), "quiet-owl");
    assert_eq!(dashed_hostname("a  b"), "a--b");
    assert_eq!(dashed_hostname(""), "");
    assert_eq!(dashed_hostname("under_score.X"), "under_score.x");
}

#[test]
fn networks_are_cycled_round() {
    assert_eq!(cycle_to_next_network(0, 0), 0);
    assert_eq!(cycle_to_next_network(5, 0), 0);
    assert_eq!(cycle_to_next_network(0, 1), 0);
    assert_eq!(cycle_to_next_network(0, 3), 1);
    assert_eq!(cycle_to_next_network(1, 3), 2);
    assert_eq!(cycle_to_next_network(2, 3), 0);
    assert_eq!(cycle_to_next_network(7, 3), 2);
    assert_eq!(cycle_to_next_network(usize::MAX, 10), 6);
    assert_eq!(cycle_to_next_network(usize::MAX, 1), 0);
}

#[test]
fn the_last_byte_picks_the_name() {
    assert_eq!(mac_to_name_index(&[0, 0, 0, 0, 0, 0], 100), 0);
    assert_eq!(mac_to_name_index(&[9, 9, 9, 9, 9, 99], 100), 99);
    assert_eq!(mac_to_name_index(&[0, 0, 0, 0, 0, 255], 100), 55);
    assert_eq!(mac_to_name_index(&[0, 0, 0, 0, 0, 255], 1), 0);
}

#[test]
fn names_are_drawn_for_the_pool() {
    assert_eq!(draw_names(0), Vec::<String>::new());
    let drawn = draw_names(20);
    assert!(drawn.len() <= 20);
    assert!(!drawn.is_empty());
    for name in &drawn {
        assert!(!name.is_empty());
        assert_eq!(dashed_hostname(name), name.replace(' ', "-").to_lowercase());
    }
    let mut names = NamePool::new(drawn.clone());
    assert_eq!(names.remaining(), drawn.len());
    assert_eq!(names.name_for(LAPTOP, "nameless-device"), drawn[drawn.len() - 1]);
}

#[test]
fn credentials_must_fit_the_configuration() {
    assert_eq!(check_credentials("", ""), Ok(()));
    assert_eq!(check_credentials("home", "secret"), Ok(()));
    assert_eq!(check_credentials(&"s".repeat(32), &"p".repeat(64)), Ok(()));
    assert_eq!(
        check_credentials(&"s".repeat(33), &"p".repeat(64)),
        Err(CredentialsError::SsidTooLong)
    );
    assert_eq!(
        check_credentials(&"s".repeat(32), &"p".repeat(65)),
        Err(CredentialsError::PasswordTooLong)
    );
    assert_eq!(
        check_credentials(&"s".repeat(33), &"p".repeat(65)),
        Err(CredentialsError::SsidTooLong)
    );
    assert_eq!(check_credentials(&"é".repeat(16), "x"), Ok(()));
    assert_eq!(check_credentials(&"é".repeat(17), "x"), Err(CredentialsError::SsidTooLong));
    assert_eq!(
        check_credentials("net", &"日".repeat(22)),
        Err(CredentialsError::PasswordTooLong)
    );
    assert_eq!(check_credentials("net", &"日".repeat(21)), Ok(()));
}
