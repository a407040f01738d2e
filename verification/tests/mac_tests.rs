use esp_wifi_ap::dns_utils::DnsUtils;
use esp_wifi_ap::error::HostnameError;
use esp_wifi_ap::mac::{format_mac, parse_mac};

#[test]
fn mac_literal_scenario() {
    assert_eq!(
        DnsUtils::parse_mac("00:1a:2b:3c:4d:5e"),
        Ok([0x00, 0x1A, 0x2B, 0x3C, 0x4D, 0x5E])
    );
    assert_eq!(
        DnsUtils::format_mac([0x00, 0x1A, 0x2B, 0x3C, 0x4D, 0x5E]),
        "00:1a:2b:3c:4d:5e"
    );
}

#[test]
fn format_mac_is_lower_case_with_two_digits() {
    assert_eq!(format_mac([0, 0, 0, 0, 0, 0]), "00:00:00:00:00:00");
    assert_eq!(format_mac([255, 254, 16, 15, 9, 10]), "ff:fe:10:0f:09:0a");
    assert_eq!(format_mac([0xAA, 0xBB, 0xCC, 0xDD, 0xEE, 0xFF]), "aa:bb:cc:dd:ee:ff");
}

#[test]
fn parse_mac_reads_back_what_format_mac_writes() {
    let macs = [
        [0u8, 0, 0, 0, 0, 0],
        [255, 255, 255, 255, 255, 255],
        [1, 35, 69, 103, 137, 171],
        [0xde, 0xad, 0xbe, 0xef, 0x00, 0x01],
    ];
    for mac in macs {
        assert_eq!(parse_mac(&format_mac(mac)), Ok(mac));
    }
}

#[test]
fn parse_mac_accepts_what_a_hexadecimal_byte_may_look_like() {
    assert_eq!(parse_mac("AA:Bb:cC:0:1:f"), Ok([0xaa, 0xbb, 0xcc, 0, 1, 15]));
    assert_eq!(parse_mac("+a:000ff:0:0:0:0"), Ok([10, 255, 0, 0, 0, 0]));
}

#[test]
fn parse_mac_refuses_everything_else() {
    let bad = [
        "",
        "aa:bb:cc:dd:ee",
        "aa:bb:cc:dd:ee:ff:00",
        "aa:bb:cc:dd:ee:gg",
        "aa:bb:cc:dd:ee:",
        ":aa:bb:cc:dd:ee",
        "aa-bb-cc-dd-ee-ff",
        "aa:bb:cc:dd:ee:100",
        "aa:bb:cc:dd:ee:-1",
        "aa:bb:cc:dd:ee:+",
        "aa:bb:cc:dd:ee:++1",
        "aa:bb:cc:dd:ee: ff",
        "aa:bb:cc:dd:ee:ｆｆ",
    ];
    for s in bad {
        assert_eq!(parse_mac(s), Err(HostnameError::InvalidMacAddress));
    }
}

#[test]
fn hexadecimal_bytes_are_read_as_the_standard_library_reads_them() {
    let fields = [
        "0", "7", "a", "F", "ff", "FF", "0a", "00", "100", "0ff", "000000ff", "fff", "+1", "+ff",
        "+", "-1", "-0", "++1", "+-1", "", " 1", "1 ", "g", "0x1f", "1_0", "٣", "１",
    ];
    for field in fields {
        let text = format!("{}:1:2:3:4:5", field);
        let expected = match u8::from_str_radix(field, 16) {
            Ok(b) => Ok([b, 1, 2, 3, 4, 5]),
            Err(_) => Err(HostnameError::InvalidMacAddress),
        };
        assert_eq!(parse_mac(&text), expected);
    }
}
