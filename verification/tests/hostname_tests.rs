use esp_wifi_ap::chars::{is_alnum, is_label_char, is_whitespace, to_lower_char};
use esp_wifi_ap::hostname::{is_valid, sanitize, sanitize_local};

#[test]
fn sanitize_literal_scenarios() {
    assert_eq!(sanitize("My Device!"), "my-device");
    assert_eq!(sanitize("-invalid"), "invalid");
    assert!(is_valid(&sanitize("-invalid")));
    assert_eq!(sanitize("Test_Device"), "test-device");
    assert_eq!(sanitize("Test Device!"), "test-device");
    assert_eq!(sanitize("a  b"), "a--b");
    assert_eq!(sanitize("--a--"), "a");
    assert_eq!(sanitize("UPPER"), "upper");
    assert_eq!(sanitize("already-fine-01"), "already-fine-01");
}

#[test]
fn sanitize_edge_cases() {
    assert_eq!(sanitize(""), "");
    assert!(!is_valid(&sanitize("")));
    assert_eq!(sanitize("!!!"), "");
    assert_eq!(sanitize("-"), "");
    assert_eq!(sanitize(&"a".repeat(64)), "a".repeat(63));
    assert_eq!(sanitize(&"a".repeat(63)), "a".repeat(63));
    assert_eq!(sanitize(&format!("--{}--", "b".repeat(70))), "b".repeat(63));
    assert_eq!(sanitize("日本語"), "");
    assert_eq!(sanitize("naïve"), "na-ve");
    assert_eq!(sanitize("é"), "");
    assert_eq!(sanitize("\u{212a}"), "");
    assert_eq!(sanitize("x\u{130}y"), "x-y");
}

#[test]
fn sanitize_keeps_dots_out_of_labels() {
    assert_eq!(sanitize("printer.local"), "printer-local");
    assert_eq!(sanitize_local("printer.local"), "printer");
    assert_eq!(sanitize_local("Printer.LOCAL"), "printer");
    assert_eq!(sanitize_local("printer.local.local"), "printer");
    assert_eq!(sanitize_local("printer.local."), "printer-local");
    assert_eq!(sanitize_local("a.b.local"), "a-b");
    assert_eq!(sanitize_local(".local"), "");
    assert_eq!(sanitize_local("local"), "local");
    assert_eq!(sanitize_local("My Device!"), "my-device");
}

#[test]
fn sanitize_is_idempotent_on_samples() {
    let samples = [
        "My Device!",
        "-invalid",
        "",
        "a.b.c",
        "Hello World 123",
        "__x__",
        "x.local",
        "A-B-C",
        "tab\tand\nnewline",
    ];
    for s in samples {
        let once = sanitize(s);
        assert_eq!(sanitize(&once), once);
        let once_local = sanitize_local(s);
        assert_eq!(sanitize_local(&once_local), once_local);
        assert_eq!(sanitize(&once_local), once_local);
    }
}

#[test]
fn sanitize_is_not_idempotent_where_the_cut_leaves_a_hyphen() {
    let s = format!("{}-b", "a".repeat(62));
    let once = sanitize(&s);
    assert_eq!(once, format!("{}-", "a".repeat(62)));
    assert!(!is_valid(&once));
    assert_eq!(sanitize(&once), "a".repeat(62));
}

#[test]
fn valid_lower_case_labels_are_kept() {
    let labels = ["a", "z9", "valid-hostname", "test123", "my-device-01", "0", "a-b-c"];
    for h in labels {
        assert!(is_valid(h));
        assert_eq!(sanitize(h), h);
        assert_eq!(sanitize_local(h), h);
    }
    let longest = "x".repeat(63);
    assert!(is_valid(&longest));
    assert_eq!(sanitize(&longest), longest);
}

#[test]
fn valid_labels_with_upper_case_are_lowered() {
    assert!(is_valid("Laptop"));
    assert_eq!(sanitize("Laptop"), "laptop");
}

#[test]
fn is_valid_follows_the_label_rule() {
    assert!(is_valid("valid-hostname"));
    assert!(is_valid("test123"));
    assert!(is_valid("device-01"));
    assert!(is_valid("A1"));
    assert!(!is_valid(""));
    assert!(!is_valid("-invalid"));
    assert!(!is_valid("invalid-"));
    assert!(!is_valid("-"));
    assert!(!is_valid("My Device!"));
    assert!(!is_valid("under_score"));
    assert!(!is_valid("dot.ted"));
    assert!(!is_valid("café"));
    assert!(!is_valid(&"a".repeat(64)));
    assert!(is_valid(&"a".repeat(63)));
    assert!(!is_valid(&"é".repeat(20)));
}

#[test]
fn character_classes_agree_with_the_standard_library() {
    let mut code: u32 = 0;
    while code <= 0x10ffff {
        if let Some(c) = char::from_u32(code) {
            assert_eq!(is_alnum(c), c.is_ascii_alphanumeric());
            assert_eq!(is_label_char(c), c.is_ascii_alphanumeric() || c == '-');
            assert_eq!(to_lower_char(c), c.to_ascii_lowercase());
            assert_eq!(is_whitespace(c), c.is_whitespace());
        }
        code += 1;
    }
}
