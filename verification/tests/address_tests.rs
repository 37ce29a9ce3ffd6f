use ebpf_firewall::address::{format_ipv4, is_ipv4_text, parse_ipv4};

#[test]
fn pattern_accepts_dotted_quads() {
    assert!(is_ipv4_text("172.0.0.1"));
    assert!(is_ipv4_text("255.255.255.255"));
    assert!(is_ipv4_text("0.0.0.0"));
    assert!(is_ipv4_text("01.002.3.4"));
    assert!(is_ipv4_text("199.249.250.9"));
}

#[test]
fn pattern_refuses_other_texts() {
    assert!(!is_ipv4_text(""));
    assert!(!is_ipv4_text("256.1.1.1"));
    assert!(!is_ipv4_text("1.2.3"));
    assert!(!is_ipv4_text("1.2.3.4.5"));
    assert!(!is_ipv4_text("1.2.3.4\n"));
    assert!(!is_ipv4_text(" 1.2.3.4"));
    assert!(!is_ipv4_text("1..3.4"));
    assert!(!is_ipv4_text("1.2.3.0004"));
    assert!(!is_ipv4_text("a.b.c.d"));
    assert!(!is_ipv4_text("300.2.3.4"));
    assert!(!is_ipv4_text("1.2.3.٣"));
}

#[test]
fn parse_reads_dotted_quads() {
    assert_eq!(parse_ipv4("172.0.0.1"), Some(0xAC00_0001));
    assert_eq!(parse_ipv4("0.0.0.0"), Some(0));
    assert_eq!(parse_ipv4("255.255.255.255"), Some(u32::MAX));
    assert_eq!(parse_ipv4("10.20.30.40"), Some(0x0A14_1E28));
}

#[test]
fn parse_refuses_leading_zeros_and_junk() {
    assert_eq!(parse_ipv4("01.2.3.4"), None);
    assert_eq!(parse_ipv4("1.2.3.00"), None);
    assert_eq!(parse_ipv4("256.0.0.1"), None);
    assert_eq!(parse_ipv4("1.2.3"), None);
    assert_eq!(parse_ipv4("1.2.3.4."), None);
    assert_eq!(parse_ipv4(""), None);
    assert_eq!(parse_ipv4("1.2.3.-4"), None);
    assert_eq!(parse_ipv4("1.2.3.4 "), None);
}

#[test]
fn format_writes_dotted_decimal() {
    assert_eq!(format_ipv4(0xAC00_0001), "172.0.0.1");
    assert_eq!(format_ipv4(0), "0.0.0.0");
    assert_eq!(format_ipv4(u32::MAX), "255.255.255.255");
    assert_eq!(format_ipv4(0x0A14_1E09), "10.20.30.9");
}

#[test]
fn format_then_parse_roundtrips() {
    for a in [0u32, 1, 9, 10, 99, 100, 255, 256, 0x0A00_0001, 0xC0A8_0101, u32::MAX, 0x6463_0A09] {
        assert_eq!(parse_ipv4(&format_ipv4(a)), Some(a));
        assert!(is_ipv4_text(&format_ipv4(a)));
    }
}

#[test]
fn parsed_texts_match_the_pattern() {
    for t in ["172.0.0.1", "0.0.0.0", "255.255.255.255", "9.99.199.249", "1.2.3.4", "01.2.3.4", "1.2.3", "x"] {
        if parse_ipv4(t).is_some() {
            assert!(is_ipv4_text(t));
        }
    }
    assert!(is_ipv4_text("01.2.3.4"));
    assert_eq!(parse_ipv4("01.2.3.4"), None);
}
