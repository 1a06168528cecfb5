use portmap::address::parse_ipv4;
use portmap::args::{
    add_fault, protocol_fault, remove_fault, timeout_fault, ArgumentFault,
};
use portmap::args::{
    add_intent, ascii_bytes, parse_lease, parse_port, parse_selector, parse_timeout, parse_unsigned,
    remove_intent, spells_word,
};
use portmap::command::Intent;
use portmap::model::{ErrorKind, Ipv4, ProtocolSelector};

#[test]
fn port_bounds_are_enforced() {
    assert_eq!(parse_port("0"), Ok(0));
    assert_eq!(parse_port("65535"), Ok(65535));
    assert_eq!(parse_port("65536"), Err(ErrorKind::InvalidArgument));
    assert_eq!(parse_port("-1"), Err(ErrorKind::InvalidArgument));
}

#[test]
fn port_must_be_digits_only() {
    assert_eq!(parse_port("8080"), Ok(8080));
    assert_eq!(parse_port("+8080"), Ok(8080));
    assert_eq!(parse_port("0080"), Ok(80));
    assert_eq!(parse_port(""), Err(ErrorKind::InvalidArgument));
    assert_eq!(parse_port("+"), Err(ErrorKind::InvalidArgument));
    assert_eq!(parse_port("++1"), Err(ErrorKind::InvalidArgument));
    assert_eq!(parse_port(" 80"), Err(ErrorKind::InvalidArgument));
    assert_eq!(parse_port("80 "), Err(ErrorKind::InvalidArgument));
    assert_eq!(parse_port("8_0"), Err(ErrorKind::InvalidArgument));
    assert_eq!(parse_port("8o"), Err(ErrorKind::InvalidArgument));
    assert_eq!(parse_port("٣"), Err(ErrorKind::InvalidArgument));
    assert_eq!(parse_port("99999999999999999999999999"), Err(ErrorKind::InvalidArgument));
}

#[test]
fn unsigned_respects_its_limit() {
    assert_eq!(parse_unsigned("255", 255), Some(255));
    assert_eq!(parse_unsigned("256", 255), None);
    assert_eq!(parse_unsigned("7", 0), None);
    assert_eq!(parse_unsigned("0", 0), Some(0));
    assert_eq!(parse_unsigned("18446744073709551615", u64::MAX), Some(u64::MAX));
    assert_eq!(parse_unsigned("18446744073709551616", u64::MAX), None);
}

#[test]
fn lease_is_a_u32() {
    assert_eq!(parse_lease("0"), Ok(0));
    assert_eq!(parse_lease("3600"), Ok(3600));
    assert_eq!(parse_lease("4294967295"), Ok(4294967295));
    assert_eq!(parse_lease("4294967296"), Err(ErrorKind::InvalidArgument));
    assert_eq!(parse_lease("soon"), Err(ErrorKind::InvalidArgument));
}

#[test]
fn timeout_defaults_to_a_minute() {
    assert_eq!(parse_timeout(None), Ok(60));
    assert_eq!(parse_timeout(Some("5")), Ok(5));
    assert_eq!(parse_timeout(Some("-5")), Err(ErrorKind::InvalidArgument));
    assert_eq!(parse_timeout(Some("1.5")), Err(ErrorKind::InvalidArgument));
}

#[test]
fn selector_is_read_in_any_case() {
    assert_eq!(parse_selector("TCP"), Ok(ProtocolSelector::Tcp));
    assert_eq!(parse_selector("tcp"), Ok(ProtocolSelector::Tcp));
    assert_eq!(parse_selector("Udp"), Ok(ProtocolSelector::Udp));
    assert_eq!(parse_selector("bOtH"), Ok(ProtocolSelector::Both));
    assert_eq!(parse_selector(""), Err(ErrorKind::InvalidArgument));
    assert_eq!(parse_selector("TCP "), Err(ErrorKind::InvalidArgument));
    assert_eq!(parse_selector("SCTP"), Err(ErrorKind::InvalidArgument));
    assert_eq!(parse_selector("TC"), Err(ErrorKind::InvalidArgument));
    assert_eq!(parse_selector("4#0"), Err(ErrorKind::InvalidArgument));
}

#[test]
fn word_match_ignores_ascii_case_only() {
    assert!(spells_word("both", "BOTH"));
    assert!(spells_word("BOTH", "BOTH"));
    assert!(!spells_word("bath", "BOTH"));
    assert!(!spells_word("bot", "BOTH"));
    assert!(!spells_word("BÖTH", "BOTH"));
}

#[test]
fn add_request_is_built_from_valid_words() {
    let host = Ipv4 { bits: 0xC000_0205 };
    assert_eq!(
        add_intent("8080", "80", "192.0.2.5", Some("tcp"), None, "x".to_string()),
        Ok(Intent::Add {
            selector: ProtocolSelector::Tcp,
            external_port: 8080,
            internal_host: host,
            internal_port: 80,
            lease_seconds: 0,
            description: "x".to_string(),
        })
    );
    assert_eq!(
        add_intent("1", "2", "192.0.2.5", Some("BOTH"), Some("30"), String::new()),
        Ok(Intent::Add {
            selector: ProtocolSelector::Both,
            external_port: 1,
            internal_host: host,
            internal_port: 2,
            lease_seconds: 30,
            description: String::new(),
        })
    );
}

#[test]
fn add_request_rejects_each_malformed_word() {
    let host = "192.0.2.5";
    let bad = Err(ErrorKind::InvalidArgument);
    assert_eq!(add_intent("80", "80", "192.0.2", Some("tcp"), None, String::new()), bad);
    assert_eq!(add_intent("80", "80", "router.lan", Some("tcp"), None, String::new()), bad);
    assert_eq!(add_intent("65536", "80", host, Some("tcp"), None, String::new()), bad);
    assert_eq!(add_intent("-1", "80", host, Some("tcp"), None, String::new()), bad);
    assert_eq!(add_intent("80", "65536", host, Some("tcp"), None, String::new()), bad);
    assert_eq!(add_intent("80", "80", host, Some("icmp"), None, String::new()), bad);
    assert_eq!(add_intent("80", "80", host, None, None, String::new()), bad);
    assert_eq!(add_intent("80", "80", host, Some("tcp"), Some("-3"), String::new()), bad);
    assert!(add_intent("0", "65535", host, Some("udp"), Some("0"), String::new()).is_ok());
}

#[test]
fn remove_request_is_built_from_valid_words() {
    assert_eq!(
        remove_intent(false, Some("8080"), Some("both")),
        Ok(Intent::Remove { selector: ProtocolSelector::Both, external_port: 8080 })
    );
    assert_eq!(remove_intent(false, None, Some("tcp")), Err(ErrorKind::InvalidArgument));
    assert_eq!(remove_intent(false, Some("8080"), None), Err(ErrorKind::InvalidArgument));
    assert_eq!(remove_intent(false, Some("65536"), Some("tcp")), Err(ErrorKind::InvalidArgument));
    assert_eq!(remove_intent(false, Some("80"), Some("any")), Err(ErrorKind::InvalidArgument));
}

#[test]
fn clear_all_ignores_port_and_protocol() {
    assert_eq!(remove_intent(true, None, None), Ok(Intent::RemoveAll));
    assert_eq!(remove_intent(true, Some("junk"), Some("junk")), Ok(Intent::RemoveAll));
}

#[test]
fn dotted_quad_is_read() {
    assert_eq!(parse_ipv4("192.0.2.5"), Some(Ipv4 { bits: 0xC000_0205 }));
    assert_eq!(parse_ipv4("0.0.0.0"), Some(Ipv4 { bits: 0 }));
    assert_eq!(parse_ipv4("255.255.255.255"), Some(Ipv4 { bits: 0xFFFF_FFFF }));
    assert_eq!(parse_ipv4("10.0.0.1"), Some(Ipv4 { bits: 0x0A00_0001 }));
    assert_eq!(parse_ipv4("1.2.3.4"), Some(Ipv4 { bits: 0x0102_0304 }));
}

#[test]
fn malformed_address_is_refused() {
    assert_eq!(parse_ipv4(""), None);
    assert_eq!(parse_ipv4("1.2.3"), None);
    assert_eq!(parse_ipv4("1.2.3.4.5"), None);
    assert_eq!(parse_ipv4("1.2.3."), None);
    assert_eq!(parse_ipv4(".1.2.3"), None);
    assert_eq!(parse_ipv4("1..2.3"), None);
    assert_eq!(parse_ipv4("256.0.0.1"), None);
    assert_eq!(parse_ipv4("1.2.3.999"), None);
    assert_eq!(parse_ipv4("01.2.3.4"), None);
    assert_eq!(parse_ipv4("1.2.3.00"), None);
    assert_eq!(parse_ipv4("1.2.3.0004"), None);
    assert_eq!(parse_ipv4("1.2.3.4 "), None);
    assert_eq!(parse_ipv4("+1.2.3.4"), None);
    assert_eq!(parse_ipv4("a.b.c.d"), None);
    assert_eq!(parse_ipv4("::1"), None);
    assert_eq!(parse_ipv4("1.2.3.-4"), None);
}

#[test]
fn text_outside_ascii_is_no_address_and_no_number() {
    assert_eq!(parse_ipv4("1.2.3.٤"), None);
    assert_eq!(parse_ipv4("1。2。3。4"), None);
    assert_eq!(parse_unsigned("١٢", 100), None);
    assert_eq!(parse_unsigned("+é", 100), None);
}

#[test]
fn ascii_text_is_handed_out_as_bytes() {
    assert_eq!(ascii_bytes("a.1"), Some(&[97u8, 46, 49][..]));
    assert_eq!(ascii_bytes(""), Some(&[][..]));
    assert_eq!(ascii_bytes("é"), None);
}

#[test]
fn add_fault_names_the_first_malformed_word() {
    assert_eq!(add_fault("8080", "80", "192.0.2.5", Some("tcp"), None), None);
    assert_eq!(add_fault("8080", "80", "192.0.2.5", Some("both"), Some("60")), None);
    assert_eq!(
        add_fault("65536", "x", "nowhere", None, Some("-1")),
        Some(ArgumentFault::ExternalPort)
    );
    assert_eq!(
        add_fault("80", "x", "nowhere", None, Some("-1")),
        Some(ArgumentFault::InternalPort)
    );
    assert_eq!(
        add_fault("80", "80", "nowhere", None, Some("-1")),
        Some(ArgumentFault::InternalHost)
    );
    assert_eq!(
        add_fault("80", "80", "10.0.0.1", None, Some("-1")),
        Some(ArgumentFault::LeaseDuration)
    );
    assert_eq!(
        add_fault("80", "80", "10.0.0.1", None, Some("1")),
        Some(ArgumentFault::MissingProtocol)
    );
    assert_eq!(
        add_fault("80", "80", "10.0.0.1", Some("icmp"), None),
        Some(ArgumentFault::Protocol)
    );
}

#[test]
fn add_fault_agrees_with_add_intent() {
    let words = [
        ("80", "80", "10.0.0.1", Some("udp"), None),
        ("-1", "80", "10.0.0.1", Some("udp"), None),
        ("80", "80", "10.0.0", Some("udp"), None),
        ("80", "80", "10.0.0.1", None, None),
        ("80", "80", "10.0.0.1", Some("udp"), Some("x")),
    ];
    for (ext, int, host, protocol, lease) in words {
        let built = add_intent(ext, int, host, protocol, lease, String::new());
        assert_eq!(built.is_err(), add_fault(ext, int, host, protocol, lease).is_some());
    }
}

#[test]
fn remove_fault_names_the_first_malformed_word() {
    assert_eq!(remove_fault(true, None, None), None);
    assert_eq!(remove_fault(true, Some("junk"), Some("junk")), None);
    assert_eq!(remove_fault(false, Some("80"), Some("Both")), None);
    assert_eq!(remove_fault(false, None, None), Some(ArgumentFault::MissingExternalPort));
    assert_eq!(remove_fault(false, Some("65536"), None), Some(ArgumentFault::ExternalPort));
    assert_eq!(remove_fault(false, Some("80"), None), Some(ArgumentFault::MissingProtocol));
    assert_eq!(remove_fault(false, Some("80"), Some("any")), Some(ArgumentFault::Protocol));
    assert_eq!(protocol_fault(Some("udp")), None);
}

#[test]
fn timeout_fault_is_named() {
    assert_eq!(timeout_fault(None), None);
    assert_eq!(timeout_fault(Some("0")), None);
    assert_eq!(timeout_fault(Some("60")), None);
    assert_eq!(timeout_fault(Some("soon")), Some(ArgumentFault::Timeout));
    assert_eq!(timeout_fault(Some("-1")), Some(ArgumentFault::Timeout));
}

#[test]
fn every_fault_has_its_sentence() {
    assert_eq!(
        ArgumentFault::ExternalPort.message(),
        "Invalid external port. Please choose an integer from 0 to 65535."
    );
    assert_eq!(ArgumentFault::MissingExternalPort.message(), "Please specify an external port.");
    assert_eq!(
        ArgumentFault::InternalPort.message(),
        "Invalid internal port. Please choose an integer from 0 to 65535."
    );
    assert_eq!(
        ArgumentFault::InternalHost.message(),
        "Invalid internal host address. Please specify an IPv4 address."
    );
    assert_eq!(ArgumentFault::LeaseDuration.message(), "Invalid duration. Choose an integer >= 0");
    assert_eq!(
        ArgumentFault::Protocol.message(),
        "Invalid protocol. TCP, UDP, and BOTH are valid."
    );
    assert_eq!(
        ArgumentFault::MissingProtocol.message(),
        "Please specify a protocol. TCP, UDP, and BOTH are valid."
    );
    assert_eq!(
        ArgumentFault::Timeout.message(),
        "Invalid timeout. Please choose an integer >= 0."
    );
}
