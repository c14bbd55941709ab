use socks5::addr::{parse_ipv4_literal, parse_ipv6_literal};
use socks5::handshake::{classify_dest_addr, HandshakeError};
use socks5::proto::Address;

#[test]
fn ipv4_literals_parse_to_their_octets() {
    assert_eq!(parse_ipv4_literal(b"127.0.0.1"), Some(vec![127, 0, 0, 1]));
    assert_eq!(parse_ipv4_literal(b"0.0.0.0"), Some(vec![0, 0, 0, 0]));
    assert_eq!(parse_ipv4_literal(b"255.255.255.255"), Some(vec![255, 255, 255, 255]));
    assert_eq!(parse_ipv4_literal(b"10.20.30.40"), Some(vec![10, 20, 30, 40]));
}

#[test]
fn ipv4_rejects_out_of_range_and_malformed_text() {
    assert_eq!(parse_ipv4_literal(b"256.0.0.1"), None);
    assert_eq!(parse_ipv4_literal(b"1.2.3"), None);
    assert_eq!(parse_ipv4_literal(b"1.2.3.4.5"), None);
    assert_eq!(parse_ipv4_literal(b"1..2.3"), None);
    assert_eq!(parse_ipv4_literal(b"1.2.3."), None);
    assert_eq!(parse_ipv4_literal(b".1.2.3"), None);
    assert_eq!(parse_ipv4_literal(b"a.b.c.d"), None);
    assert_eq!(parse_ipv4_literal(b"1.2.3.4 "), None);
    assert_eq!(parse_ipv4_literal(b""), None);
    assert_eq!(parse_ipv4_literal(b"1234.0.0.1"), None);
}

#[test]
fn ipv4_rejects_leading_zeros() {
    assert_eq!(parse_ipv4_literal(b"01.2.3.4"), None);
    assert_eq!(parse_ipv4_literal(b"1.2.3.04"), None);
    assert_eq!(parse_ipv4_literal(b"0.00.0.0"), None);
}

#[test]
fn ipv6_full_form_parses() {
    let got = parse_ipv6_literal(b"2001:db8:0:0:8:800:200c:417a").unwrap();
    assert_eq!(
        got,
        vec![0x20, 0x01, 0x0d, 0xb8, 0, 0, 0, 0, 0, 8, 0x08, 0, 0x20, 0x0c, 0x41, 0x7a]
    );
}

#[test]
fn ipv6_compressed_forms_parse() {
    let mut loopback = vec![0u8; 16];
    loopback[15] = 1;
    assert_eq!(parse_ipv6_literal(b"::1"), Some(loopback));

    assert_eq!(parse_ipv6_literal(b"::"), Some(vec![0u8; 16]));

    let got = parse_ipv6_literal(b"2001:db8::8:800:200c:417a").unwrap();
    assert_eq!(
        got,
        vec![0x20, 0x01, 0x0d, 0xb8, 0, 0, 0, 0, 0, 8, 0x08, 0, 0x20, 0x0c, 0x41, 0x7a]
    );

    let got = parse_ipv6_literal(b"fe80::").unwrap();
    assert_eq!(got[0..2], [0xfe, 0x80]);
    assert_eq!(got[2..16], [0u8; 14]);

    let got = parse_ipv6_literal(b"1::8").unwrap();
    assert_eq!(got[1], 1);
    assert_eq!(got[15], 8);
    assert_eq!(got.iter().map(|&b| b as u32).sum::<u32>(), 9);
}

#[test]
fn ipv6_uppercase_digits_parse() {
    let got = parse_ipv6_literal(b"2001:DB8::417A").unwrap();
    assert_eq!(got[0..4], [0x20, 0x01, 0x0d, 0xb8]);
    assert_eq!(got[14..16], [0x41, 0x7a]);
}

#[test]
fn ipv6_rejects_malformed_text() {
    assert_eq!(parse_ipv6_literal(b""), None);
    assert_eq!(parse_ipv6_literal(b":"), None);
    assert_eq!(parse_ipv6_literal(b":::"), None);
    assert_eq!(parse_ipv6_literal(b":1"), None);
    assert_eq!(parse_ipv6_literal(b"1:"), None);
    assert_eq!(parse_ipv6_literal(b"1::2::3"), None);
    assert_eq!(parse_ipv6_literal(b"1:2:3:4:5:6:7"), None);
    assert_eq!(parse_ipv6_literal(b"1:2:3:4:5:6:7:8:9"), None);
    assert_eq!(parse_ipv6_literal(b"1:2:3:4:5:6:7::8"), None);
    assert_eq!(parse_ipv6_literal(b"12345::"), None);
    assert_eq!(parse_ipv6_literal(b"g::1"), None);
}

#[test]
fn classify_picks_the_literal_form_first() {
    match classify_dest_addr(b"127.0.0.1").unwrap() {
        Address::Ipv4(octets) => assert_eq!(octets, vec![127, 0, 0, 1]),
        other => panic!("unexpected: {other:?}"),
    }
    match classify_dest_addr(b"::1").unwrap() {
        Address::Ipv6(bytes) => assert_eq!(bytes[15], 1),
        other => panic!("unexpected: {other:?}"),
    }
}

#[test]
fn classify_passes_names_through_opaque() {
    match classify_dest_addr(b"example.com.uk").unwrap() {
        Address::DomainName(name) => assert_eq!(name.as_slice(), b"example.com.uk"),
        other => panic!("unexpected: {other:?}"),
    }
    // A near-literal still goes to the resolver as a name.
    match classify_dest_addr(b"127.0.0.256").unwrap() {
        Address::DomainName(name) => assert_eq!(name.as_slice(), b"127.0.0.256"),
        other => panic!("unexpected: {other:?}"),
    }
}

#[test]
fn host_text_renders_each_address_form() {
    assert_eq!(Address::Ipv4(vec![127, 0, 0, 1]).host_text(), b"127.0.0.1".to_vec());
    assert_eq!(Address::Ipv4(vec![0, 9, 45, 255]).host_text(), b"0.9.45.255".to_vec());
    assert_eq!(
        Address::DomainName(b"example.com.uk".to_vec()).host_text(),
        b"example.com.uk".to_vec()
    );
    let mut v6 = vec![0u8; 16];
    v6[15] = 1;
    assert_eq!(
        Address::Ipv6(v6).host_text(),
        b"0:0:0:0:0:0:0:1".to_vec()
    );
    assert_eq!(
        Address::Ipv6(vec![
            0x20, 0x01, 0x0d, 0xb8, 0, 0, 0, 0, 0, 8, 0x08, 0, 0x20, 0x0c, 0x41, 0x7a,
        ])
        .host_text(),
        b"2001:db8:0:0:8:800:200c:417a".to_vec()
    );
}

#[test]
fn host_text_of_a_literal_parses_back_to_the_same_address() {
    let quad = vec![10u8, 0, 200, 7];
    let text = Address::Ipv4(quad.clone()).host_text();
    assert_eq!(parse_ipv4_literal(&text), Some(quad));

    let bytes: Vec<u8> = (0u8..16).collect();
    let text = Address::Ipv6(bytes.clone()).host_text();
    assert_eq!(parse_ipv6_literal(&text), Some(bytes));
}

#[test]
fn classify_rejects_what_the_wire_cannot_carry() {
    assert!(matches!(classify_dest_addr(b""), Err(HandshakeError::InvalidDestination)));
    let long = vec![b'a'; 256];
    assert!(matches!(classify_dest_addr(&long), Err(HandshakeError::InvalidDestination)));
    let edge = vec![b'a'; 255];
    assert!(matches!(classify_dest_addr(&edge), Ok(Address::DomainName(_))));
}
