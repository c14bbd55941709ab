use socks5::codec::{
    decode_address, decode_choice, decode_greeting, decode_request, decode_response, DecodeError,
    Violation,
};
use socks5::proto::{
    Address, AuthMethod, ClientCommand, ClientConnectionRequest, ClientGreeting, ServerAuthChoice,
    ServerResponse, ServerStatus,
};

#[test]
fn greeting_no_auth_round_trip() {
    let wire = vec![0x05u8, 0x01, 0x00];
    let (greeting, used) = decode_greeting(&wire).unwrap();
    assert_eq!(used, 3);
    assert_eq!(greeting.0, vec![AuthMethod::NoAuth]);
    assert_eq!(greeting.as_bytes(), wire);
}

#[test]
fn greeting_several_methods_round_trip() {
    let wire = vec![0x05u8, 0x03, 0x00, 0x02, 0x80];
    let (greeting, used) = decode_greeting(&wire).unwrap();
    assert_eq!(used, 5);
    assert_eq!(
        greeting.0,
        vec![AuthMethod::NoAuth, AuthMethod::UserPass, AuthMethod::Other(0x80)]
    );
    assert_eq!(greeting.as_bytes(), wire);
}

#[test]
fn greeting_trailing_bytes_are_left_for_the_next_message() {
    let wire = vec![0x05u8, 0x01, 0x00, 0x05, 0x01, 0x00, 0x01];
    let (greeting, used) = decode_greeting(&wire).unwrap();
    assert_eq!(used, 3);
    assert_eq!(greeting.as_bytes(), &wire[..3]);
}

#[test]
fn greeting_bad_version_is_a_violation() {
    assert!(matches!(
        decode_greeting(&[0x04, 0x01, 0x00]),
        Err(DecodeError::ProtocolViolation(Violation::BadVersion))
    ));
}

#[test]
fn greeting_zero_methods_is_a_violation() {
    match decode_greeting(&[0x05, 0x00]) {
        Err(DecodeError::ProtocolViolation(Violation::BadMethodCount)) => {}
        other => panic!("unexpected: {other:?}"),
    }
}

#[test]
fn greeting_short_reads() {
    assert!(matches!(decode_greeting(&[]), Err(DecodeError::ShortRead)));
    assert!(matches!(decode_greeting(&[0x05]), Err(DecodeError::ShortRead)));
    assert!(matches!(decode_greeting(&[0x05, 0x02, 0x00]), Err(DecodeError::ShortRead)));
}

#[test]
fn choice_round_trip() {
    let wire = vec![0x05u8, 0x00];
    let (choice, used) = decode_choice(&wire).unwrap();
    assert_eq!(used, 2);
    assert_eq!(choice.0, AuthMethod::NoAuth);
    assert_eq!(choice.as_bytes(), wire);
}

#[test]
fn choice_none_acceptable() {
    let (choice, _) = decode_choice(&[0x05, 0xff]).unwrap();
    assert_eq!(choice.0, AuthMethod::NoneAcceptable);
    assert_eq!(ServerAuthChoice(AuthMethod::NoneAcceptable).as_bytes(), vec![0x05, 0xff]);
}

#[test]
fn choice_errors() {
    assert!(matches!(decode_choice(&[0x05]), Err(DecodeError::ShortRead)));
    assert!(matches!(
        decode_choice(&[0x06, 0x00]),
        Err(DecodeError::ProtocolViolation(Violation::BadVersion))
    ));
}

#[test]
fn connect_request_to_ipv4_literal() {
    let wire = vec![0x05u8, 0x01, 0x00, 0x01, 0x7f, 0x00, 0x00, 0x01, 0x00, 0x50];
    let (request, used) = decode_request(&wire).unwrap();
    assert_eq!(used, 10);
    assert_eq!(request.cmd, ClientCommand::EstablishConnection);
    match &request.dest_addr {
        Address::Ipv4(octets) => assert_eq!(octets, &vec![127u8, 0, 0, 1]),
        other => panic!("unexpected address: {other:?}"),
    }
    assert_eq!(request.dest_port, 80);
    assert_eq!(request.as_bytes(), wire);
}

#[test]
fn connect_request_to_domain_name() {
    let mut wire = vec![0x05u8, 0x01, 0x00, 0x03, 0x0e];
    wire.extend_from_slice(b"example.com.uk");
    wire.extend_from_slice(&[0x00, 0x50]);
    let (request, used) = decode_request(&wire).unwrap();
    assert_eq!(used, wire.len());
    assert_eq!(request.cmd, ClientCommand::EstablishConnection);
    match &request.dest_addr {
        Address::DomainName(name) => assert_eq!(name.as_slice(), b"example.com.uk"),
        other => panic!("unexpected address: {other:?}"),
    }
    assert_eq!(request.dest_port, 80);
    assert_eq!(request.as_bytes(), wire);
}

#[test]
fn connect_request_to_ipv6_round_trip() {
    let request = ClientConnectionRequest {
        cmd: ClientCommand::EstablishConnection,
        dest_addr: Address::Ipv6(vec![
            0x20, 0x01, 0x0d, 0xb8, 0, 0, 0, 0, 0, 0, 0, 0, 0, 0, 0x04, 0x17,
        ]),
        dest_port: 0xabcd,
    };
    let wire = request.as_bytes();
    assert_eq!(wire[0..4], [0x05, 0x01, 0x00, 0x04]);
    assert_eq!(wire[20..22], [0xab, 0xcd]);
    let (decoded, used) = decode_request(&wire).unwrap();
    assert_eq!(used, wire.len());
    assert_eq!(decoded.dest_port, 0xabcd);
    match &decoded.dest_addr {
        Address::Ipv6(bytes) => assert_eq!(bytes.len(), 16),
        other => panic!("unexpected address: {other:?}"),
    }
}

#[test]
fn request_reserved_byte_must_be_zero() {
    let wire = [0x05, 0x01, 0x01, 0x01, 0x7f, 0x00, 0x00, 0x01, 0x00, 0x50];
    assert!(matches!(
        decode_request(&wire),
        Err(DecodeError::ProtocolViolation(Violation::BadReserved))
    ));
}

#[test]
fn request_unknown_command_is_a_violation() {
    let wire = [0x05, 0x09, 0x00, 0x01, 0x7f, 0x00, 0x00, 0x01, 0x00, 0x50];
    assert!(matches!(
        decode_request(&wire),
        Err(DecodeError::ProtocolViolation(Violation::BadCommand))
    ));
}

#[test]
fn request_unknown_address_type() {
    let wire = [0x05, 0x01, 0x00, 0x02, 0x7f, 0x00, 0x00, 0x01, 0x00, 0x50];
    assert!(matches!(decode_request(&wire), Err(DecodeError::UnsupportedAddressType)));
}

#[test]
fn request_short_reads() {
    let full = [0x05u8, 0x01, 0x00, 0x01, 0x7f, 0x00, 0x00, 0x01, 0x00, 0x50];
    for cut in [0, 1, 2, 3, 4, 7, 8, 9] {
        assert!(
            matches!(decode_request(&full[..cut]), Err(DecodeError::ShortRead)),
            "cut at {cut}"
        );
    }
}

#[test]
fn address_codec_covers_all_three_forms() {
    let (a, n) = decode_address(&[0x01, 10, 0, 0, 7]).unwrap();
    assert_eq!(n, 5);
    assert!(matches!(a, Address::Ipv4(o) if o == vec![10, 0, 0, 7]));

    let (a, n) = decode_address(&[0x03, 0x02, b'o', b'k', 0xee]).unwrap();
    assert_eq!(n, 4);
    assert!(matches!(a, Address::DomainName(d) if d == b"ok".to_vec()));

    let mut v6 = vec![0x04u8];
    v6.extend_from_slice(&[0u8; 16]);
    let (a, n) = decode_address(&v6).unwrap();
    assert_eq!(n, 17);
    assert!(matches!(a, Address::Ipv6(o) if o == vec![0u8; 16]));
}

#[test]
fn address_empty_domain_is_a_violation() {
    assert!(matches!(
        decode_address(&[0x03, 0x00]),
        Err(DecodeError::ProtocolViolation(Violation::EmptyDomain))
    ));
}

#[test]
fn response_success_round_trip() {
    let wire = vec![0x05u8, 0x00, 0x00, 0x01, 0x00, 0x00, 0x00, 0x00, 0x00, 0x00];
    let (reply, used) = decode_response(&wire).unwrap();
    assert_eq!(used, 10);
    assert_eq!(reply.status, ServerStatus::RequestGranted);
    assert_eq!(reply.bound_port, 0);
    assert_eq!(reply.as_bytes(), wire);
}

#[test]
fn response_refused_round_trip() {
    let wire = vec![0x05u8, 0x05, 0x00, 0x01, 0x00, 0x00, 0x00, 0x00, 0x00, 0x00];
    let (reply, used) = decode_response(&wire).unwrap();
    assert_eq!(used, 10);
    assert_eq!(reply.status, ServerStatus::ConnectionRefusedByDestinationHost);
    assert_eq!(reply.as_bytes(), wire);
}

#[test]
fn response_every_status_survives_the_round_trip() {
    for code in 0x00u8..=0x08 {
        let wire = vec![0x05u8, code, 0x00, 0x01, 1, 2, 3, 4, 0x1f, 0x90];
        let (reply, used) = decode_response(&wire).unwrap();
        assert_eq!(used, 10);
        assert_eq!(reply.bound_port, 8080);
        assert_eq!(reply.as_bytes(), wire);
    }
}

#[test]
fn response_unknown_status_is_a_violation() {
    let wire = [0x05, 0x09, 0x00, 0x01, 0, 0, 0, 0, 0, 0];
    assert!(matches!(
        decode_response(&wire),
        Err(DecodeError::ProtocolViolation(Violation::BadStatus))
    ));
}

#[test]
fn response_with_sentinel_builds_the_refusal_wire_bytes() {
    let reply = ServerResponse::with_sentinel(ServerStatus::HostUnreachable);
    assert_eq!(
        reply.as_bytes(),
        vec![0x05, 0x04, 0x00, 0x01, 0x00, 0x00, 0x00, 0x00, 0x00, 0x00]
    );
}

#[test]
fn port_bytes_are_big_endian() {
    let request = ClientConnectionRequest {
        cmd: ClientCommand::EstablishConnection,
        dest_addr: Address::Ipv4(vec![1, 2, 3, 4]),
        dest_port: 0x0102,
    };
    let wire = request.as_bytes();
    assert_eq!(&wire[8..10], &[0x01, 0x02]);
}
