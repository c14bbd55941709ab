use socks5::codec::{decode_choice, decode_response};
use socks5::handshake::{
    check_auth_choice, check_server_reply, classify_dest_addr, connect_request, ConnectRequest,
    HandshakeError,
};
use socks5::proto::{Address, AuthMethod, ClientCommand, ClientGreeting, ServerStatus};

#[test]
fn no_auth_choice_is_accepted_when_offered() {
    let offered = vec![AuthMethod::NoAuth];
    let (choice, _) = decode_choice(&[0x05, 0x00]).unwrap();
    assert_eq!(check_auth_choice(&choice, &offered), Ok(()));
}

#[test]
fn none_acceptable_surfaces_negotiation_failure() {
    let offered = vec![AuthMethod::UserPass];
    let (choice, _) = decode_choice(&[0x05, 0xff]).unwrap();
    assert_eq!(
        check_auth_choice(&choice, &offered),
        Err(HandshakeError::AuthNegotiationFailed)
    );
}

#[test]
fn a_choice_never_offered_is_negotiation_failure() {
    let offered = vec![AuthMethod::NoAuth];
    let (choice, _) = decode_choice(&[0x05, 0x02]).unwrap();
    assert_eq!(
        check_auth_choice(&choice, &offered),
        Err(HandshakeError::AuthNegotiationFailed)
    );
}

#[test]
fn an_offered_method_other_than_no_auth_is_unsupported() {
    let offered = vec![AuthMethod::NoAuth, AuthMethod::GssApi];
    let (choice, _) = decode_choice(&[0x05, 0x01]).unwrap();
    assert_eq!(
        check_auth_choice(&choice, &offered),
        Err(HandshakeError::UnsupportedAuthMethod)
    );
}

#[test]
fn the_full_client_exchange_for_an_ipv4_destination() {
    // What the driver sends and reads for a ConnectRequest to
    // 127.0.0.1:80 through some gateway, with NoAuth offered.
    let request = ConnectRequest {
        server_addr: String::from("127.0.0.1:1080"),
        dest_addr: String::from("127.0.0.1"),
        dest_port: 80,
        supported_auth_methods: vec![AuthMethod::NoAuth],
    };

    let greeting = ClientGreeting(request.supported_auth_methods.clone());
    assert_eq!(greeting.as_bytes(), vec![0x05, 0x01, 0x00]);

    let (choice, _) = decode_choice(&[0x05, 0x00]).unwrap();
    assert_eq!(check_auth_choice(&choice, &request.supported_auth_methods), Ok(()));

    let dest = classify_dest_addr(request.dest_addr.as_bytes()).unwrap();
    let wire_request = connect_request(dest, request.dest_port);
    assert_eq!(wire_request.cmd, ClientCommand::EstablishConnection);
    assert_eq!(
        wire_request.as_bytes(),
        vec![0x05, 0x01, 0x00, 0x01, 0x7f, 0x00, 0x00, 0x01, 0x00, 0x50]
    );

    let (reply, _) =
        decode_response(&[0x05, 0x00, 0x00, 0x01, 0x00, 0x00, 0x00, 0x00, 0x00, 0x00]).unwrap();
    assert_eq!(check_server_reply(&reply), Ok(()));
}

#[test]
fn a_domain_destination_is_sent_for_the_server_to_resolve() {
    let dest = classify_dest_addr(b"example.com.uk").unwrap();
    let wire_request = connect_request(dest, 80);
    let mut expected = vec![0x05u8, 0x01, 0x00, 0x03, 0x0e];
    expected.extend_from_slice(b"example.com.uk");
    expected.extend_from_slice(&[0x00, 0x50]);
    assert_eq!(wire_request.as_bytes(), expected);
}

#[test]
fn a_rejected_reply_preserves_the_status() {
    let (reply, _) =
        decode_response(&[0x05, 0x05, 0x00, 0x01, 0x00, 0x00, 0x00, 0x00, 0x00, 0x00]).unwrap();
    assert_eq!(
        check_server_reply(&reply),
        Err(HandshakeError::ProxyRejected(
            ServerStatus::ConnectionRefusedByDestinationHost
        ))
    );
}

#[test]
fn every_failure_status_is_surfaced() {
    for code in 0x01u8..=0x08 {
        let wire = [0x05, code, 0x00, 0x01, 0, 0, 0, 0, 0, 0];
        let (reply, _) = decode_response(&wire).unwrap();
        match check_server_reply(&reply) {
            Err(HandshakeError::ProxyRejected(_)) => {}
            other => panic!("status {code} gave {other:?}"),
        }
    }
}

#[test]
fn an_ipv6_destination_classifies_and_encodes() {
    let dest = classify_dest_addr(b"::1").unwrap();
    assert!(matches!(&dest, Address::Ipv6(b) if b[15] == 1));
    let wire_request = connect_request(dest, 443);
    let wire = wire_request.as_bytes();
    assert_eq!(wire[3], 0x04);
    assert_eq!(wire.len(), 4 + 16 + 2);
    assert_eq!(&wire[20..22], &[0x01, 0xbb]);
}
