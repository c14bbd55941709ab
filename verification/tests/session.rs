use socks5::codec::decode_greeting;
use socks5::proto::{
    Address, AuthMethod, ClientCommand, ClientConnectionRequest, ClientGreeting, ServerStatus,
};
use socks5::session::{
    choose_auth_method, dial_failure_response, dispatch_request, map_dial_error,
    negotiation_failure_bytes, phase_step, request_failure_response, success_response, DialError,
    Event, Phase, RequestDisposition,
};

#[test]
fn greeting_with_no_auth_is_accepted() {
    let (greeting, _) = decode_greeting(&[0x05, 0x01, 0x00]).unwrap();
    let choice = choose_auth_method(&greeting);
    assert_eq!(choice.0, AuthMethod::NoAuth);
    assert_eq!(choice.as_bytes(), vec![0x05, 0x00]);
}

#[test]
fn greeting_offering_only_user_pass_is_rejected() {
    let (greeting, _) = decode_greeting(&[0x05, 0x01, 0x02]).unwrap();
    let choice = choose_auth_method(&greeting);
    assert_eq!(choice.0, AuthMethod::NoneAcceptable);
    assert_eq!(choice.as_bytes(), vec![0x05, 0xff]);
}

#[test]
fn no_auth_is_found_anywhere_in_the_list() {
    let greeting = ClientGreeting(vec![
        AuthMethod::GssApi,
        AuthMethod::UserPass,
        AuthMethod::NoAuth,
    ]);
    assert_eq!(choose_auth_method(&greeting).0, AuthMethod::NoAuth);
}

#[test]
fn negotiation_failure_bytes_match_the_wire() {
    assert_eq!(negotiation_failure_bytes(), vec![0x05, 0xff]);
}

#[test]
fn connect_requests_are_served() {
    let request = ClientConnectionRequest {
        cmd: ClientCommand::EstablishConnection,
        dest_addr: Address::Ipv4(vec![127, 0, 0, 1]),
        dest_port: 80,
    };
    match dispatch_request(request) {
        RequestDisposition::Connect(q) => {
            assert_eq!(q.dest_port, 80);
            assert!(matches!(q.dest_addr, Address::Ipv4(_)));
        }
        RequestDisposition::Reject(r) => panic!("rejected: {r:?}"),
    }
}

#[test]
fn bind_and_udp_are_answered_with_command_not_supported() {
    for cmd in [ClientCommand::EstablishPortBinding, ClientCommand::AssociateUdpPort] {
        let request = ClientConnectionRequest {
            cmd,
            dest_addr: Address::Ipv4(vec![0, 0, 0, 0]),
            dest_port: 0,
        };
        match dispatch_request(request) {
            RequestDisposition::Reject(reply) => {
                assert_eq!(reply.status, ServerStatus::CommandNotSupported);
                assert_eq!(
                    reply.as_bytes(),
                    vec![0x05, 0x07, 0x00, 0x01, 0x00, 0x00, 0x00, 0x00, 0x00, 0x00]
                );
            }
            RequestDisposition::Connect(_) => panic!("served a non-connect command"),
        }
    }
}

#[test]
fn dial_errors_map_to_their_statuses() {
    assert_eq!(
        map_dial_error(DialError::ConnectionRefused),
        ServerStatus::ConnectionRefusedByDestinationHost
    );
    assert_eq!(map_dial_error(DialError::HostUnreachable), ServerStatus::HostUnreachable);
    assert_eq!(map_dial_error(DialError::NetworkUnreachable), ServerStatus::NetworkUnreachable);
    assert_eq!(map_dial_error(DialError::TtlExpired), ServerStatus::TtlExpired);
    assert_eq!(map_dial_error(DialError::Other), ServerStatus::GeneralFailure);
}

#[test]
fn connection_refused_reply_bytes() {
    let reply = dial_failure_response(DialError::ConnectionRefused);
    assert_eq!(
        reply.as_bytes(),
        vec![0x05, 0x05, 0x00, 0x01, 0x00, 0x00, 0x00, 0x00, 0x00, 0x00]
    );
}

#[test]
fn success_reply_bytes_use_the_sentinel_address() {
    assert_eq!(
        success_response().as_bytes(),
        vec![0x05, 0x00, 0x00, 0x01, 0x00, 0x00, 0x00, 0x00, 0x00, 0x00]
    );
}

#[test]
fn unreadable_request_reply_is_general_failure() {
    assert_eq!(
        request_failure_response().as_bytes(),
        vec![0x05, 0x01, 0x00, 0x01, 0x00, 0x00, 0x00, 0x00, 0x00, 0x00]
    );
}

#[test]
fn the_happy_path_walks_every_phase() {
    let p = Phase::AwaitGreeting;
    let p = phase_step(p, Event::GreetingAccepted);
    assert_eq!(p, Phase::AwaitRequest);
    let p = phase_step(p, Event::RequestConnect);
    assert_eq!(p, Phase::Dialing);
    let p = phase_step(p, Event::DialSucceeded);
    assert_eq!(p, Phase::Relaying);
    let p = phase_step(p, Event::RelayEnded);
    assert_eq!(p, Phase::Terminal);
}

#[test]
fn an_io_error_ends_the_session_from_every_phase() {
    for p in [
        Phase::AwaitGreeting,
        Phase::AwaitRequest,
        Phase::Dialing,
        Phase::Relaying,
        Phase::Terminal,
    ] {
        assert_eq!(phase_step(p, Event::IoError), Phase::Terminal);
    }
}

#[test]
fn terminal_is_absorbing() {
    for e in [
        Event::GreetingAccepted,
        Event::GreetingRejected,
        Event::RequestConnect,
        Event::RequestRejected,
        Event::ReadFailed,
        Event::DialSucceeded,
        Event::DialFailed,
        Event::RelayEnded,
        Event::IoError,
    ] {
        assert_eq!(phase_step(Phase::Terminal, e), Phase::Terminal);
    }
}

#[test]
fn failures_end_the_session() {
    assert_eq!(phase_step(Phase::AwaitGreeting, Event::GreetingRejected), Phase::Terminal);
    assert_eq!(phase_step(Phase::AwaitGreeting, Event::ReadFailed), Phase::Terminal);
    assert_eq!(phase_step(Phase::AwaitRequest, Event::ReadFailed), Phase::Terminal);
    assert_eq!(phase_step(Phase::AwaitRequest, Event::RequestRejected), Phase::Terminal);
    assert_eq!(phase_step(Phase::Dialing, Event::DialFailed), Phase::Terminal);
}
