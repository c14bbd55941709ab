//! The server-side session: the policy decisions of one accepted
//! connection, from greeting through reply.
//!
//! A session walks the phases greeting → request → dial → relay → terminal.
//! Everything the server decides along the way — which authentication
//! method to select, how to answer each request, which status a failed dial
//! maps to, and which phase follows which event — is a pure function here,
//! with a contract that pins the answer. The surrounding I/O loop performs
//! the reads, writes, dials and the relay, and feeds the outcomes back in
//! as events.

use vstd::prelude::*;

use crate::proto::{
    sentinel_response, spec_encode_choice, AuthMethod, ClientCommand, ClientConnectionRequest,
    ClientGreeting, ServerAuthChoice, ServerResponse, ServerStatus,
};

verus! {

/// Whether the greeting offers the one method this server implements.
pub open spec fn offers_no_auth(methods: Seq<AuthMethod>) -> bool {
    methods.contains(AuthMethod::NoAuth)
}

/// The method the server selects for a greeting: `NoAuth` when offered,
/// otherwise `NoneAcceptable`, which tells the client negotiation failed.
pub open spec fn spec_choose_auth(methods: Seq<AuthMethod>) -> AuthMethod {
    if offers_no_auth(methods) {
        AuthMethod::NoAuth
    } else {
        AuthMethod::NoneAcceptable
    }
}

/// Select the authentication method for a greeting. The only method served
/// is `NoAuth`; any greeting that offers it is accepted, any other greeting
/// is answered with `NoneAcceptable`.
pub fn choose_auth_method(greeting: &ClientGreeting) -> (r: ServerAuthChoice)
    ensures
        r@ == spec_choose_auth(greeting@),
{
    let n = greeting.0.len();
    let mut i: usize = 0;
    while i < n
        invariant
            i <= n,
            n == greeting.0@.len(),
            forall|j: int| 0 <= j < i ==> greeting.0@[j] != AuthMethod::NoAuth,
        decreases n - i,
    {
        if matches!(greeting.0[i], AuthMethod::NoAuth) {
            return ServerAuthChoice(AuthMethod::NoAuth);
        }
        i = i + 1;
    }
    proof {
        assert(!offers_no_auth(greeting@));
    }
    ServerAuthChoice(AuthMethod::NoneAcceptable)
}

/// The two bytes the server writes when it cannot read a greeting, or when
/// no offered method is acceptable: version, then `NoneAcceptable`.
pub fn negotiation_failure_bytes() -> (r: Vec<u8>)
    ensures
        r@ == spec_encode_choice(AuthMethod::NoneAcceptable),
{
    let choice = ServerAuthChoice(AuthMethod::NoneAcceptable);
    choice.as_bytes()
}

/// Why a dial to the destination failed, as classes of the transport's
/// error kinds. The surrounding I/O loop classifies the OS error; anything
/// outside the four named classes is `Other`.
#[derive(Debug, Clone, Copy, PartialEq, Eq, Structural)]
pub enum DialError {
    ConnectionRefused,
    HostUnreachable,
    NetworkUnreachable,
    TtlExpired,
    Other,
}

/// The reply status a failed dial maps to.
pub open spec fn spec_dial_status(e: DialError) -> ServerStatus {
    match e {
        DialError::ConnectionRefused => ServerStatus::ConnectionRefusedByDestinationHost,
        DialError::HostUnreachable => ServerStatus::HostUnreachable,
        DialError::NetworkUnreachable => ServerStatus::NetworkUnreachable,
        DialError::TtlExpired => ServerStatus::TtlExpired,
        DialError::Other => ServerStatus::GeneralFailure,
    }
}

/// Map a dial failure to the status of the reply that reports it.
pub fn map_dial_error(e: DialError) -> (s: ServerStatus)
    ensures
        s == spec_dial_status(e),
{
    match e {
        DialError::ConnectionRefused => ServerStatus::ConnectionRefusedByDestinationHost,
        DialError::HostUnreachable => ServerStatus::HostUnreachable,
        DialError::NetworkUnreachable => ServerStatus::NetworkUnreachable,
        DialError::TtlExpired => ServerStatus::TtlExpired,
        DialError::Other => ServerStatus::GeneralFailure,
    }
}

/// What the server does with a decoded request.
#[derive(Debug)]
pub enum RequestDisposition {
    /// Dial the destination the request names, then relay.
    Connect(ClientConnectionRequest),
    /// Write this reply and close. Taken for every command other than
    /// `EstablishConnection`: binding and UDP association are not served.
    Reject(ServerResponse),
}

/// Decide what to do with a request: serve a connect, reject anything
/// else with `CommandNotSupported` and the sentinel bound address.
pub fn dispatch_request(request: ClientConnectionRequest) -> (r: RequestDisposition)
    ensures
        request@.cmd == ClientCommand::EstablishConnection ==> (r matches
            RequestDisposition::Connect(q) && q@ == request@),
        request@.cmd != ClientCommand::EstablishConnection ==> (r matches
            RequestDisposition::Reject(resp) && resp@ == sentinel_response(
            ServerStatus::CommandNotSupported,
        )),
{
    if matches!(request.cmd, ClientCommand::EstablishConnection) {
        RequestDisposition::Connect(request)
    } else {
        RequestDisposition::Reject(ServerResponse::with_sentinel(ServerStatus::CommandNotSupported))
    }
}

/// The reply to a request that could not be read: a general failure with
/// the sentinel bound address.
pub fn request_failure_response() -> (r: ServerResponse)
    ensures
        r@ == sentinel_response(ServerStatus::GeneralFailure),
{
    ServerResponse::with_sentinel(ServerStatus::GeneralFailure)
}

/// The reply to a successful dial: request granted, with the sentinel
/// bound address 0.0.0.0:0 (a conformant simplification; the peer's true
/// bound address is not reported).
pub fn success_response() -> (r: ServerResponse)
    ensures
        r@ == sentinel_response(ServerStatus::RequestGranted),
{
    ServerResponse::with_sentinel(ServerStatus::RequestGranted)
}

/// The reply to a failed dial: the mapped status with the sentinel bound
/// address.
pub fn dial_failure_response(e: DialError) -> (r: ServerResponse)
    ensures
        r@ == sentinel_response(spec_dial_status(e)),
{
    ServerResponse::with_sentinel(map_dial_error(e))
}

/// The phase a session is in.
#[derive(Debug, Clone, Copy, PartialEq, Eq, Structural)]
pub enum Phase {
    /// Waiting for the client's greeting.
    AwaitGreeting,
    /// Greeting answered; waiting for the client's request.
    AwaitRequest,
    /// Request accepted; dialing the destination.
    Dialing,
    /// Dial succeeded and the success reply was written; relaying bytes.
    Relaying,
    /// The session is over; nothing further is read or written.
    Terminal,
}

/// What the I/O loop observed while the session was in some phase.
#[derive(Debug, Clone, Copy, PartialEq, Eq, Structural)]
pub enum Event {
    /// A greeting was read and a method other than `NoneAcceptable` chosen.
    GreetingAccepted,
    /// A greeting was read but no offered method is acceptable.
    GreetingRejected,
    /// A connect request was read.
    RequestConnect,
    /// A request was read but rejected (an unsupported command).
    RequestRejected,
    /// Reading or decoding the expected message failed.
    ReadFailed,
    /// The dial to the destination succeeded.
    DialSucceeded,
    /// The dial to the destination failed.
    DialFailed,
    /// Both relay directions are done.
    RelayEnded,
    /// The transport failed: a socket was closed or errored.
    IoError,
}

/// The phase that follows `p` on event `e`. Every failure leads to
/// `Terminal`, and `Terminal` is absorbing.
pub open spec fn spec_phase_step(p: Phase, e: Event) -> Phase {
    match (p, e) {
        (Phase::AwaitGreeting, Event::GreetingAccepted) => Phase::AwaitRequest,
        (Phase::AwaitRequest, Event::RequestConnect) => Phase::Dialing,
        (Phase::Dialing, Event::DialSucceeded) => Phase::Relaying,
        _ => Phase::Terminal,
    }
}

/// Advance the session by one observed event.
pub fn phase_step(p: Phase, e: Event) -> (n: Phase)
    ensures
        n == spec_phase_step(p, e),
{
    match (p, e) {
        (Phase::AwaitGreeting, Event::GreetingAccepted) => Phase::AwaitRequest,
        (Phase::AwaitRequest, Event::RequestConnect) => Phase::Dialing,
        (Phase::Dialing, Event::DialSucceeded) => Phase::Relaying,
        _ => Phase::Terminal,
    }
}

/// Closing either endpoint cancels the session: the pending read or write
/// on the closed socket fails, the loop reports `IoError`, and from any
/// phase that event ends the session. `Terminal` is absorbing, so once
/// ended a session performs no further transition.
pub proof fn lemma_io_error_terminates()
    ensures
        forall|p: Phase| spec_phase_step(p, Event::IoError) == Phase::Terminal,
        forall|e: Event| spec_phase_step(Phase::Terminal, e) == Phase::Terminal,
{
}

/// A session makes progress towards `Terminal`: each phase is reached from
/// exactly one earlier phase by exactly one event, so the handshake is
/// strictly sequential, and every other event ends the session.
pub proof fn lemma_session_sequential()
    ensures
        forall|p: Phase, e: Event| spec_phase_step(p, e) == Phase::AwaitRequest ==> p
            == Phase::AwaitGreeting && e == Event::GreetingAccepted,
        forall|p: Phase, e: Event| spec_phase_step(p, e) == Phase::Dialing ==> p
            == Phase::AwaitRequest && e == Event::RequestConnect,
        forall|p: Phase, e: Event| spec_phase_step(p, e) == Phase::Relaying ==> p
            == Phase::Dialing && e == Event::DialSucceeded,
        forall|p: Phase, e: Event| spec_phase_step(p, e) != Phase::AwaitGreeting,
{
}

} // verus!
