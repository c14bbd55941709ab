//! The client side of the handshake: what to send, and what to make of
//! what came back.
//!
//! The driver that owns the socket sends the greeting, reads the server's
//! choice, sends the connect request, and reads the reply; every decision
//! in between is a function here. The driver fails with
//! `AuthNegotiationFailed` when the server picks `NoneAcceptable` or a
//! method that was never offered, with `UnsupportedAuthMethod` when it
//! picks an offered method other than `NoAuth`, and with `ProxyRejected`
//! carrying the status when the reply is not `RequestGranted`.

use vstd::prelude::*;

use crate::addr::{spec_parse_ipv4, spec_parse_ipv6};
use crate::proto::{
    addr_wf, Address, AddressModel, AuthMethod, ClientCommand, ClientConnectionRequest,
    RequestModel, ServerAuthChoice, ServerResponse, ServerStatus,
};

verus! {

/// What the client asks the driver for: the gateway to connect to, the
/// destination host and port to reach through it, and the authentication
/// methods it is willing to use, in order of preference.
pub struct ConnectRequest {
    /// The SOCKS5 gateway, as `host:port`; the driver dials it as given.
    pub server_addr: String,
    /// The destination host: an IPv4 or IPv6 literal, or a name for the
    /// server to resolve.
    pub dest_addr: String,
    /// The destination port.
    pub dest_port: u16,
    /// The methods offered in the greeting.
    pub supported_auth_methods: Vec<AuthMethod>,
}

/// Why the client handshake failed.
#[derive(Debug, Clone, Copy, PartialEq, Eq, Structural)]
pub enum HandshakeError {
    /// The server chose `NoneAcceptable`, or a method never offered.
    AuthNegotiationFailed,
    /// The server chose an offered method this client cannot continue
    /// with: only `NoAuth` is implemented.
    UnsupportedAuthMethod,
    /// The destination host is no address literal and does not fit a
    /// domain name of 1 to 255 bytes.
    InvalidDestination,
    /// The server's reply was not `RequestGranted`; the status says why.
    ProxyRejected(ServerStatus),
}

/// What the client makes of the server's chosen method, given what it
/// offered.
pub open spec fn spec_check_auth_choice(m: AuthMethod, offered: Seq<AuthMethod>) -> Result<
    (),
    HandshakeError,
> {
    if m == AuthMethod::NoneAcceptable {
        Err(HandshakeError::AuthNegotiationFailed)
    } else if !offered.contains(m) {
        Err(HandshakeError::AuthNegotiationFailed)
    } else if m != AuthMethod::NoAuth {
        Err(HandshakeError::UnsupportedAuthMethod)
    } else {
        Ok(())
    }
}

/// Judge the server's authentication choice: proceed only on `NoAuth`,
/// and only when it was offered.
pub fn check_auth_choice(choice: &ServerAuthChoice, offered: &Vec<AuthMethod>) -> (r: Result<
    (),
    HandshakeError,
>)
    ensures
        r == spec_check_auth_choice(choice@, offered@),
{
    if matches!(choice.0, AuthMethod::NoneAcceptable) {
        return Err(HandshakeError::AuthNegotiationFailed);
    }
    let n = offered.len();
    let mut i: usize = 0;
    while i < n
        invariant
            i <= n,
            n == offered@.len(),
            choice@ != AuthMethod::NoneAcceptable,
            forall|l: int| 0 <= l < i ==> offered@[l] != choice@,
        decreases n - i,
    {
        if offered[i] == choice.0 {
            proof {
                assert(offered@.contains(choice@)) by {
                    assert(offered@[i as int] == choice@);
                }
            }
            if matches!(choice.0, AuthMethod::NoAuth) {
                return Ok(());
            }
            return Err(HandshakeError::UnsupportedAuthMethod);
        }
        i = i + 1;
    }
    proof {
        assert(!offered@.contains(choice@));
    }
    Err(HandshakeError::AuthNegotiationFailed)
}

/// What a destination host string denotes: an IPv4 literal's octets, an
/// IPv6 literal's bytes, or — when it is neither and its length fits the
/// wire — an opaque domain name. Nothing, when it cannot be carried.
pub open spec fn spec_classify(s: Seq<u8>) -> Option<AddressModel> {
    if spec_parse_ipv4(s) is Some {
        Some(AddressModel::Ipv4(spec_parse_ipv4(s)->Some_0))
    } else if spec_parse_ipv6(s) is Some {
        Some(AddressModel::Ipv6(spec_parse_ipv6(s)->Some_0))
    } else if 1 <= s.len() <= 255 {
        Some(AddressModel::DomainName(s))
    } else {
        None
    }
}

/// Classify the destination host. The client resolves nothing: a literal
/// becomes the corresponding address, anything else is passed to the
/// server as a domain name.
pub fn classify_dest_addr(dest: &[u8]) -> (r: Result<Address, HandshakeError>)
    ensures
        match r {
            Ok(a) => spec_classify(dest@) == Some(a@) && addr_wf(a@),
            Err(e) => spec_classify(dest@) is None && e == HandshakeError::InvalidDestination,
        },
{
    if let Some(octets) = crate::addr::parse_ipv4_literal(dest) {
        return Ok(Address::Ipv4(octets));
    }
    if let Some(bytes) = crate::addr::parse_ipv6_literal(dest) {
        return Ok(Address::Ipv6(bytes));
    }
    let len = dest.len();
    if 1 <= len && len <= 255 {
        Ok(Address::DomainName(vstd::slice::slice_to_vec(dest)))
    } else {
        Err(HandshakeError::InvalidDestination)
    }
}

/// The connect request for a classified destination.
pub fn connect_request(dest_addr: Address, dest_port: u16) -> (r: ClientConnectionRequest)
    ensures
        r@ == (RequestModel {
            cmd: ClientCommand::EstablishConnection,
            dest_addr: dest_addr@,
            dest_port,
        }),
{
    ClientConnectionRequest { cmd: ClientCommand::EstablishConnection, dest_addr, dest_port }
}

/// What the client makes of the server's reply.
pub open spec fn spec_check_reply(status: ServerStatus) -> Result<(), HandshakeError> {
    if status == ServerStatus::RequestGranted {
        Ok(())
    } else {
        Err(HandshakeError::ProxyRejected(status))
    }
}

/// Judge the server's reply: the tunnel is usable exactly when the status
/// is `RequestGranted`; any other status is surfaced, preserved, as
/// `ProxyRejected`.
pub fn check_server_reply(reply: &ServerResponse) -> (r: Result<(), HandshakeError>)
    ensures
        r == spec_check_reply(reply@.status),
{
    if matches!(reply.status, ServerStatus::RequestGranted) {
        Ok(())
    } else {
        Err(HandshakeError::ProxyRejected(reply.status))
    }
}

} // verus!
