//! The SOCKS5 message types and their wire encodings.
//!
//! All integers on the wire are big-endian. Every message starts with the
//! protocol version byte 0x05. The spec-level encoders below are the single
//! source of truth for the wire format; the executable `as_bytes` methods are
//! proved to produce exactly those byte sequences, and the decoders in
//! `codec` are proved to invert them.

use vstd::prelude::*;

use crate::addr::{COLON, DOT};

verus! {

/// The SOCKS protocol version byte that opens every message.
pub const SOCKS_VERSION: u8 = 0x05;

/// The value required in every reserved wire position.
pub const RESERVED: u8 = 0x00;

/// An authentication method code from the client's greeting.
///
/// Unknown codes are kept as `Other` rather than rejected, so a method list
/// that mentions future codes still decodes and the selection policy simply
/// never chooses them. `Other` never carries one of the four named codes;
/// decoding maintains that, and encoding relies on it.
#[derive(Debug, Clone, Copy, PartialEq, Eq, Structural)]
pub enum AuthMethod {
    NoAuth,
    GssApi,
    UserPass,
    NoneAcceptable,
    Other(u8),
}

/// The wire code of an authentication method.
pub open spec fn spec_method_byte(m: AuthMethod) -> u8 {
    match m {
        AuthMethod::NoAuth => 0x00,
        AuthMethod::GssApi => 0x01,
        AuthMethod::UserPass => 0x02,
        AuthMethod::NoneAcceptable => 0xff,
        AuthMethod::Other(b) => b,
    }
}

/// The authentication method denoted by a wire code.
pub open spec fn spec_method_of_byte(b: u8) -> AuthMethod {
    if b == 0x00 {
        AuthMethod::NoAuth
    } else if b == 0x01 {
        AuthMethod::GssApi
    } else if b == 0x02 {
        AuthMethod::UserPass
    } else if b == 0xff {
        AuthMethod::NoneAcceptable
    } else {
        AuthMethod::Other(b)
    }
}

/// An `AuthMethod` is canonical when `Other` does not shadow a named code.
pub open spec fn method_wf(m: AuthMethod) -> bool {
    match m {
        AuthMethod::Other(b) => b != 0x00 && b != 0x01 && b != 0x02 && b != 0xff,
        _ => true,
    }
}

impl AuthMethod {
    /// The wire code of this method.
    pub fn to_byte(&self) -> (r: u8)
        ensures
            r == spec_method_byte(*self),
    {
        match self {
            AuthMethod::NoAuth => 0x00,
            AuthMethod::GssApi => 0x01,
            AuthMethod::UserPass => 0x02,
            AuthMethod::NoneAcceptable => 0xff,
            AuthMethod::Other(b) => *b,
        }
    }

    /// The method denoted by a wire code; always canonical.
    pub fn from_byte(b: u8) -> (m: AuthMethod)
        ensures
            m == spec_method_of_byte(b),
            method_wf(m),
    {
        if b == 0x00 {
            AuthMethod::NoAuth
        } else if b == 0x01 {
            AuthMethod::GssApi
        } else if b == 0x02 {
            AuthMethod::UserPass
        } else if b == 0xff {
            AuthMethod::NoneAcceptable
        } else {
            AuthMethod::Other(b)
        }
    }
}

/// Encoding and decoding of method codes invert each other: a wire byte
/// survives the round trip unchanged, and so does every canonical method.
pub proof fn lemma_method_byte_round_trip()
    ensures
        forall|b: u8| spec_method_byte(spec_method_of_byte(b)) == b,
        forall|m: AuthMethod| method_wf(m) ==> spec_method_of_byte(spec_method_byte(m)) == m,
{
}

/// The client's opening message: the list of authentication methods it
/// offers, in its order of preference. On the wire: `05 | nmethods | methods`.
/// A greeting is well-formed when it offers between 1 and 255 methods.
#[derive(Debug)]
pub struct ClientGreeting(pub Vec<AuthMethod>);

impl View for ClientGreeting {
    type V = Seq<AuthMethod>;

    open spec fn view(&self) -> Seq<AuthMethod> {
        self.0@
    }
}

/// A greeting is well-formed when the method count fits the one-byte wire
/// field and is at least one, and each method is canonical.
pub open spec fn greeting_wf(methods: Seq<AuthMethod>) -> bool {
    &&& 1 <= methods.len() <= 255
    &&& forall|i: int| 0 <= i < methods.len() ==> method_wf(#[trigger] methods[i])
}

/// The wire encoding of a greeting.
pub open spec fn spec_encode_greeting(methods: Seq<AuthMethod>) -> Seq<u8> {
    seq![SOCKS_VERSION, methods.len() as u8] + methods.map_values(|m: AuthMethod| spec_method_byte(m))
}

impl ClientGreeting {
    /// The wire bytes of this greeting.
    pub fn as_bytes(&self) -> (r: Vec<u8>)
        requires
            greeting_wf(self@),
        ensures
            r@ == spec_encode_greeting(self@),
    {
        let n = self.0.len();
        let mut buf: Vec<u8> = Vec::new();
        buf.push(SOCKS_VERSION);
        buf.push(n as u8);
        let mut i: usize = 0;
        while i < n
            invariant
                i <= n,
                n == self.0@.len(),
                n <= 255,
                buf@ == seq![SOCKS_VERSION, n as u8]
                    + self.0@.take(i as int).map_values(|m: AuthMethod| spec_method_byte(m)),
            decreases n - i,
        {
            buf.push(self.0[i].to_byte());
            proof {
                assert(self.0@.take(i + 1).map_values(|m: AuthMethod| spec_method_byte(m))
                    =~= self.0@.take(i as int).map_values(|m: AuthMethod| spec_method_byte(m))
                        .push(spec_method_byte(self.0@[i as int])));
            }
            i = i + 1;
        }
        proof {
            assert(self.0@.take(n as int) =~= self.0@);
        }
        buf
    }
}

/// A destination or bound address: IPv4 octets, a domain name held as opaque
/// bytes, or IPv6 octets.
///
/// Domain bytes are not required to be UTF-8; they are carried unchanged to
/// the host resolver. On the wire the address is tagged: `01` followed by 4
/// octets, `03` followed by a length byte and that many name bytes, or `04`
/// followed by 16 octets.
#[derive(Debug)]
pub enum Address {
    Ipv4(Vec<u8>),
    DomainName(Vec<u8>),
    Ipv6(Vec<u8>),
}

/// The mathematical shape of an `Address`: the same three variants over byte
/// sequences.
#[verifier::ext_equal]
pub enum AddressModel {
    Ipv4(Seq<u8>),
    DomainName(Seq<u8>),
    Ipv6(Seq<u8>),
}

impl View for Address {
    type V = AddressModel;

    open spec fn view(&self) -> AddressModel {
        match self {
            Address::Ipv4(o) => AddressModel::Ipv4(o@),
            Address::DomainName(d) => AddressModel::DomainName(d@),
            Address::Ipv6(o) => AddressModel::Ipv6(o@),
        }
    }
}

/// An address is well-formed when its payload fits its wire field: exactly 4
/// IPv4 octets, a domain of 1 to 255 bytes, or exactly 16 IPv6 octets.
pub open spec fn addr_wf(a: AddressModel) -> bool {
    match a {
        AddressModel::Ipv4(o) => o.len() == 4,
        AddressModel::DomainName(d) => 1 <= d.len() <= 255,
        AddressModel::Ipv6(o) => o.len() == 16,
    }
}

/// The wire type tag of an IPv4 address.
pub const ATYP_IPV4: u8 = 0x01;

/// The wire type tag of a domain name.
pub const ATYP_DOMAIN: u8 = 0x03;

/// The wire type tag of an IPv6 address.
pub const ATYP_IPV6: u8 = 0x04;

/// The wire encoding of an address: its type tag, then its payload, with a
/// one-byte length prefix for domain names.
pub open spec fn spec_encode_addr(a: AddressModel) -> Seq<u8> {
    match a {
        AddressModel::Ipv4(o) => seq![ATYP_IPV4] + o,
        AddressModel::DomainName(d) => seq![ATYP_DOMAIN, d.len() as u8] + d,
        AddressModel::Ipv6(o) => seq![ATYP_IPV6] + o,
    }
}

/// The ASCII decimal text of `v`, most significant digit first, no
/// leading zeros.
pub open spec fn dec_text(v: int) -> Seq<u8>
    recommends
        0 <= v,
    decreases v,
{
    if v < 10 {
        seq![(0x30 + v) as u8]
    } else {
        dec_text(v / 10) + seq![(0x30 + v % 10) as u8]
    }
}

/// The ASCII character of one hexadecimal digit, lowercase.
pub open spec fn hex_text_digit(d: int) -> u8 {
    if d < 10 {
        (0x30 + d) as u8
    } else {
        (0x57 + d) as u8
    }
}

/// The ASCII hexadecimal text of `v`, lowercase, most significant digit
/// first, no leading zeros.
pub open spec fn hex_text(v: int) -> Seq<u8>
    recommends
        0 <= v,
    decreases v,
{
    if v < 16 {
        seq![hex_text_digit(v)]
    } else {
        hex_text(v / 16) + seq![hex_text_digit(v % 16)]
    }
}

/// The value of the `i`-th two-byte group of an IPv6 address.
pub open spec fn ipv6_group(b: Seq<u8>, i: int) -> int {
    b[2 * i] * 256 + b[2 * i + 1]
}

/// The text of the first `k` groups of an IPv6 address, colon-separated.
pub open spec fn ipv6_text_upto(b: Seq<u8>, k: int) -> Seq<u8>
    decreases k,
{
    if k <= 0 {
        Seq::empty()
    } else if k == 1 {
        hex_text(ipv6_group(b, 0))
    } else {
        ipv6_text_upto(b, k - 1) + seq![COLON] + hex_text(ipv6_group(b, k - 1))
    }
}

/// The host text of an address: dotted decimal, the domain bytes
/// unchanged, or eight colon-separated hexadecimal groups.
pub open spec fn spec_host_text(a: AddressModel) -> Seq<u8> {
    match a {
        AddressModel::Ipv4(o) => dec_text(o[0] as int) + seq![DOT] + dec_text(o[1] as int)
            + seq![DOT] + dec_text(o[2] as int) + seq![DOT] + dec_text(o[3] as int),
        AddressModel::DomainName(d) => d,
        AddressModel::Ipv6(o) => ipv6_text_upto(o, 8),
    }
}

/// Append the decimal text of `v` to `out`.
fn push_dec_text(out: &mut Vec<u8>, v: u8)
    ensures
        final(out)@ == old(out)@ + dec_text(v as int),
{
    if v >= 100 {
        out.push(0x30 + v / 100);
        out.push(0x30 + (v / 10) % 10);
        out.push(0x30 + v % 10);
        proof {
            reveal_with_fuel(dec_text, 4);
            assert(v as int / 10 / 10 == v as int / 100) by {
                vstd::arithmetic::div_mod::lemma_div_denominator(v as int, 10, 10);
            }
            assert(10 <= v as int / 10 < 100);
            assert(out@ =~= old(out)@ + dec_text(v as int));
        }
    } else if v >= 10 {
        out.push(0x30 + v / 10);
        out.push(0x30 + v % 10);
        proof {
            reveal_with_fuel(dec_text, 3);
            assert(1 <= v as int / 10 < 10);
            assert(out@ =~= old(out)@ + dec_text(v as int));
        }
    } else {
        out.push(0x30 + v);
        proof {
            reveal_with_fuel(dec_text, 2);
            assert(out@ =~= old(out)@ + dec_text(v as int));
        }
    }
}

/// Append the hexadecimal text of `v` to `out`.
fn push_hex_text(out: &mut Vec<u8>, v: u16)
    ensures
        final(out)@ == old(out)@ + hex_text(v as int),
{
    proof {
        reveal_with_fuel(hex_text, 5);
        vstd::arithmetic::div_mod::lemma_div_denominator(v as int, 16, 16);
        vstd::arithmetic::div_mod::lemma_div_denominator(v as int, 256, 16);
        vstd::arithmetic::div_mod::lemma_div_denominator(v as int / 16, 16, 16);
    }
    if v >= 0x1000 {
        out.push(hex_digit_char(((v / 0x1000) % 16) as u8));
        out.push(hex_digit_char(((v / 0x100) % 16) as u8));
        out.push(hex_digit_char(((v / 0x10) % 16) as u8));
        out.push(hex_digit_char((v % 16) as u8));
        proof {
            assert(out@ =~= old(out)@ + hex_text(v as int));
        }
    } else if v >= 0x100 {
        out.push(hex_digit_char((v / 0x100) as u8));
        out.push(hex_digit_char(((v / 0x10) % 16) as u8));
        out.push(hex_digit_char((v % 16) as u8));
        proof {
            assert(out@ =~= old(out)@ + hex_text(v as int));
        }
    } else if v >= 0x10 {
        out.push(hex_digit_char((v / 0x10) as u8));
        out.push(hex_digit_char((v % 16) as u8));
        proof {
            assert(out@ =~= old(out)@ + hex_text(v as int));
        }
    } else {
        out.push(hex_digit_char(v as u8));
        proof {
            assert(out@ =~= old(out)@ + hex_text(v as int));
        }
    }
}

/// The ASCII character of one hexadecimal digit, lowercase.
fn hex_digit_char(d: u8) -> (r: u8)
    requires
        d < 16,
    ensures
        r == hex_text_digit(d as int),
{
    if d < 10 {
        0x30 + d
    } else {
        0x57 + d
    }
}

impl Address {
    /// The wire bytes of this address.
    pub fn as_bytes(&self) -> (r: Vec<u8>)
        requires
            addr_wf(self@),
        ensures
            r@ == spec_encode_addr(self@),
    {
        let mut buf: Vec<u8> = Vec::new();
        match self {
            Address::Ipv4(o) => {
                buf.push(ATYP_IPV4);
                buf.extend_from_slice(o.as_slice());
                proof {
                    assert(buf@ =~= spec_encode_addr(self@));
                }
            },
            Address::DomainName(d) => {
                buf.push(ATYP_DOMAIN);
                buf.push(d.len() as u8);
                buf.extend_from_slice(d.as_slice());
                proof {
                    assert(buf@ =~= spec_encode_addr(self@));
                }
            },
            Address::Ipv6(o) => {
                buf.push(ATYP_IPV6);
                buf.extend_from_slice(o.as_slice());
                proof {
                    assert(buf@ =~= spec_encode_addr(self@));
                }
            },
        }
        buf
    }

    /// The host text of this address, as ASCII bytes: the dotted decimal
    /// quad, the domain bytes unchanged, or the eight colon-separated
    /// lowercase hexadecimal groups (never compressed with `::`). This is
    /// what a dialer resolves, with the port appended.
    pub fn host_text(&self) -> (r: Vec<u8>)
        requires
            addr_wf(self@),
        ensures
            r@ == spec_host_text(self@),
    {
        let mut out: Vec<u8> = Vec::new();
        match self {
            Address::Ipv4(o) => {
                push_dec_text(&mut out, o[0]);
                out.push(DOT);
                push_dec_text(&mut out, o[1]);
                out.push(DOT);
                push_dec_text(&mut out, o[2]);
                out.push(DOT);
                push_dec_text(&mut out, o[3]);
                proof {
                    assert(out@ =~= spec_host_text(self@));
                }
            },
            Address::DomainName(d) => {
                out.extend_from_slice(d.as_slice());
                proof {
                    assert(out@ =~= spec_host_text(self@));
                }
            },
            Address::Ipv6(o) => {
                let mut i: usize = 0;
                while i < 8
                    invariant
                        i <= 8,
                        o@.len() == 16,
                        out@ == ipv6_text_upto(o@, i as int),
                    decreases 8 - i,
                {
                    if i > 0 {
                        out.push(COLON);
                    }
                    let group: u16 = (o[2 * i] as u16) * 256 + (o[2 * i + 1] as u16);
                    push_hex_text(&mut out, group);
                    proof {
                        assert(group == ipv6_group(o@, i as int));
                        assert(out@ =~= ipv6_text_upto(o@, i + 1));
                    }
                    i = i + 1;
                }
            },
        }
        out
    }

    /// The all-zero IPv4 address, used as the sentinel bound address in
    /// server replies.
    pub fn unspecified() -> (r: Address)
        ensures
            r@ == AddressModel::Ipv4(seq![0u8, 0u8, 0u8, 0u8]),
            addr_wf(r@),
    {
        let mut o: Vec<u8> = Vec::new();
        o.push(0);
        o.push(0);
        o.push(0);
        o.push(0);
        proof {
            assert(o@ =~= seq![0u8, 0u8, 0u8, 0u8]);
        }
        Address::Ipv4(o)
    }
}

/// The server's answer to the greeting: the method it selects, where
/// `NoneAcceptable` (0xff) means negotiation failed and the connection is to
/// be closed. On the wire: `05 | method`.
#[derive(Debug)]
pub struct ServerAuthChoice(pub AuthMethod);

impl View for ServerAuthChoice {
    type V = AuthMethod;

    open spec fn view(&self) -> AuthMethod {
        self.0
    }
}

/// The wire encoding of an authentication choice.
pub open spec fn spec_encode_choice(m: AuthMethod) -> Seq<u8> {
    seq![SOCKS_VERSION, spec_method_byte(m)]
}

impl ServerAuthChoice {
    /// The wire bytes of this choice.
    pub fn as_bytes(&self) -> (r: Vec<u8>)
        ensures
            r@ == spec_encode_choice(self@),
    {
        let mut buf: Vec<u8> = Vec::new();
        buf.push(SOCKS_VERSION);
        buf.push(self.0.to_byte());
        proof {
            assert(buf@ =~= spec_encode_choice(self@));
        }
        buf
    }
}

/// The command of a client request. Only `EstablishConnection` is served;
/// the other two are answered with `CommandNotSupported`.
#[derive(Debug, Clone, Copy, PartialEq, Eq, Structural)]
pub enum ClientCommand {
    EstablishConnection,
    EstablishPortBinding,
    AssociateUdpPort,
}

/// The wire code of a command.
pub open spec fn spec_command_byte(c: ClientCommand) -> u8 {
    match c {
        ClientCommand::EstablishConnection => 0x01,
        ClientCommand::EstablishPortBinding => 0x02,
        ClientCommand::AssociateUdpPort => 0x03,
    }
}

/// The command denoted by a wire code, if any: the codes are 0x01 to 0x03.
pub open spec fn spec_command_of_byte(b: u8) -> Option<ClientCommand> {
    if b == 0x01 {
        Some(ClientCommand::EstablishConnection)
    } else if b == 0x02 {
        Some(ClientCommand::EstablishPortBinding)
    } else if b == 0x03 {
        Some(ClientCommand::AssociateUdpPort)
    } else {
        None
    }
}

impl ClientCommand {
    /// The wire code of this command.
    pub fn to_byte(&self) -> (r: u8)
        ensures
            r == spec_command_byte(*self),
    {
        match self {
            ClientCommand::EstablishConnection => 0x01,
            ClientCommand::EstablishPortBinding => 0x02,
            ClientCommand::AssociateUdpPort => 0x03,
        }
    }

    /// The command denoted by a wire code, or `None` for any other byte.
    pub fn from_byte(b: u8) -> (r: Option<ClientCommand>)
        ensures
            r == spec_command_of_byte(b),
    {
        if b == 0x01 {
            Some(ClientCommand::EstablishConnection)
        } else if b == 0x02 {
            Some(ClientCommand::EstablishPortBinding)
        } else if b == 0x03 {
            Some(ClientCommand::AssociateUdpPort)
        } else {
            None
        }
    }
}

/// Command codes survive the round trip through their wire byte.
pub proof fn lemma_command_byte_round_trip()
    ensures
        forall|c: ClientCommand| spec_command_of_byte(spec_command_byte(c)) == Some(c),
        forall|b: u8| #[trigger] spec_command_of_byte(b) is Some
            ==> spec_command_byte(spec_command_of_byte(b)->Some_0) == b,
{
}

/// The status byte of a server reply, exhaustive over the wire codes 0x00 to
/// 0x08.
#[derive(Debug, Clone, Copy, PartialEq, Eq, Structural)]
pub enum ServerStatus {
    RequestGranted,
    GeneralFailure,
    ConnectionNotAllowedByRuleset,
    NetworkUnreachable,
    HostUnreachable,
    ConnectionRefusedByDestinationHost,
    TtlExpired,
    CommandNotSupported,
    AddressTypeNotSupported,
}

/// The wire code of a status.
pub open spec fn spec_status_byte(s: ServerStatus) -> u8 {
    match s {
        ServerStatus::RequestGranted => 0x00,
        ServerStatus::GeneralFailure => 0x01,
        ServerStatus::ConnectionNotAllowedByRuleset => 0x02,
        ServerStatus::NetworkUnreachable => 0x03,
        ServerStatus::HostUnreachable => 0x04,
        ServerStatus::ConnectionRefusedByDestinationHost => 0x05,
        ServerStatus::TtlExpired => 0x06,
        ServerStatus::CommandNotSupported => 0x07,
        ServerStatus::AddressTypeNotSupported => 0x08,
    }
}

/// The status denoted by a wire code, if any: the codes are 0x00 to 0x08.
pub open spec fn spec_status_of_byte(b: u8) -> Option<ServerStatus> {
    if b == 0x00 {
        Some(ServerStatus::RequestGranted)
    } else if b == 0x01 {
        Some(ServerStatus::GeneralFailure)
    } else if b == 0x02 {
        Some(ServerStatus::ConnectionNotAllowedByRuleset)
    } else if b == 0x03 {
        Some(ServerStatus::NetworkUnreachable)
    } else if b == 0x04 {
        Some(ServerStatus::HostUnreachable)
    } else if b == 0x05 {
        Some(ServerStatus::ConnectionRefusedByDestinationHost)
    } else if b == 0x06 {
        Some(ServerStatus::TtlExpired)
    } else if b == 0x07 {
        Some(ServerStatus::CommandNotSupported)
    } else if b == 0x08 {
        Some(ServerStatus::AddressTypeNotSupported)
    } else {
        None
    }
}

impl ServerStatus {
    /// The wire code of this status.
    pub fn to_byte(&self) -> (r: u8)
        ensures
            r == spec_status_byte(*self),
    {
        match self {
            ServerStatus::RequestGranted => 0x00,
            ServerStatus::GeneralFailure => 0x01,
            ServerStatus::ConnectionNotAllowedByRuleset => 0x02,
            ServerStatus::NetworkUnreachable => 0x03,
            ServerStatus::HostUnreachable => 0x04,
            ServerStatus::ConnectionRefusedByDestinationHost => 0x05,
            ServerStatus::TtlExpired => 0x06,
            ServerStatus::CommandNotSupported => 0x07,
            ServerStatus::AddressTypeNotSupported => 0x08,
        }
    }

    /// The status denoted by a wire code, or `None` for any other byte.
    pub fn from_byte(b: u8) -> (r: Option<ServerStatus>)
        ensures
            r == spec_status_of_byte(b),
    {
        if b == 0x00 {
            Some(ServerStatus::RequestGranted)
        } else if b == 0x01 {
            Some(ServerStatus::GeneralFailure)
        } else if b == 0x02 {
            Some(ServerStatus::ConnectionNotAllowedByRuleset)
        } else if b == 0x03 {
            Some(ServerStatus::NetworkUnreachable)
        } else if b == 0x04 {
            Some(ServerStatus::HostUnreachable)
        } else if b == 0x05 {
            Some(ServerStatus::ConnectionRefusedByDestinationHost)
        } else if b == 0x06 {
            Some(ServerStatus::TtlExpired)
        } else if b == 0x07 {
            Some(ServerStatus::CommandNotSupported)
        } else if b == 0x08 {
            Some(ServerStatus::AddressTypeNotSupported)
        } else {
            None
        }
    }
}

/// Status codes survive the round trip through their wire byte.
pub proof fn lemma_status_byte_round_trip()
    ensures
        forall|s: ServerStatus| spec_status_of_byte(spec_status_byte(s)) == Some(s),
        forall|b: u8| #[trigger] spec_status_of_byte(b) is Some
            ==> spec_status_byte(spec_status_of_byte(b)->Some_0) == b,
{
}

/// The big-endian wire encoding of a port number.
pub open spec fn spec_encode_port(p: u16) -> Seq<u8> {
    seq![(p / 256) as u8, (p % 256) as u8]
}

/// The port number read back from its two big-endian wire bytes.
pub open spec fn spec_port_of_bytes(hi: u8, lo: u8) -> u16 {
    (hi * 256 + lo) as u16
}

/// A port survives the round trip through its two wire bytes.
pub proof fn lemma_port_round_trip()
    ensures
        forall|p: u16| spec_port_of_bytes(spec_encode_port(p)[0], spec_encode_port(p)[1]) == p,
{
}

/// The two big-endian wire bytes of a port number.
pub fn port_bytes(p: u16) -> (r: (u8, u8))
    ensures
        seq![r.0, r.1] == spec_encode_port(p),
{
    ((p / 256) as u8, (p % 256) as u8)
}

/// The client's request: a command, the destination address, and the
/// destination port. On the wire: `05 | cmd | 00 | address | port`.
#[derive(Debug)]
pub struct ClientConnectionRequest {
    pub cmd: ClientCommand,
    pub dest_addr: Address,
    pub dest_port: u16,
}

/// The mathematical shape of a request.
#[verifier::ext_equal]
pub struct RequestModel {
    pub cmd: ClientCommand,
    pub dest_addr: AddressModel,
    pub dest_port: u16,
}

impl View for ClientConnectionRequest {
    type V = RequestModel;

    open spec fn view(&self) -> RequestModel {
        RequestModel { cmd: self.cmd, dest_addr: self.dest_addr@, dest_port: self.dest_port }
    }
}

/// A request is well-formed when its address is.
pub open spec fn request_wf(r: RequestModel) -> bool {
    addr_wf(r.dest_addr)
}

/// The wire encoding of a request.
pub open spec fn spec_encode_request(r: RequestModel) -> Seq<u8> {
    seq![SOCKS_VERSION, spec_command_byte(r.cmd), RESERVED]
        + spec_encode_addr(r.dest_addr)
        + spec_encode_port(r.dest_port)
}

impl ClientConnectionRequest {
    /// The wire bytes of this request.
    pub fn as_bytes(&self) -> (r: Vec<u8>)
        requires
            request_wf(self@),
        ensures
            r@ == spec_encode_request(self@),
    {
        let mut buf: Vec<u8> = Vec::new();
        buf.push(SOCKS_VERSION);
        buf.push(self.cmd.to_byte());
        buf.push(RESERVED);
        let addr = self.dest_addr.as_bytes();
        buf.extend_from_slice(addr.as_slice());
        let (hi, lo) = port_bytes(self.dest_port);
        buf.push(hi);
        buf.push(lo);
        proof {
            assert(buf@ =~= spec_encode_request(self@));
        }
        buf
    }
}

/// The server's reply: a status and the bound address and port. On the wire:
/// `05 | status | 00 | address | port`. On failure the bound address is the
/// sentinel 0.0.0.0:0.
#[derive(Debug)]
pub struct ServerResponse {
    pub status: ServerStatus,
    pub bound_address: Address,
    pub bound_port: u16,
}

/// The mathematical shape of a reply.
#[verifier::ext_equal]
pub struct ResponseModel {
    pub status: ServerStatus,
    pub bound_address: AddressModel,
    pub bound_port: u16,
}

impl View for ServerResponse {
    type V = ResponseModel;

    open spec fn view(&self) -> ResponseModel {
        ResponseModel {
            status: self.status,
            bound_address: self.bound_address@,
            bound_port: self.bound_port,
        }
    }
}

/// A reply is well-formed when its address is.
pub open spec fn response_wf(r: ResponseModel) -> bool {
    addr_wf(r.bound_address)
}

/// The wire encoding of a reply.
pub open spec fn spec_encode_response(r: ResponseModel) -> Seq<u8> {
    seq![SOCKS_VERSION, spec_status_byte(r.status), RESERVED]
        + spec_encode_addr(r.bound_address)
        + spec_encode_port(r.bound_port)
}

/// The model of a reply that carries `status` with the sentinel bound
/// address 0.0.0.0:0.
pub open spec fn sentinel_response(status: ServerStatus) -> ResponseModel {
    ResponseModel {
        status,
        bound_address: AddressModel::Ipv4(seq![0u8, 0u8, 0u8, 0u8]),
        bound_port: 0,
    }
}

impl ServerResponse {
    /// The wire bytes of this reply.
    pub fn as_bytes(&self) -> (r: Vec<u8>)
        requires
            response_wf(self@),
        ensures
            r@ == spec_encode_response(self@),
    {
        let mut buf: Vec<u8> = Vec::new();
        buf.push(SOCKS_VERSION);
        buf.push(self.status.to_byte());
        buf.push(RESERVED);
        let addr = self.bound_address.as_bytes();
        buf.extend_from_slice(addr.as_slice());
        let (hi, lo) = port_bytes(self.bound_port);
        buf.push(hi);
        buf.push(lo);
        proof {
            assert(buf@ =~= spec_encode_response(self@));
        }
        buf
    }

    /// The reply that carries `status` with the sentinel bound address
    /// 0.0.0.0:0.
    pub fn with_sentinel(status: ServerStatus) -> (r: ServerResponse)
        ensures
            r@ == sentinel_response(status),
            response_wf(r@),
    {
        ServerResponse { status, bound_address: Address::unspecified(), bound_port: 0 }
    }
}

} // verus!
