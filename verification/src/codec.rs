//! Decoders for the five SOCKS5 messages, over byte slices.
//!
//! Each decoder is total: on every input it either returns the decoded
//! message together with the number of bytes it consumed, or says exactly
//! why it cannot. `ShortRead` means the input is too short but what is there
//! is consistent so far; more bytes may complete the message. The spec-level
//! decoders below define the behaviour; each executable decoder is proved to
//! agree with its spec, and the lemmas at the end state the round-trip laws
//! between the decoders and the encoders of `proto`.

use vstd::prelude::*;

use crate::proto::{
    spec_command_byte, spec_command_of_byte, spec_encode_addr, spec_encode_choice,
    spec_encode_greeting, spec_encode_port, spec_encode_request, spec_encode_response,
    spec_method_byte, spec_method_of_byte, spec_port_of_bytes, spec_status_byte,
    spec_status_of_byte, addr_wf, greeting_wf, method_wf, request_wf, response_wf, Address,
    AddressModel, AuthMethod, ClientCommand, ClientConnectionRequest, ClientGreeting,
    RequestModel, ResponseModel, ServerAuthChoice, ServerResponse, ServerStatus, ATYP_DOMAIN, ATYP_IPV4,
    ATYP_IPV6, RESERVED, SOCKS_VERSION,
};

verus! {

/// The particular rule a malformed message broke.
#[derive(Debug, Clone, Copy, PartialEq, Eq, Structural)]
pub enum Violation {
    /// The version byte is not 0x05.
    BadVersion,
    /// A greeting announced zero methods.
    BadMethodCount,
    /// The reserved byte is not 0x00.
    BadReserved,
    /// The command byte is none of 0x01, 0x02, 0x03.
    BadCommand,
    /// The status byte is not in 0x00 to 0x08.
    BadStatus,
    /// A domain name announced zero bytes.
    EmptyDomain,
}

/// Why a decoder could not return a message.
#[derive(Debug, Clone, Copy, PartialEq, Eq, Structural)]
pub enum DecodeError {
    /// The input ends before the message does; the bytes seen so far are
    /// consistent with a well-formed message.
    ShortRead,
    /// The input breaks the protocol; no extension of it decodes.
    ProtocolViolation(Violation),
    /// The address type tag is none of 0x01, 0x03, 0x04.
    UnsupportedAddressType,
}

/// What decoding a client greeting from `b` yields: the method list and the
/// bytes consumed, or the error.
pub open spec fn spec_decode_greeting(b: Seq<u8>) -> Result<(Seq<AuthMethod>, int), DecodeError> {
    if b.len() == 0 {
        Err(DecodeError::ShortRead)
    } else if b[0] != SOCKS_VERSION {
        Err(DecodeError::ProtocolViolation(Violation::BadVersion))
    } else if b.len() < 2 {
        Err(DecodeError::ShortRead)
    } else if b[1] == 0 {
        Err(DecodeError::ProtocolViolation(Violation::BadMethodCount))
    } else if b.len() < 2 + b[1] {
        Err(DecodeError::ShortRead)
    } else {
        Ok((b.subrange(2, 2 + b[1]).map_values(|x: u8| spec_method_of_byte(x)), 2 + b[1]))
    }
}

/// What decoding a server authentication choice from `b` yields.
pub open spec fn spec_decode_choice(b: Seq<u8>) -> Result<(AuthMethod, int), DecodeError> {
    if b.len() == 0 {
        Err(DecodeError::ShortRead)
    } else if b[0] != SOCKS_VERSION {
        Err(DecodeError::ProtocolViolation(Violation::BadVersion))
    } else if b.len() < 2 {
        Err(DecodeError::ShortRead)
    } else {
        Ok((spec_method_of_byte(b[1]), 2))
    }
}

/// What decoding an address from `b` yields.
pub open spec fn spec_decode_addr(b: Seq<u8>) -> Result<(AddressModel, int), DecodeError> {
    if b.len() == 0 {
        Err(DecodeError::ShortRead)
    } else if b[0] == ATYP_IPV4 {
        if b.len() < 5 {
            Err(DecodeError::ShortRead)
        } else {
            Ok((AddressModel::Ipv4(b.subrange(1, 5)), 5))
        }
    } else if b[0] == ATYP_DOMAIN {
        if b.len() < 2 {
            Err(DecodeError::ShortRead)
        } else if b[1] == 0 {
            Err(DecodeError::ProtocolViolation(Violation::EmptyDomain))
        } else if b.len() < 2 + b[1] {
            Err(DecodeError::ShortRead)
        } else {
            Ok((AddressModel::DomainName(b.subrange(2, 2 + b[1])), 2 + b[1]))
        }
    } else if b[0] == ATYP_IPV6 {
        if b.len() < 17 {
            Err(DecodeError::ShortRead)
        } else {
            Ok((AddressModel::Ipv6(b.subrange(1, 17)), 17))
        }
    } else {
        Err(DecodeError::UnsupportedAddressType)
    }
}

/// What decoding a client request from `b` yields. The reserved byte is
/// checked before the command byte, as the wire order suggests.
pub open spec fn spec_decode_request(b: Seq<u8>) -> Result<(RequestModel, int), DecodeError> {
    if b.len() == 0 {
        Err(DecodeError::ShortRead)
    } else if b[0] != SOCKS_VERSION {
        Err(DecodeError::ProtocolViolation(Violation::BadVersion))
    } else if b.len() < 3 {
        Err(DecodeError::ShortRead)
    } else if b[2] != RESERVED {
        Err(DecodeError::ProtocolViolation(Violation::BadReserved))
    } else if spec_command_of_byte(b[1]) is None {
        Err(DecodeError::ProtocolViolation(Violation::BadCommand))
    } else {
        match spec_decode_addr(b.skip(3)) {
            Err(e) => Err(e),
            Ok((a, an)) => if b.len() < 3 + an + 2 {
                Err(DecodeError::ShortRead)
            } else {
                Ok(
                    (
                        RequestModel {
                            cmd: spec_command_of_byte(b[1])->Some_0,
                            dest_addr: a,
                            dest_port: spec_port_of_bytes(b[3 + an], b[4 + an]),
                        },
                        5 + an,
                    ),
                )
            },
        }
    }
}

/// What decoding a server reply from `b` yields. The status byte is checked
/// before the reserved byte, as the wire order suggests.
pub open spec fn spec_decode_response(b: Seq<u8>) -> Result<(ResponseModel, int), DecodeError> {
    if b.len() == 0 {
        Err(DecodeError::ShortRead)
    } else if b[0] != SOCKS_VERSION {
        Err(DecodeError::ProtocolViolation(Violation::BadVersion))
    } else if b.len() < 3 {
        Err(DecodeError::ShortRead)
    } else if spec_status_of_byte(b[1]) is None {
        Err(DecodeError::ProtocolViolation(Violation::BadStatus))
    } else if b[2] != RESERVED {
        Err(DecodeError::ProtocolViolation(Violation::BadReserved))
    } else {
        match spec_decode_addr(b.skip(3)) {
            Err(e) => Err(e),
            Ok((a, an)) => if b.len() < 3 + an + 2 {
                Err(DecodeError::ShortRead)
            } else {
                Ok(
                    (
                        ResponseModel {
                            status: spec_status_of_byte(b[1])->Some_0,
                            bound_address: a,
                            bound_port: spec_port_of_bytes(b[3 + an], b[4 + an]),
                        },
                        5 + an,
                    ),
                )
            },
        }
    }
}

/// The bytes of `buf` from `start` on, copied out, `count` of them.
fn copy_range(buf: &[u8], start: usize, count: usize) -> (r: Vec<u8>)
    requires
        start + count <= buf@.len(),
    ensures
        r@ == buf@.subrange(start as int, start + count),
{
    let blen = buf.len();
    let mut r: Vec<u8> = Vec::new();
    let mut i: usize = 0;
    while i < count
        invariant
            i <= count,
            start + count <= buf@.len(),
            buf@.len() == blen,
            r@ == buf@.subrange(start as int, start + i),
        decreases count - i,
    {
        r.push(buf[start + i]);
        proof {
            assert(buf@.subrange(start as int, start + i + 1)
                =~= buf@.subrange(start as int, start + i).push(buf@[start + i]));
        }
        i = i + 1;
    }
    r
}

/// Decode a client greeting from the front of `buf`.
pub fn decode_greeting(buf: &[u8]) -> (r: Result<(ClientGreeting, usize), DecodeError>)
    ensures
        match r {
            Ok((g, n)) => spec_decode_greeting(buf@) == Ok::<_, DecodeError>((g@, n as int)),
            Err(e) => spec_decode_greeting(buf@) == Err::<(Seq<AuthMethod>, int), _>(e),
        },
{
    let len = buf.len();
    if len == 0 {
        return Err(DecodeError::ShortRead);
    }
    if buf[0] != SOCKS_VERSION {
        return Err(DecodeError::ProtocolViolation(Violation::BadVersion));
    }
    if len < 2 {
        return Err(DecodeError::ShortRead);
    }
    let nm = buf[1] as usize;
    if nm == 0 {
        return Err(DecodeError::ProtocolViolation(Violation::BadMethodCount));
    }
    if len < 2 + nm {
        return Err(DecodeError::ShortRead);
    }
    let mut methods: Vec<AuthMethod> = Vec::new();
    let mut i: usize = 0;
    while i < nm
        invariant
            i <= nm,
            2 + nm <= buf@.len(),
            buf@.len() == len,
            methods@ == buf@.subrange(2, 2 + i).map_values(|x: u8| spec_method_of_byte(x)),
        decreases nm - i,
    {
        methods.push(AuthMethod::from_byte(buf[2 + i]));
        proof {
            assert(buf@.subrange(2, 2 + i + 1).map_values(|x: u8| spec_method_of_byte(x))
                =~= buf@.subrange(2, 2 + i).map_values(|x: u8| spec_method_of_byte(x))
                    .push(spec_method_of_byte(buf@[2 + i])));
        }
        i = i + 1;
    }
    Ok((ClientGreeting(methods), 2 + nm))
}

/// Decode a server authentication choice from the front of `buf`.
pub fn decode_choice(buf: &[u8]) -> (r: Result<(ServerAuthChoice, usize), DecodeError>)
    ensures
        match r {
            Ok((c, n)) => spec_decode_choice(buf@) == Ok::<_, DecodeError>((c@, n as int)),
            Err(e) => spec_decode_choice(buf@) == Err::<(AuthMethod, int), _>(e),
        },
{
    let len = buf.len();
    if len == 0 {
        return Err(DecodeError::ShortRead);
    }
    if buf[0] != SOCKS_VERSION {
        return Err(DecodeError::ProtocolViolation(Violation::BadVersion));
    }
    if len < 2 {
        return Err(DecodeError::ShortRead);
    }
    Ok((ServerAuthChoice(AuthMethod::from_byte(buf[1])), 2))
}

/// Decode an address from the front of `buf`.
pub fn decode_address(buf: &[u8]) -> (r: Result<(Address, usize), DecodeError>)
    ensures
        match r {
            Ok((a, n)) => spec_decode_addr(buf@) == Ok::<_, DecodeError>((a@, n as int)),
            Err(e) => spec_decode_addr(buf@) == Err::<(AddressModel, int), _>(e),
        },
{
    let len = buf.len();
    if len == 0 {
        return Err(DecodeError::ShortRead);
    }
    if buf[0] == ATYP_IPV4 {
        if len < 5 {
            return Err(DecodeError::ShortRead);
        }
        Ok((Address::Ipv4(copy_range(buf, 1, 4)), 5))
    } else if buf[0] == ATYP_DOMAIN {
        if len < 2 {
            return Err(DecodeError::ShortRead);
        }
        let dn_len = buf[1] as usize;
        if dn_len == 0 {
            return Err(DecodeError::ProtocolViolation(Violation::EmptyDomain));
        }
        if len < 2 + dn_len {
            return Err(DecodeError::ShortRead);
        }
        Ok((Address::DomainName(copy_range(buf, 2, dn_len)), 2 + dn_len))
    } else if buf[0] == ATYP_IPV6 {
        if len < 17 {
            return Err(DecodeError::ShortRead);
        }
        Ok((Address::Ipv6(copy_range(buf, 1, 16)), 17))
    } else {
        Err(DecodeError::UnsupportedAddressType)
    }
}

/// Decode a client request from the front of `buf`.
pub fn decode_request(buf: &[u8]) -> (r: Result<(ClientConnectionRequest, usize), DecodeError>)
    ensures
        match r {
            Ok((m, n)) => spec_decode_request(buf@) == Ok::<_, DecodeError>((m@, n as int)),
            Err(e) => spec_decode_request(buf@) == Err::<(RequestModel, int), _>(e),
        },
{
    let len = buf.len();
    if len == 0 {
        return Err(DecodeError::ShortRead);
    }
    if buf[0] != SOCKS_VERSION {
        return Err(DecodeError::ProtocolViolation(Violation::BadVersion));
    }
    if len < 3 {
        return Err(DecodeError::ShortRead);
    }
    if buf[2] != RESERVED {
        return Err(DecodeError::ProtocolViolation(Violation::BadReserved));
    }
    let cmd = match ClientCommand::from_byte(buf[1]) {
        Some(c) => c,
        None => {
            return Err(DecodeError::ProtocolViolation(Violation::BadCommand));
        },
    };
    let rest = &buf[3..len];
    proof {
        assert(rest@ =~= buf@.skip(3));
    }
    let (dest_addr, an) = match decode_address(rest) {
        Ok(p) => p,
        Err(e) => {
            return Err(e);
        },
    };
    if len < 3 + an + 2 {
        return Err(DecodeError::ShortRead);
    }
    let hi = buf[3 + an];
    let lo = buf[4 + an];
    let dest_port = (hi as u16) * 256 + (lo as u16);
    proof {
        assert(rest@[an as int] == buf@[3 + an]);
        assert(rest@[an + 1] == buf@[4 + an]);
    }
    Ok((ClientConnectionRequest { cmd, dest_addr, dest_port }, 5 + an))
}

/// Decode a server reply from the front of `buf`.
pub fn decode_response(buf: &[u8]) -> (r: Result<(ServerResponse, usize), DecodeError>)
    ensures
        match r {
            Ok((m, n)) => spec_decode_response(buf@) == Ok::<_, DecodeError>((m@, n as int)),
            Err(e) => spec_decode_response(buf@) == Err::<(ResponseModel, int), _>(e),
        },
{
    let len = buf.len();
    if len == 0 {
        return Err(DecodeError::ShortRead);
    }
    if buf[0] != SOCKS_VERSION {
        return Err(DecodeError::ProtocolViolation(Violation::BadVersion));
    }
    if len < 3 {
        return Err(DecodeError::ShortRead);
    }
    let status = match ServerStatus::from_byte(buf[1]) {
        Some(s) => s,
        None => {
            return Err(DecodeError::ProtocolViolation(Violation::BadStatus));
        },
    };
    if buf[2] != RESERVED {
        return Err(DecodeError::ProtocolViolation(Violation::BadReserved));
    }
    let rest = &buf[3..len];
    proof {
        assert(rest@ =~= buf@.skip(3));
    }
    let (bound_address, an) = match decode_address(rest) {
        Ok(p) => p,
        Err(e) => {
            return Err(e);
        },
    };
    if len < 3 + an + 2 {
        return Err(DecodeError::ShortRead);
    }
    let hi = buf[3 + an];
    let lo = buf[4 + an];
    let bound_port = (hi as u16) * 256 + (lo as u16);
    proof {
        assert(rest@[an as int] == buf@[3 + an]);
        assert(rest@[an + 1] == buf@[4 + an]);
    }
    Ok((ServerResponse { status, bound_address, bound_port }, 5 + an))
}

// ------------------------------------------------------------------
// Round-trip laws.
//
// In one direction: whenever a decoder succeeds on a byte sequence, the
// bytes it consumed are exactly the encoding of what it decoded — trailing
// bytes belong to the next message. In the other: the decoders invert the
// encoders on every well-formed message, even with arbitrary bytes
// following.
// ------------------------------------------------------------------

/// Whatever `spec_decode_greeting` accepts, it accepts canonically: the
/// decoded greeting is well-formed and re-encodes to exactly the consumed
/// prefix of the input.
pub proof fn lemma_greeting_decode_prefix(b: Seq<u8>)
    requires
        spec_decode_greeting(b) is Ok,
    ensures
        ({
            let (m, n) = spec_decode_greeting(b)->Ok_0;
            &&& 0 < n <= b.len()
            &&& greeting_wf(m)
            &&& spec_encode_greeting(m) == b.take(n)
        }),
{
    let (m, n) = spec_decode_greeting(b)->Ok_0;
    assert(m.len() == b[1]);
    assert forall|i: int| 0 <= i < m.len() implies method_wf(#[trigger] m[i]) by {
        assert(m[i] == spec_method_of_byte(b.subrange(2, n)[i]));
    }
    let e = spec_encode_greeting(m);
    assert forall|j: int| 0 <= j < e.len() implies e[j] == b.take(n)[j] by {
        if j >= 2 {
            assert(m[j - 2] == spec_method_of_byte(b.subrange(2, n)[j - 2]));
        }
    }
    assert(e =~= b.take(n));
}

/// Whatever `spec_decode_choice` accepts re-encodes to the consumed prefix.
pub proof fn lemma_choice_decode_prefix(b: Seq<u8>)
    requires
        spec_decode_choice(b) is Ok,
    ensures
        ({
            let (m, n) = spec_decode_choice(b)->Ok_0;
            &&& 0 < n <= b.len()
            &&& method_wf(m)
            &&& spec_encode_choice(m) == b.take(n)
        }),
{
    let (m, n) = spec_decode_choice(b)->Ok_0;
    assert(spec_encode_choice(m) =~= b.take(n));
}

/// Whatever `spec_decode_addr` accepts is well-formed and re-encodes to the
/// consumed prefix.
pub proof fn lemma_addr_decode_prefix(b: Seq<u8>)
    requires
        spec_decode_addr(b) is Ok,
    ensures
        ({
            let (a, n) = spec_decode_addr(b)->Ok_0;
            &&& 0 < n <= b.len()
            &&& addr_wf(a)
            &&& spec_encode_addr(a) == b.take(n)
        }),
{
    let (a, n) = spec_decode_addr(b)->Ok_0;
    assert(spec_encode_addr(a) =~= b.take(n));
}

/// Whatever `spec_decode_request` accepts is well-formed and re-encodes to
/// the consumed prefix.
pub proof fn lemma_request_decode_prefix(b: Seq<u8>)
    requires
        spec_decode_request(b) is Ok,
    ensures
        ({
            let (m, n) = spec_decode_request(b)->Ok_0;
            &&& 0 < n <= b.len()
            &&& request_wf(m)
            &&& spec_encode_request(m) == b.take(n)
        }),
{
    let (m, n) = spec_decode_request(b)->Ok_0;
    let (a, an) = spec_decode_addr(b.skip(3))->Ok_0;
    lemma_addr_decode_prefix(b.skip(3));
    let ea = spec_encode_addr(a);
    let p = spec_port_of_bytes(b[3 + an], b[4 + an]);
    assert(p == b[3 + an] * 256 + b[4 + an]);
    assert(p / 256 == b[3 + an] && p % 256 == b[4 + an]);
    let e = spec_encode_request(m);
    assert(e.len() == 3 + an + 2);
    assert forall|j: int| 0 <= j < e.len() implies e[j] == b.take(n)[j] by {
        if 3 <= j < 3 + an {
            assert(ea[j - 3] == b.skip(3).take(an)[j - 3]);
            assert(b.skip(3).take(an)[j - 3] == b[j]);
        }
    }
    assert(e =~= b.take(n));
}

/// Whatever `spec_decode_response` accepts is well-formed and re-encodes to
/// the consumed prefix.
pub proof fn lemma_response_decode_prefix(b: Seq<u8>)
    requires
        spec_decode_response(b) is Ok,
    ensures
        ({
            let (m, n) = spec_decode_response(b)->Ok_0;
            &&& 0 < n <= b.len()
            &&& response_wf(m)
            &&& spec_encode_response(m) == b.take(n)
        }),
{
    let (m, n) = spec_decode_response(b)->Ok_0;
    let (a, an) = spec_decode_addr(b.skip(3))->Ok_0;
    lemma_addr_decode_prefix(b.skip(3));
    let ea = spec_encode_addr(a);
    let p = spec_port_of_bytes(b[3 + an], b[4 + an]);
    assert(p == b[3 + an] * 256 + b[4 + an]);
    assert(p / 256 == b[3 + an] && p % 256 == b[4 + an]);
    let e = spec_encode_response(m);
    assert(e.len() == 3 + an + 2);
    assert forall|j: int| 0 <= j < e.len() implies e[j] == b.take(n)[j] by {
        if 3 <= j < 3 + an {
            assert(ea[j - 3] == b.skip(3).take(an)[j - 3]);
            assert(b.skip(3).take(an)[j - 3] == b[j]);
        }
    }
    assert(e =~= b.take(n));
}

/// A decoded greeting is final: bytes that arrive later cannot change it.
/// Together with the prefix law this is what lets a reader accumulate
/// bytes and retry on `ShortRead`.
pub proof fn lemma_greeting_decode_extends(b: Seq<u8>, more: Seq<u8>)
    requires
        spec_decode_greeting(b) is Ok,
    ensures
        spec_decode_greeting(b + more) == spec_decode_greeting(b),
{
    let c = b + more;
    let n = 2 + b[1];
    assert(c.subrange(2, n) =~= b.subrange(2, n));
}

/// A decoded authentication choice is final under extension.
pub proof fn lemma_choice_decode_extends(b: Seq<u8>, more: Seq<u8>)
    requires
        spec_decode_choice(b) is Ok,
    ensures
        spec_decode_choice(b + more) == spec_decode_choice(b),
{
}

/// A decoded address is final under extension.
pub proof fn lemma_addr_decode_extends(b: Seq<u8>, more: Seq<u8>)
    requires
        spec_decode_addr(b) is Ok,
    ensures
        spec_decode_addr(b + more) == spec_decode_addr(b),
{
    let c = b + more;
    if b[0] == ATYP_IPV4 {
        assert(c.subrange(1, 5) =~= b.subrange(1, 5));
    } else if b[0] == ATYP_DOMAIN {
        assert(c.subrange(2, 2 + b[1]) =~= b.subrange(2, 2 + b[1]));
    } else {
        assert(c.subrange(1, 17) =~= b.subrange(1, 17));
    }
}

/// A decoded request is final under extension.
pub proof fn lemma_request_decode_extends(b: Seq<u8>, more: Seq<u8>)
    requires
        spec_decode_request(b) is Ok,
    ensures
        spec_decode_request(b + more) == spec_decode_request(b),
{
    let c = b + more;
    assert(c.skip(3) =~= b.skip(3) + more);
    lemma_addr_decode_extends(b.skip(3), more);
    let (a, an) = spec_decode_addr(b.skip(3))->Ok_0;
    lemma_addr_decode_prefix(b.skip(3));
    assert(c[3 + an] == b[3 + an]);
    assert(c[4 + an] == b[4 + an]);
}

/// A decoded reply is final under extension.
pub proof fn lemma_response_decode_extends(b: Seq<u8>, more: Seq<u8>)
    requires
        spec_decode_response(b) is Ok,
    ensures
        spec_decode_response(b + more) == spec_decode_response(b),
{
    let c = b + more;
    assert(c.skip(3) =~= b.skip(3) + more);
    lemma_addr_decode_extends(b.skip(3), more);
    let (a, an) = spec_decode_addr(b.skip(3))->Ok_0;
    lemma_addr_decode_prefix(b.skip(3));
    assert(c[3 + an] == b[3 + an]);
    assert(c[4 + an] == b[4 + an]);
}

/// Decoding inverts encoding on every well-formed greeting.
pub proof fn lemma_greeting_round_trip(methods: Seq<AuthMethod>)
    requires
        greeting_wf(methods),
    ensures
        spec_decode_greeting(spec_encode_greeting(methods)) == Ok::<_, DecodeError>(
            (methods, spec_encode_greeting(methods).len() as int),
        ),
{
    let b = spec_encode_greeting(methods);
    assert(b[1] == methods.len() as u8);
    assert(b[1] == methods.len());
    let d = b.subrange(2, 2 + b[1]).map_values(|x: u8| spec_method_of_byte(x));
    assert forall|i: int| 0 <= i < methods.len() implies d[i] == methods[i] by {
        assert(b.subrange(2, 2 + b[1])[i] == b[2 + i]);
        assert(b[2 + i] == spec_method_byte(methods[i]));
        assert(method_wf(methods[i]));
    }
    assert(d =~= methods);
}

/// Decoding inverts encoding on every canonical authentication choice.
pub proof fn lemma_choice_round_trip(m: AuthMethod)
    requires
        method_wf(m),
    ensures
        spec_decode_choice(spec_encode_choice(m)) == Ok::<_, DecodeError>((m, 2int)),
{
}

/// Decoding inverts encoding on every well-formed address, whatever bytes
/// follow the encoding.
pub proof fn lemma_addr_round_trip(a: AddressModel, rest: Seq<u8>)
    requires
        addr_wf(a),
    ensures
        spec_decode_addr(spec_encode_addr(a) + rest) == Ok::<_, DecodeError>(
            (a, spec_encode_addr(a).len() as int),
        ),
{
    let b = spec_encode_addr(a) + rest;
    match a {
        AddressModel::Ipv4(o) => {
            assert(b.subrange(1, 5) =~= o);
        },
        AddressModel::DomainName(d) => {
            assert(b[1] == d.len() as u8);
            assert(b[1] == d.len());
            assert(b.subrange(2, 2 + b[1]) =~= d);
        },
        AddressModel::Ipv6(o) => {
            assert(b.subrange(1, 17) =~= o);
        },
    }
}

/// Decoding inverts encoding on every well-formed request, whatever bytes
/// follow the encoding.
pub proof fn lemma_request_round_trip(m: RequestModel, rest: Seq<u8>)
    requires
        request_wf(m),
    ensures
        spec_decode_request(spec_encode_request(m) + rest) == Ok::<_, DecodeError>(
            (m, spec_encode_request(m).len() as int),
        ),
{
    let b = spec_encode_request(m) + rest;
    let ea = spec_encode_addr(m.dest_addr);
    let ep = spec_encode_port(m.dest_port);
    assert(b.skip(3) =~= ea + (ep + rest));
    lemma_addr_round_trip(m.dest_addr, ep + rest);
    let an = ea.len() as int;
    assert(spec_command_of_byte(b[1]) == Some(m.cmd));
    assert(b[3 + an] == (m.dest_port / 256) as u8);
    assert(b[4 + an] == (m.dest_port % 256) as u8);
    assert(spec_port_of_bytes(b[3 + an], b[4 + an]) == m.dest_port);
    let (dm, dn) = spec_decode_request(b)->Ok_0;
    assert(dm =~= m);
}

/// Decoding inverts encoding on every well-formed reply, whatever bytes
/// follow the encoding.
pub proof fn lemma_response_round_trip(m: ResponseModel, rest: Seq<u8>)
    requires
        response_wf(m),
    ensures
        spec_decode_response(spec_encode_response(m) + rest) == Ok::<_, DecodeError>(
            (m, spec_encode_response(m).len() as int),
        ),
{
    let b = spec_encode_response(m) + rest;
    let ea = spec_encode_addr(m.bound_address);
    let ep = spec_encode_port(m.bound_port);
    assert(b.skip(3) =~= ea + (ep + rest));
    lemma_addr_round_trip(m.bound_address, ep + rest);
    let an = ea.len() as int;
    assert(spec_status_of_byte(b[1]) == Some(m.status));
    assert(b[3 + an] == (m.bound_port / 256) as u8);
    assert(b[4 + an] == (m.bound_port % 256) as u8);
    assert(spec_port_of_bytes(b[3 + an], b[4 + an]) == m.bound_port);
    let (dm, dn) = spec_decode_response(b)->Ok_0;
    assert(dm =~= m);
}

} // verus!
