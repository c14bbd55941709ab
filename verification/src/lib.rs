//! Core of a SOCKS5 (RFC 1928) proxy: the wire codec for the five handshake
//! messages, the client handshake checks, the server session state machine,
//! and the byte-accounting of the bidirectional relay. All I/O lives outside
//! this crate; every function here is pure and carries a verified contract.

pub mod addr;
pub mod codec;
pub mod handshake;
pub mod proto;
pub mod relay;
pub mod session;
