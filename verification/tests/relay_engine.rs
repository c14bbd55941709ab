use socks5::relay::{RelayDirection, SpliceDirection, SpliceOp};

/// A small deterministic byte generator for payloads.
fn pseudo_random_bytes(len: usize, seed: u64) -> Vec<u8> {
    let mut state = seed | 1;
    let mut out = Vec::with_capacity(len);
    for _ in 0..len {
        state = state.wrapping_mul(6364136223846793005).wrapping_add(1442695040888963407);
        out.push((state >> 33) as u8);
    }
    out
}

#[test]
fn a_direction_delivers_exactly_what_it_accepted() {
    let mut dir = RelayDirection::new();
    dir.accept(b"hello ");
    dir.accept(b"world");
    let first = dir.take_pending();
    assert_eq!(first, b"hello world".to_vec());
    dir.accept(b"!");
    dir.source_eof();
    assert!(!dir.is_complete());
    let second = dir.take_pending();
    assert_eq!(second, b"!".to_vec());
    assert!(dir.is_complete());
}

#[test]
fn bidirectional_relay_echoes_a_large_payload_in_order() {
    // The client writes a payload; the destination echoes every chunk it
    // receives; the client must read back exactly the payload, in order.
    let payload = pseudo_random_bytes(1 << 20, 0x5eed);

    let mut client_to_dest = RelayDirection::new();
    let mut dest_to_client = RelayDirection::new();
    let mut echoed: Vec<u8> = Vec::new();

    for chunk in payload.chunks(8192) {
        client_to_dest.accept(chunk);
        let delivered = client_to_dest.take_pending();
        // The harness echoes each byte back.
        dest_to_client.accept(&delivered);
        echoed.extend_from_slice(&dest_to_client.take_pending());
    }

    // The client shuts down its write half; the forward direction
    // completes and propagates the end-of-stream; the harness closes and
    // the reverse direction completes too.
    client_to_dest.source_eof();
    assert!(client_to_dest.is_complete());
    dest_to_client.source_eof();
    assert!(dest_to_client.is_complete());

    assert_eq!(echoed.len(), payload.len());
    assert_eq!(echoed, payload);
}

#[test]
fn eof_with_bytes_still_in_flight_completes_only_after_the_drain() {
    let mut dir = RelayDirection::new();
    dir.accept(&[1, 2, 3]);
    dir.source_eof();
    assert!(!dir.is_complete());
    assert_eq!(dir.take_pending(), vec![1, 2, 3]);
    assert!(dir.is_complete());
    assert_eq!(dir.take_pending(), Vec::<u8>::new());
}

#[test]
fn splice_direction_fills_and_drains_until_finished() {
    let mut dir = SpliceDirection::new();
    assert_eq!(dir.next_op(), SpliceOp::FillPipe);

    dir.filled(100);
    assert_eq!(dir.next_op(), SpliceOp::DrainPipe);

    dir.drained(60);
    assert_eq!(dir.next_op(), SpliceOp::DrainPipe);
    dir.drained(40);
    assert_eq!(dir.next_op(), SpliceOp::FillPipe);

    // A zero-length splice means the source hit end-of-stream.
    dir.filled(0);
    assert_eq!(dir.next_op(), SpliceOp::ShutdownWrite);
}

#[test]
fn splice_direction_drains_what_eof_left_behind() {
    let mut dir = SpliceDirection::new();
    dir.filled(8192);
    dir.drained(1000);
    dir.filled(0);
    // End-of-stream seen, but the pipe still holds bytes: keep draining.
    assert_eq!(dir.next_op(), SpliceOp::DrainPipe);
    dir.drained(7192);
    assert_eq!(dir.next_op(), SpliceOp::ShutdownWrite);
}
