use rtmp::handshake::{Handshake, HandshakeError};

fn random_block() -> [u8; 1528] {
    let mut r = [0u8; 1528];
    for (i, b) in r.iter_mut().enumerate() {
        *b = (i * 7 % 251) as u8;
    }
    r
}

fn c0_c1(version: u8) -> Vec<u8> {
    let mut v = vec![version, 0x11, 0x22, 0x33, 0x44, 0, 0, 0, 0];
    for i in 0..1528 {
        v.push((i % 13) as u8);
    }
    v
}

#[test]
fn first_bytes_are_answered_with_s0_s1() {
    let random = random_block();
    let mut h = Handshake::new();
    let out = h.consume_at(&[3], &random, Some(0x0102_0304)).unwrap();
    assert_eq!(out.len(), 1537);
    assert_eq!(out[0], 3);
    assert_eq!(&out[1..5], &[1, 2, 3, 4]);
    assert_eq!(&out[5..9], &[0, 0, 0, 0]);
    assert_eq!(&out[9..], &random[..]);
}

#[test]
fn clock_before_epoch_sends_time_zero() {
    let random = random_block();
    let mut h = Handshake::new();
    let out = h.consume_at(&[], &random, None).unwrap();
    assert_eq!(&out[1..5], &[0, 0, 0, 0]);
}

#[test]
fn consume_reads_the_clock() {
    let random = random_block();
    let mut h = Handshake::new();
    let out = h.consume(&[], &random).unwrap();
    assert_eq!(out.len(), 1537);
    assert_eq!(out[0], 3);
    assert_eq!(&out[9..], &random[..]);
}

#[test]
fn full_handshake_completes() {
    let random = random_block();
    let mut h = Handshake::new();
    let c = c0_c1(3);
    let s0_s1 = h.consume_at(&c, &random, Some(7)).unwrap();
    assert_eq!(s0_s1.len(), 1537);
    let s2 = h.consume_at(&[], &random, Some(0x0a0b_0c0d)).unwrap();
    assert_eq!(s2.len(), 1536);
    assert_eq!(&s2[0..4], &c[1..5]);
    assert_eq!(&s2[4..8], &[0x0a, 0x0b, 0x0c, 0x0d]);
    assert_eq!(&s2[8..], &c[9..]);
    let mut c2 = vec![0u8, 0, 0, 7, 0, 0, 0, 0];
    c2.extend_from_slice(&random);
    c2.push(0x42);
    assert!(h.can_consume(c2.len()));
    match h.consume_at(&c2, &random, None) {
        Err(HandshakeError::Done) => {}
        other => panic!("unexpected {:?}", other),
    }
    match h.consume_at(&[], &random, None) {
        Err(HandshakeError::Done) => {}
        other => panic!("unexpected {:?}", other),
    }
}

#[test]
fn c2_alone_waits_for_more() {
    let random = random_block();
    let mut h = Handshake::new();
    h.consume_at(&c0_c1(3), &random, Some(1)).unwrap();
    h.consume_at(&[], &random, Some(2)).unwrap();
    let mut c2 = vec![0u8; 8];
    c2.extend_from_slice(&random);
    assert_eq!(h.consume_at(&c2, &random, None).unwrap(), Vec::<u8>::new());
    match h.consume_at(&[1], &random, None) {
        Err(HandshakeError::Done) => {}
        other => panic!("unexpected {:?}", other),
    }
}

#[test]
fn echo_mismatch_is_refused() {
    let random = random_block();
    let mut h = Handshake::new();
    h.consume_at(&c0_c1(3), &random, Some(1)).unwrap();
    h.consume_at(&[], &random, Some(2)).unwrap();
    let mut c2 = vec![0u8; 8];
    c2.extend_from_slice(&random);
    c2[100] ^= 0xff;
    c2.push(0);
    match h.consume_at(&c2, &random, None) {
        Err(HandshakeError::EchoMismatch) => {}
        other => panic!("unexpected {:?}", other),
    }
}

#[test]
fn old_version_is_refused() {
    let random = random_block();
    let mut h = Handshake::new();
    h.consume_at(&c0_c1(2), &random, Some(1)).unwrap();
    match h.consume_at(&[], &random, Some(2)) {
        Err(HandshakeError::UnsupportedVersion) => {}
        other => panic!("unexpected {:?}", other),
    }
}

#[test]
fn partial_c0_c1_waits() {
    let random = random_block();
    let mut h = Handshake::new();
    let c = c0_c1(3);
    h.consume_at(&c[..100], &random, Some(1)).unwrap();
    assert_eq!(h.consume_at(&c[100..1000], &random, Some(1)).unwrap(), Vec::<u8>::new());
    let s2 = h.consume_at(&c[1000..], &random, Some(1)).unwrap();
    assert_eq!(s2.len(), 1536);
    assert_eq!(&s2[8..], &c[9..]);
}

#[test]
fn short_c2_is_outside_the_defined_inputs() {
    let random = random_block();
    let mut h = Handshake::new();
    assert!(h.can_consume(0));
    h.consume_at(&c0_c1(3), &random, Some(1)).unwrap();
    h.consume_at(&[], &random, Some(2)).unwrap();
    assert!(!h.can_consume(100));
    assert!(h.can_consume(1536));
}

#[test]
fn echo_mismatch_keeps_waiting_for_c2() {
    let random = random_block();
    let mut h = Handshake::new();
    h.consume_at(&c0_c1(3), &random, Some(1)).unwrap();
    h.consume_at(&[], &random, Some(2)).unwrap();
    let mut c2 = vec![0u8; 8];
    c2.extend_from_slice(&random);
    c2[100] ^= 0xff;
    c2.push(0);
    assert!(matches!(h.consume_at(&c2, &random, None), Err(HandshakeError::EchoMismatch)));
    // still waiting for C2: one byte is buffered, and less than C2 is refused
    assert!(!h.can_consume(100));
    assert!(h.can_consume(1535));
    // that byte and 1535 more make a C2 that echoes S1
    let mut next = vec![0u8; 7];
    next.extend_from_slice(&random);
    next.push(9);
    assert!(matches!(h.consume_at(&next, &random, None), Err(HandshakeError::Done)));
}
