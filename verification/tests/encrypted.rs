use transportation::buffered_transport::BufferedTransport;
use transportation::encrypt::{decrypt_frame, encrypt_frame};
use transportation::encrypted_transport::{DecryptError, EncryptedTransport, EncryptionPerspective};
use transportation::notify::Event;
use transportation::scheduler::Reactor;

fn writable_event(token: usize) -> Event {
    Event { token, readable: false, writable: true, hup: false, timer: false }
}

fn readable_event(token: usize) -> Event {
    Event { token, readable: true, writable: false, hup: false, timer: false }
}

fn pair(r: &mut Reactor, seed: &[u8]) -> (EncryptedTransport, EncryptedTransport) {
    let (a, b) = BufferedTransport::create_pair(r).unwrap();
    (
        EncryptedTransport::create(a, EncryptionPerspective::Alice, seed),
        EncryptedTransport::create(b, EncryptionPerspective::Bob, seed),
    )
}

/// Move the sealed bytes from one side's write buffer into the other
/// side's read buffer without touching the OS.
fn shuttle(from: &mut EncryptedTransport, to: &mut EncryptedTransport) {
    let wire: Vec<u8> = from.bt.write_buffer.drain(..).collect();
    to.bt.read_buffer.extend_from_slice(&wire);
}

#[test]
fn derived_keys_are_deterministic() {
    let (a1, b1) = EncryptedTransport::make_keys(b"seed");
    let (a2, b2) = EncryptedTransport::make_keys(b"seed");
    assert_eq!(a1, a2);
    assert_eq!(b1, b2);
    assert_eq!(a1.len(), 32);
    assert_eq!(b1.len(), 32);
    assert_ne!(a1, b1);
    let (a3, _) = EncryptedTransport::make_keys(b"other");
    assert_ne!(a1, a3);
}

#[test]
fn key_roles_are_mirrored() {
    let mut r = Reactor::new();
    let (alice, bob) = pair(&mut r, b"shared");
    assert_eq!(alice.outbound_key, bob.inbound_key);
    assert_eq!(alice.inbound_key, bob.outbound_key);
    assert_ne!(alice.outbound_key, alice.inbound_key);
}

#[test]
fn encrypted_round_trip_over_a_socket_pair() {
    let mut r = Reactor::new();
    let (mut alice, mut bob) = pair(&mut r, b"shared");
    alice.send(&r, b"hello");
    // one message of under 255 bytes is exactly one 272-byte frame
    assert_eq!(alice.bt.write_buffer.len(), 272);
    let a_token = alice.bt.token();
    let b_token = bob.bt.token();
    alice.bt.notify(&mut r, writable_event(a_token));
    bob.bt.notify(&mut r, readable_event(b_token));
    assert_eq!(bob.recv(&r), Ok(Some(b"hello".to_vec())));
    assert_eq!(bob.recv(&r), Ok(None));
}

#[test]
fn exact_255_boundary_needs_two_frames() {
    let mut r = Reactor::new();
    let (mut alice, mut bob) = pair(&mut r, b"shared");
    let msg = vec![0u8; 255];
    alice.send(&r, &msg);
    assert_eq!(alice.bt.write_buffer.len(), 544);
    shuttle(&mut alice, &mut bob);
    assert_eq!(bob.recv(&r), Ok(Some(msg)));
}

#[test]
fn round_trip_holds_for_boundary_lengths() {
    let mut r = Reactor::new();
    let (mut alice, mut bob) = pair(&mut r, b"shared");
    for len in [0usize, 1, 254, 255, 256, 510, 65535] {
        let msg: Vec<u8> = (0..len).map(|i| (i % 251) as u8).collect();
        alice.send(&r, &msg);
        shuttle(&mut alice, &mut bob);
        assert_eq!(bob.recv(&r), Ok(Some(msg)), "length {}", len);
    }
    assert_eq!(bob.recv(&r), Ok(None));
}

#[test]
fn both_directions_work() {
    let mut r = Reactor::new();
    let (mut alice, mut bob) = pair(&mut r, b"shared");
    bob.send(&r, b"from bob");
    shuttle(&mut bob, &mut alice);
    assert_eq!(alice.recv(&r), Ok(Some(b"from bob".to_vec())));
}

#[test]
fn nonce_counters_stay_in_lockstep() {
    let mut r = Reactor::new();
    let (mut alice, mut bob) = pair(&mut r, b"shared");
    assert_eq!(alice.outbound_iv, 0);
    alice.send(&r, &vec![7u8; 600]);  // three frames: 255 + 255 + 90
    assert_eq!(alice.outbound_iv, 3);
    alice.send(&r, b"x");  // one more frame
    assert_eq!(alice.outbound_iv, 4);
    shuttle(&mut alice, &mut bob);
    assert_eq!(bob.recv(&r), Ok(Some(vec![7u8; 600])));
    assert_eq!(bob.inbound_iv, alice.outbound_iv);
}

#[test]
fn tampered_wire_fails_authentication() {
    let mut r = Reactor::new();
    let (mut alice, mut bob) = pair(&mut r, b"shared");
    alice.send(&r, b"hello");
    let mut wire: Vec<u8> = alice.bt.write_buffer.drain(..).collect();
    wire[5] ^= 1;
    bob.bt.read_buffer.extend_from_slice(&wire);
    assert_eq!(bob.recv(&r), Err(DecryptError::AuthFailure));
}

#[test]
fn mismatched_seeds_fail_authentication() {
    let mut r = Reactor::new();
    let (a, _b) = BufferedTransport::create_pair(&mut r).unwrap();
    let (c, _d) = BufferedTransport::create_pair(&mut r).unwrap();
    let mut alice = EncryptedTransport::create(a, EncryptionPerspective::Alice, b"one seed");
    let mut bob = EncryptedTransport::create(c, EncryptionPerspective::Bob, b"another");
    alice.send(&r, b"hello");
    shuttle(&mut alice, &mut bob);
    assert_eq!(bob.recv(&r), Err(DecryptError::AuthFailure));
}

#[test]
fn rekey_replaces_keys_without_resetting_counters() {
    let mut r = Reactor::new();
    let (mut alice, mut bob) = pair(&mut r, b"first");
    alice.send(&r, b"one");
    shuttle(&mut alice, &mut bob);
    assert_eq!(bob.recv(&r), Ok(Some(b"one".to_vec())));
    let iv_before = alice.outbound_iv;
    alice.rekey(b"second");
    bob.rekey(b"second");
    assert_eq!(alice.outbound_iv, iv_before);
    assert_eq!(alice.outbound_key, bob.inbound_key);
    alice.send(&r, b"two");
    shuttle(&mut alice, &mut bob);
    assert_eq!(bob.recv(&r), Ok(Some(b"two".to_vec())));
}

#[test]
fn partial_frames_wait_in_the_buffer() {
    let mut r = Reactor::new();
    let (mut alice, mut bob) = pair(&mut r, b"shared");
    alice.send(&r, b"hello");
    let wire: Vec<u8> = alice.bt.write_buffer.drain(..).collect();
    bob.bt.read_buffer.extend_from_slice(&wire[..100]);
    assert_eq!(bob.recv(&r), Ok(None));
    bob.bt.read_buffer.extend_from_slice(&wire[100..]);
    assert_eq!(bob.recv(&r), Ok(Some(b"hello".to_vec())));
}

#[test]
fn recv_all_returns_every_message() {
    let mut r = Reactor::new();
    let (mut alice, mut bob) = pair(&mut r, b"shared");
    alice.send(&r, b"one");
    alice.send(&r, b"two");
    alice.send(&r, b"three");
    shuttle(&mut alice, &mut bob);
    assert_eq!(
        bob.recv_all(&r),
        Ok(vec![b"one".to_vec(), b"two".to_vec(), b"three".to_vec()])
    );
    assert_eq!(bob.recv_all(&r), Ok(Vec::new()));
}

#[test]
fn frame_seal_and_open_invert() {
    let key = vec![7u8; 32];
    let iv = vec![1u8; 12];
    let mut frame = vec![9u8; 256];
    let plaintext = frame.clone();
    encrypt_frame(&mut frame, &key, &iv);
    assert_eq!(frame.len(), 272);
    assert_ne!(&frame[..256], &plaintext[..]);
    let opened = decrypt_frame(&frame, &key, &iv).unwrap();
    assert_eq!(opened, plaintext);
    // a different nonce refuses the frame
    assert_eq!(decrypt_frame(&frame, &key, &vec![2u8; 12]), None);
}

#[test]
fn drained_forward_and_close_status() {
    let mut r = Reactor::new();
    let (mut alice, _bob) = pair(&mut r, b"shared");
    assert!(alice.is_drained_forward());
    assert!(alice.has_write_space());
    alice.send(&r, b"x");
    assert!(!alice.is_drained_forward());
    assert!(!alice.is_closed());
}
