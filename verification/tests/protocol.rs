use transportation::buffered_transport::BufferedTransport;
use transportation::encrypted_transport::{EncryptedTransport, EncryptionPerspective};
use transportation::message_transport::MessageTransport;
use transportation::protocol_transport::{ProtocolError, ProtocolTransport, SendError};
use transportation::scheduler::Reactor;

fn buffered_pair(r: &mut Reactor) -> (MessageTransport, MessageTransport) {
    let (a, b) = BufferedTransport::create_pair(r).unwrap();
    (
        MessageTransport::BufferedTransport(a),
        MessageTransport::BufferedTransport(b),
    )
}

fn encrypted_pair(r: &mut Reactor) -> (MessageTransport, MessageTransport) {
    let (a, b) = BufferedTransport::create_pair(r).unwrap();
    (
        MessageTransport::EncryptedTransport(EncryptedTransport::create(
            a,
            EncryptionPerspective::Alice,
            b"shared",
        )),
        MessageTransport::EncryptedTransport(EncryptedTransport::create(
            b,
            EncryptionPerspective::Bob,
            b"shared",
        )),
    )
}

/// Move queued wire bytes from one message transport to its peer without
/// touching the OS.
fn shuttle(from: &mut MessageTransport, to: &mut MessageTransport) {
    let wire: Vec<u8> = match from {
        MessageTransport::BufferedTransport(b) => b.write_buffer.drain(..).collect(),
        MessageTransport::EncryptedTransport(e) => e.bt.write_buffer.drain(..).collect(),
    };
    match to {
        MessageTransport::BufferedTransport(b) => b.read_buffer.extend_from_slice(&wire),
        MessageTransport::EncryptedTransport(e) => e.bt.read_buffer.extend_from_slice(&wire),
    }
}

#[test]
fn message_transport_buffered_round_trip() {
    let mut r = Reactor::new();
    let (mut a, mut b) = buffered_pair(&mut r);
    a.send(&r, b"plain framing");
    shuttle(&mut a, &mut b);
    assert_eq!(b.recv(&r), Ok(Some(b"plain framing".to_vec())));
    assert_eq!(b.recv(&r), Ok(None));
}

#[test]
fn message_transport_encrypted_round_trip() {
    let mut r = Reactor::new();
    let (mut a, mut b) = encrypted_pair(&mut r);
    a.send(&r, b"sealed framing");
    shuttle(&mut a, &mut b);
    assert_eq!(b.recv(&r), Ok(Some(b"sealed framing".to_vec())));
}

#[test]
fn message_transport_recv_all_both_variants() {
    let mut r = Reactor::new();
    let (mut a, mut b) = buffered_pair(&mut r);
    a.send(&r, b"one");
    a.send(&r, b"two");
    shuttle(&mut a, &mut b);
    assert_eq!(b.recv_all(&r), Ok(vec![b"one".to_vec(), b"two".to_vec()]));

    let (mut c, mut d) = encrypted_pair(&mut r);
    c.send(&r, b"three");
    c.send(&r, b"four");
    shuttle(&mut c, &mut d);
    assert_eq!(d.recv_all(&r), Ok(vec![b"three".to_vec(), b"four".to_vec()]));
}

#[test]
fn message_transport_status_queries() {
    let mut r = Reactor::new();
    let (mut a, _b) = buffered_pair(&mut r);
    assert!(a.has_write_space());
    assert!(!a.is_closed());
    a.send(&r, &vec![0u8; 4096]);
    assert!(!a.has_write_space());
}

#[test]
fn protocol_uncompressed_round_trip() {
    let mut r = Reactor::new();
    let (a, b) = buffered_pair(&mut r);
    let mut pa = ProtocolTransport::create(a);
    let mut pb = ProtocolTransport::create(b);
    assert!(!pa.outbound_compression && !pa.inbound_compression);
    assert_eq!(pa.send(&r, b"blob"), Ok(()));
    shuttle(&mut pa.mt, &mut pb.mt);
    assert_eq!(pb.recv(&r), Ok(Some(b"blob".to_vec())));
    assert_eq!(pb.recv(&r), Ok(None));
}

#[test]
fn protocol_compressed_round_trip() {
    let mut r = Reactor::new();
    let (a, b) = encrypted_pair(&mut r);
    let mut pa = ProtocolTransport::create(a);
    let mut pb = ProtocolTransport::create(b);
    pa.outbound_compression = true;
    pb.inbound_compression = true;
    let message: Vec<u8> = std::iter::repeat(b"abcabcabc".as_slice())
        .take(200)
        .flatten()
        .copied()
        .collect();
    assert_eq!(pa.send(&r, &message), Ok(()));
    shuttle(&mut pa.mt, &mut pb.mt);
    assert_eq!(pb.recv(&r), Ok(Some(message)));
}

#[test]
fn compression_shrinks_redundant_messages() {
    let mut r = Reactor::new();
    let (a, _b) = buffered_pair(&mut r);
    let mut pa = ProtocolTransport::create(a);
    pa.outbound_compression = true;
    let message = vec![7u8; 10000];
    assert_eq!(pa.send(&r, &message), Ok(()));
    match &pa.mt {
        MessageTransport::BufferedTransport(bt) => assert!(bt.write_buffer.len() < 1000),
        _ => unreachable!(),
    }
}

#[test]
fn garbage_fails_decompression_strictly() {
    let mut r = Reactor::new();
    let (mut a, b) = buffered_pair(&mut r);
    let mut pb = ProtocolTransport::create(b);
    pb.inbound_compression = true;
    a.send(&r, b"this is not a zlib stream");
    shuttle(&mut a, &mut pb.mt);
    assert_eq!(pb.recv(&r), Err(ProtocolError::Decompress));
}

#[test]
fn garbage_is_tolerated_as_an_empty_slot() {
    let mut r = Reactor::new();
    let (mut a, b) = buffered_pair(&mut r);
    let mut pb = ProtocolTransport::create(b);
    pb.inbound_compression = true;
    a.send(&r, b"this is not a zlib stream");
    shuttle(&mut a, &mut pb.mt);
    assert_eq!(pb.recv_tolerant(&r), Ok(Some(None)));
}

#[test]
fn protocol_recv_all_mixes_good_and_bad_only_in_the_tolerant_variant() {
    let mut r = Reactor::new();
    let (mut a, b) = buffered_pair(&mut r);
    let mut pa_tmp = ProtocolTransport::create(MessageTransport::BufferedTransport(
        BufferedTransport::create_pair(&mut r).unwrap().0,
    ));
    pa_tmp.outbound_compression = true;
    // build one well-compressed blob by sending through a scratch transport
    assert_eq!(pa_tmp.send(&r, b"good"), Ok(()));
    let compressed: Vec<u8> = match &mut pa_tmp.mt {
        MessageTransport::BufferedTransport(bt) => {
            // the scratch wire holds [len][payload]; reuse the payload
            let wire: Vec<u8> = bt.write_buffer.drain(..).collect();
            wire[2..].to_vec()
        },
        _ => unreachable!(),
    };
    a.send(&r, &compressed);
    a.send(&r, b"bad zlib");
    let mut pb = ProtocolTransport::create(b);
    pb.inbound_compression = true;
    shuttle(&mut a, &mut pb.mt);
    let out = pb.recv_all_tolerant(&r).unwrap();
    assert_eq!(out, vec![Some(b"good".to_vec()), None]);
}

#[test]
fn protocol_send_too_long_is_refused() {
    let mut r = Reactor::new();
    let (a, _b) = buffered_pair(&mut r);
    let mut pa = ProtocolTransport::create(a);
    let message = vec![9u8; 70000];
    assert_eq!(pa.send(&r, &message), Err(SendError::TooLong));
    // nothing was queued
    match &pa.mt {
        MessageTransport::BufferedTransport(bt) => assert!(bt.write_buffer.is_empty()),
        _ => unreachable!(),
    }
    // the encrypted framing has no such limit
    let (c, mut d) = encrypted_pair(&mut r);
    let mut pc = ProtocolTransport::create(c);
    assert_eq!(pc.send(&r, &message), Ok(()));
    shuttle(&mut pc.mt, &mut d);
    assert_eq!(d.recv(&r), Ok(Some(message)));
}

#[test]
fn protocol_status_queries_forward() {
    let mut r = Reactor::new();
    let (a, _b) = encrypted_pair(&mut r);
    let pa = ProtocolTransport::create(a);
    assert!(pa.has_write_space());
    assert!(!pa.is_closed());
}
