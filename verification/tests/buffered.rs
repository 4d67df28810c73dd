use nix::fcntl::OFlag;
use nix::sys::stat::Mode;
use transportation::buffered_transport::BufferedTransport;
use transportation::notify::Event;
use transportation::scheduler::Reactor;

fn writable_event(token: usize) -> Event {
    Event { token, readable: false, writable: true, hup: false, timer: false }
}

fn readable_event(token: usize) -> Event {
    Event { token, readable: true, writable: false, hup: false, timer: false }
}

#[test]
fn takers_observe_bytes_in_submission_order() {
    let mut r = Reactor::new();
    let (mut a, _b) = BufferedTransport::create_pair(&mut r).unwrap();
    a.read_buffer.extend_from_slice(b"hello ");
    a.read_buffer.extend_from_slice(b"world");
    let first = a.take_chunk(&r, 5).unwrap();
    assert_eq!(first, b"hello".to_vec());
    let rest = a.take(&r);
    assert_eq!(rest, b" world".to_vec());
    assert_eq!(a.available(), 0);
}

#[test]
fn take_chunk_never_returns_a_partial_chunk() {
    let mut r = Reactor::new();
    let (mut a, _b) = BufferedTransport::create_pair(&mut r).unwrap();
    a.read_buffer.extend_from_slice(b"abc");
    assert_eq!(a.take_chunk(&r, 4), None);
    assert_eq!(a.available(), 3);
    assert_eq!(a.take_chunk(&r, 3), Some(b"abc".to_vec()));
}

#[test]
fn send_message_writes_length_prefix_wire() {
    let mut r = Reactor::new();
    let (mut a, _b) = BufferedTransport::create_pair(&mut r).unwrap();
    a.send_message(&r, &[0u8, 1u8, 2u8]);
    assert_eq!(a.write_buffer, vec![0u8, 3u8, 0u8, 1u8, 2u8]);
}

#[test]
fn recv_message_parses_a_buffered_frame() {
    let mut r = Reactor::new();
    let (mut a, _b) = BufferedTransport::create_pair(&mut r).unwrap();
    a.read_buffer.extend_from_slice(&[0u8, 3u8, 9u8, 8u8, 7u8, 0u8, 1u8, 42u8]);
    assert_eq!(a.recv_message(&r), Some(vec![9u8, 8u8, 7u8]));
    assert_eq!(a.recv_message(&r), Some(vec![42u8]));
    assert_eq!(a.recv_message(&r), None);
}

#[test]
fn recv_message_waits_for_the_full_payload() {
    let mut r = Reactor::new();
    let (mut a, _b) = BufferedTransport::create_pair(&mut r).unwrap();
    a.read_buffer.extend_from_slice(&[0u8, 3u8, 9u8]);
    assert_eq!(a.recv_message(&r), None);
    a.read_buffer.extend_from_slice(&[8u8, 7u8]);
    assert_eq!(a.recv_message(&r), Some(vec![9u8, 8u8, 7u8]));
}

#[test]
fn recv_all_messages_drains_complete_frames() {
    let mut r = Reactor::new();
    let (mut a, _b) = BufferedTransport::create_pair(&mut r).unwrap();
    a.read_buffer.extend_from_slice(&[0u8, 1u8, 5u8, 0u8, 2u8, 6u8, 7u8, 0u8, 9u8]);
    let msgs = a.recv_all_messages(&r);
    assert_eq!(msgs, vec![vec![5u8], vec![6u8, 7u8]]);
    // the trailing partial frame stays
    assert_eq!(a.read_buffer, vec![0u8, 9u8]);
}

#[test]
fn empty_message_round_trips() {
    let mut r = Reactor::new();
    let (mut a, _b) = BufferedTransport::create_pair(&mut r).unwrap();
    a.send_message(&r, &[]);
    assert_eq!(a.write_buffer, vec![0u8, 0u8]);
    a.read_buffer.extend_from_slice(&[0u8, 0u8]);
    assert_eq!(a.recv_message(&r), Some(Vec::new()));
}

#[test]
fn loopback_framing_over_a_socket_pair() {
    // send_message on one end; after the I/O turns, the other end's
    // recv_message returns the same bytes.
    let mut r = Reactor::new();
    let (mut a, mut b) = BufferedTransport::create_pair(&mut r).unwrap();
    a.send_message(&r, &[0u8, 1u8, 2u8]);
    let a_token = a.token();
    let b_token = b.token();
    a.notify(&mut r, writable_event(a_token));
    b.notify(&mut r, readable_event(b_token));
    assert_eq!(b.recv_message(&r), Some(vec![0u8, 1u8, 2u8]));
    assert!(a.write_buffer.is_empty());
}

#[test]
fn has_write_space_is_advisory_at_2048() {
    let mut r = Reactor::new();
    let (mut a, _b) = BufferedTransport::create_pair(&mut r).unwrap();
    a.put(&r, &vec![0u8; 2047]);
    assert!(a.has_write_space());
    a.put(&r, &[0u8]);
    assert!(!a.has_write_space());
}

#[test]
fn close_with_empty_write_buffer_tears_down_now() {
    let mut r = Reactor::new();
    let (mut a, _b) = BufferedTransport::create_pair(&mut r).unwrap();
    let key = a.token();
    assert!(r.listeners.contains(&key));
    a.close(&mut r);
    assert!(a.is_closed());
    assert!(!r.listeners.contains(&key));
}

#[test]
fn close_with_pending_data_drains_first() {
    let mut r = Reactor::new();
    let (mut a, mut b) = BufferedTransport::create_pair(&mut r).unwrap();
    a.put(&r, b"bye");
    let key = a.token();
    a.close(&mut r);
    assert!(!a.is_closed());
    assert!(r.listeners.contains(&key));
    // the writable turn drains the buffer, then the close proceeds
    a.notify(&mut r, writable_event(key));
    assert!(a.is_closed());
    assert!(!r.listeners.contains(&key));
    // the peer still receives what was pending
    let b_token = b.token();
    b.notify(&mut r, readable_event(b_token));
    assert_eq!(b.take(&r), b"bye".to_vec());
}

#[test]
fn peer_close_latches_closed_on_read() {
    let mut r = Reactor::new();
    let (mut a, mut b) = BufferedTransport::create_pair(&mut r).unwrap();
    a.close(&mut r);
    let b_token = b.token();
    b.notify(&mut r, readable_event(b_token));
    assert!(b.is_closed());
}

#[test]
fn regular_file_uses_the_shim_registration() {
    let path = "/tmp/transportation_shim_test";
    let fd: i32 = nix::fcntl::open(
        path,
        OFlag::O_RDWR | OFlag::O_CREAT | OFlag::O_TRUNC,
        Mode::from_bits(0o600).unwrap(),
    )
    .unwrap();
    nix::unistd::write(fd, b"abc").unwrap();
    let mut r = Reactor::new();
    let rd: i32 = nix::fcntl::open(path, OFlag::O_RDONLY, Mode::empty()).unwrap();
    let mut bt = BufferedTransport::create(transportation::Transport::from_fd(rd), &mut r);
    // the OS poller refuses a regular file, so the permanently-ready shim
    // stands in for it
    assert!(bt.registration.is_some());
    let token = bt.token();
    bt.notify(&mut r, readable_event(token));
    assert_eq!(bt.take(&r), b"abc".to_vec());
    let _ = nix::unistd::close(fd);
}

#[test]
fn backpressure_clears_readable_interest_at_the_limit() {
    let mut r = Reactor::new();
    let (mut a, _b) = BufferedTransport::create_pair(&mut r).unwrap();
    a.read_limit = 16;
    a.read_buffer.extend_from_slice(&[0u8; 15]);
    assert_eq!(a.interest(), (true, false));
    a.read_buffer.push(0u8);
    // the read buffer reached the limit: readable interest is dropped
    assert_eq!(a.interest(), (false, false));
    a.put(&r, b"x");
    assert_eq!(a.interest(), (false, true));
    // taking the buffer restores readable interest
    let taken = a.take(&r);
    assert_eq!(taken.len(), 16);
    assert_eq!(a.interest(), (true, true));
}
