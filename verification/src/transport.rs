//! The underlying resource of a buffered transport: a TCP stream or a raw
//! descriptor, with the readiness-registration calls that bind it to a
//! reactor token.

use vstd::prelude::*;

use crate::fd_adapter::{fd_close, fd_flush, fd_read, fd_write, FdAdapter, IoError};

verus! {

#[verifier::external_type_specification]
#[verifier::external_body]
pub struct ExTcpStream(mio::net::TcpStream);

#[verifier::external_type_specification]
#[verifier::external_body]
pub struct ExRegistration(mio::Registration);

/// Why a readiness registration was refused.
#[derive(Clone, Copy, Debug, PartialEq, Eq, Structural)]
pub enum RegError {
    /// The OS poller refuses the resource type (characteristically regular
    /// files); the caller falls back to a permanently-ready shim.
    PermissionDenied,
    /// Any other failure.
    Other,
}

/// A non-blocking bidirectional resource.
pub enum Transport {
    TcpStream(mio::net::TcpStream),
    FdAdapter(FdAdapter),
}

/// Relies on the std::io::Read impl of mio::net::TcpStream (a non-blocking
/// socket read): on success the result holds the bytes read, at most `max`.
#[verifier::external_body]
fn tcp_read(s: &mut mio::net::TcpStream, max: usize) -> (r: Result<Vec<u8>, IoError>)
    ensures
        r matches Ok(v) ==> v@.len() <= max,
{
    let mut buf = vec![0u8; max];
    match std::io::Read::read(s, &mut buf[..]) {
        Ok(n) => {
            buf.truncate(n);
            Ok(buf)
        },
        Err(e) if e.kind() == std::io::ErrorKind::WouldBlock => Err(IoError::WouldBlock),
        Err(_) => Err(IoError::Other),
    }
}

/// Relies on the std::io::Write impl of mio::net::TcpStream: on success the
/// result is how many of the given bytes were written, never more than were
/// given.
#[verifier::external_body]
fn tcp_write(s: &mut mio::net::TcpStream, data: &[u8]) -> (r: Result<usize, IoError>)
    ensures
        r matches Ok(n) ==> n <= data@.len(),
{
    match std::io::Write::write(s, data) {
        Ok(n) => Ok(n),
        Err(e) if e.kind() == std::io::ErrorKind::WouldBlock => Err(IoError::WouldBlock),
        Err(_) => Err(IoError::Other),
    }
}

/// Relies on the std::io::Write impl of mio::net::TcpStream: flush.
#[verifier::external_body]
fn tcp_flush(s: &mut mio::net::TcpStream) -> Result<(), IoError> {
    match std::io::Write::flush(s) {
        Ok(()) => Ok(()),
        Err(_) => Err(IoError::Other),
    }
}

impl Transport {
    /// Wrap a connected non-blocking TCP stream.
    pub fn from_tcp(stream: mio::net::TcpStream) -> (t: Transport)
        ensures
            t is TcpStream,
    {
        Transport::TcpStream(stream)
    }

    /// Wrap a raw non-blocking descriptor.
    pub fn from_fd(fd: i32) -> (t: Transport)
        ensures
            t matches Transport::FdAdapter(a) && a.fd == fd,
    {
        Transport::FdAdapter(FdAdapter::from(fd))
    }

    /// Read up to `max` bytes from the resource.
    pub fn read(&mut self, max: usize) -> (r: Result<Vec<u8>, IoError>)
        ensures
            r matches Ok(v) ==> v@.len() <= max,
    {
        match self {
            Transport::TcpStream(s) => tcp_read(s, max),
            Transport::FdAdapter(a) => fd_read(a.fd, max),
        }
    }

    /// Write a prefix of `data` to the resource, returning how many bytes
    /// the OS accepted.
    pub fn write(&mut self, data: &[u8]) -> (r: Result<usize, IoError>)
        ensures
            r matches Ok(n) ==> n <= data@.len(),
    {
        match self {
            Transport::TcpStream(s) => tcp_write(s, data),
            Transport::FdAdapter(a) => fd_write(a.fd, data),
        }
    }

    /// Flush the resource.
    pub fn flush(&mut self) -> Result<(), IoError> {
        match self {
            Transport::TcpStream(s) => tcp_flush(s),
            Transport::FdAdapter(a) => fd_flush(a.fd),
        }
    }

    /// Close the resource, consuming it.  Dropping the TCP stream closes its
    /// descriptor; a raw descriptor is closed explicitly.
    pub fn close(self) -> Result<(), IoError> {
        match self {
            Transport::TcpStream(_s) => Ok(()),
            Transport::FdAdapter(a) => fd_close(a.fd),
        }
    }
}

/// Relies on mio::Poll::register with level triggering and readable
/// interest, against the resource's own mio registration (a TCP stream
/// directly, a raw descriptor through mio::unix::EventedFd).
#[verifier::external_body]
pub(crate) fn transport_register(poll: &mio::Poll, t: &Transport, token: usize) -> Result<
    (),
    RegError,
> {
    let (tok, rd, lv) = (mio::Token(token), mio::Ready::readable(), mio::PollOpt::level());
    let r = match t {
        Transport::TcpStream(s) => poll.register(s, tok, rd, lv),
        Transport::FdAdapter(a) => poll.register(&mio::unix::EventedFd(&a.fd), tok, rd, lv),
    };
    match r {
        Ok(()) => Ok(()),
        Err(e) if e.kind() == std::io::ErrorKind::PermissionDenied => Err(RegError::PermissionDenied),
        Err(_) => Err(RegError::Other),
    }
}

/// Relies on mio::Poll::reregister with level triggering: replace the
/// interest set registered for the resource under `token`.
#[verifier::external_body]
pub(crate) fn transport_reregister(
    poll: &mio::Poll,
    t: &Transport,
    token: usize,
    readable: bool,
    writable: bool,
) -> Result<(), RegError> {
    let mut ready = mio::Ready::empty();
    if readable {
        ready = ready | mio::Ready::readable();
    }
    if writable {
        ready = ready | mio::Ready::writable();
    }
    let (tok, lv) = (mio::Token(token), mio::PollOpt::level());
    let r = match t {
        Transport::TcpStream(s) => poll.reregister(s, tok, ready, lv),
        Transport::FdAdapter(a) => poll.reregister(&mio::unix::EventedFd(&a.fd), tok, ready, lv),
    };
    r.map_err(|_| RegError::Other)
}

/// Relies on mio::Poll::deregister: stop delivering readiness for the
/// resource.
#[verifier::external_body]
pub(crate) fn transport_deregister(poll: &mio::Poll, t: &Transport) -> Result<(), RegError> {
    let r = match t {
        Transport::TcpStream(s) => poll.deregister(s),
        Transport::FdAdapter(a) => poll.deregister(&mio::unix::EventedFd(&a.fd)),
    };
    r.map_err(|_| RegError::Other)
}

/// Relies on mio::Registration::new2, mio::Poll::register and
/// mio::SetReadiness::set_readiness: install under `token` a synthetic
/// registration that is permanently readable and writable, for resources the
/// OS poller refuses (regular files).
#[verifier::external_body]
pub(crate) fn make_shim(poll: &mio::Poll, token: usize) -> Option<mio::Registration> {
    let (registration, set_readiness) = mio::Registration::new2();
    let r = poll.register(
        &registration,
        mio::Token(token),
        mio::Ready::readable(),
        mio::PollOpt::level(),
    );
    if r.is_err() {
        return None;
    }
    match set_readiness.set_readiness(mio::Ready::readable() | mio::Ready::writable()) {
        Ok(()) => Some(registration),
        Err(_) => None,
    }
}

/// Relies on mio::Poll::reregister against a synthetic mio::Registration:
/// replace the interest set of the shim under `token`.
#[verifier::external_body]
pub(crate) fn shim_reregister(
    poll: &mio::Poll,
    shim: &mio::Registration,
    token: usize,
    readable: bool,
    writable: bool,
) -> Result<(), RegError> {
    let mut ready = mio::Ready::empty();
    if readable {
        ready = ready | mio::Ready::readable();
    }
    if writable {
        ready = ready | mio::Ready::writable();
    }
    poll.reregister(shim, mio::Token(token), ready, mio::PollOpt::level()).map_err(
        |_| RegError::Other,
    )
}

/// Relies on mio::Poll::deregister against a synthetic mio::Registration.
#[verifier::external_body]
pub(crate) fn shim_deregister(poll: &mio::Poll, shim: &mio::Registration) -> Result<(), RegError> {
    poll.deregister(shim).map_err(|_| RegError::Other)
}

} // verus!
