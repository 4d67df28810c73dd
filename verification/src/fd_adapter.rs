//! The raw-descriptor adapter: a plain POSIX file descriptor used as a
//! non-blocking byte stream, together with the descriptor-level I/O calls
//! the transports rely on.

use vstd::prelude::*;

verus! {

/// Why an I/O call made no progress.
#[derive(Clone, Copy, Debug, PartialEq, Eq, Structural)]
pub enum IoError {
    /// The operation would have blocked; try again on the next readiness.
    WouldBlock,
    /// Any other failure.
    Other,
}

/// A plain file descriptor treated as a non-blocking byte stream.
pub struct FdAdapter {
    pub fd: i32,
}

impl FdAdapter {
    /// Wrap a raw descriptor.
    pub fn from(fd: i32) -> (r: FdAdapter)
        ensures
            r.fd == fd,
    {
        FdAdapter { fd }
    }
}

/// Relies on nix::unistd::read: on success the result holds the bytes read
/// from the descriptor, at most `max` of them; nothing is promised of their
/// values.
#[verifier::external_body]
pub(crate) fn fd_read(fd: i32, max: usize) -> (r: Result<Vec<u8>, IoError>)
    ensures
        r matches Ok(v) ==> v@.len() <= max,
{
    let mut buf = vec![0u8; max];
    match nix::unistd::read(fd, &mut buf[..]) {
        Ok(n) => {
            buf.truncate(n);
            Ok(buf)
        },
        Err(nix::errno::Errno::EAGAIN) => Err(IoError::WouldBlock),
        Err(_) => Err(IoError::Other),
    }
}

/// Relies on nix::unistd::write: on success the result is how many of the
/// given bytes were written, never more than were given.
#[verifier::external_body]
pub(crate) fn fd_write(fd: i32, data: &[u8]) -> (r: Result<usize, IoError>)
    ensures
        r matches Ok(n) ==> n <= data@.len(),
{
    match nix::unistd::write(fd, data) {
        Ok(n) => Ok(n),
        Err(nix::errno::Errno::EAGAIN) => Err(IoError::WouldBlock),
        Err(_) => Err(IoError::Other),
    }
}

/// Relies on nix::unistd::fsync: flush the descriptor's kernel buffers.
#[verifier::external_body]
pub(crate) fn fd_flush(fd: i32) -> Result<(), IoError> {
    match nix::unistd::fsync(fd) {
        Ok(()) => Ok(()),
        Err(_) => Err(IoError::Other),
    }
}

/// Relies on nix::unistd::close: close the descriptor.
#[verifier::external_body]
pub(crate) fn fd_close(fd: i32) -> Result<(), IoError> {
    match nix::unistd::close(fd) {
        Ok(()) => Ok(()),
        Err(_) => Err(IoError::Other),
    }
}

/// Relies on nix::sys::socket::socketpair: a connected pair of non-blocking
/// Unix-domain stream sockets, returned as raw descriptors.
#[verifier::external_body]
pub(crate) fn socketpair_fds() -> Result<(i32, i32), IoError> {
    match nix::sys::socket::socketpair(
        nix::sys::socket::AddressFamily::Unix,
        nix::sys::socket::SockType::Stream,
        None,
        nix::sys::socket::SockFlag::SOCK_NONBLOCK,
    ) {
        Ok((a, b)) => Ok((a, b)),
        Err(_) => Err(IoError::Other),
    }
}

} // verus!
