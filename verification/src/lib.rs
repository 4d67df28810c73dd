//! A single-threaded, callback-driven I/O reactor and transport stack.
//!
//! The reactor owns a readiness poller, a timer table and a listener table;
//! each thread that wants to multiplex byte streams and timers constructs its
//! own [`Reactor`] and repeats [`Reactor::turn_internal`] in a loop of its
//! own.  On top of the reactor sit stream adapters that upgrade a raw
//! non-blocking resource into a framed, authenticated-encrypted,
//! structured-message channel.

pub mod buffered_transport;
pub mod encrypt;
pub mod encrypted_transport;
pub mod fd_adapter;
pub mod message_transport;
pub mod notify;
pub mod protocol_transport;
pub mod scheduler;
pub mod transport;

pub use buffered_transport::BufferedTransport;
pub use encrypted_transport::{DecryptError, EncryptedTransport, EncryptionPerspective};
pub use fd_adapter::{FdAdapter, IoError};
pub use message_transport::MessageTransport;
pub use notify::{Event, Notifiable, Notifies};
pub use protocol_transport::{ProtocolError, ProtocolTransport, SendError};
pub use scheduler::Reactor;
pub use transport::Transport;
