//! The message transport: a closed sum over the two framing layers, plain
//! length-prefixed messages over a buffered transport or fixed-frame
//! encrypted messages over an encrypted transport, forwarding each call to
//! the underlying layer.

use vstd::prelude::*;

use crate::buffered_transport::{can_parse, msg_wire, parse_all, parse_rest, parsed_msg,
    BufferedTransport};
use crate::encrypted_transport::{chunks_of, whole_frames, wire_decodes, wire_of, DecryptError,
    EncryptedTransport, NONCE_SPACE};
use crate::notify::{Event, Notifiable};
use crate::scheduler::Reactor;

verus! {

/// A message-bearing channel: either framing layer.
pub enum MessageTransport {
    EncryptedTransport(EncryptedTransport),
    BufferedTransport(BufferedTransport),
}

/// What a send leaves behind: the message's wire form (per the variant's
/// framing) appended to the write buffer, everything else in place.
pub open spec fn send_updates(pre: MessageTransport, post: MessageTransport, m: Seq<u8>) -> bool {
    match (pre, post) {
        (MessageTransport::BufferedTransport(b0), MessageTransport::BufferedTransport(b1)) => {
            &&& b1.write_buffer@ == b0.write_buffer@ + msg_wire(m)
            &&& b1.read_buffer@ == b0.read_buffer@
            &&& b1.same_identity(b0)
            &&& b1.closed == b0.closed
            &&& b1.underlying == b0.underlying
        },
        (MessageTransport::EncryptedTransport(e0), MessageTransport::EncryptedTransport(e1)) => {
            &&& e1.same_codec(e0)
            &&& e1.outbound_iv == e0.outbound_iv + chunks_of(m).len()
            &&& e1.inbound_iv == e0.inbound_iv
            &&& e1.inbound_cleartext@ == e0.inbound_cleartext@
            &&& e1.inbound_messages@ == e0.inbound_messages@
            &&& e1.bt.write_buffer@ == e0.bt.write_buffer@ + wire_of(
                e0.outbound_key@,
                e0.outbound_iv,
                m,
            )
            &&& e1.bt.read_buffer@ == e0.bt.read_buffer@
            &&& e1.bt.closed == e0.bt.closed
        },
        _ => false,
    }
}

/// What a receive returns: the first complete message of the variant's
/// framing, if one has arrived whole, consuming exactly its bytes.
pub open spec fn recv_returns(
    pre: MessageTransport,
    post: MessageTransport,
    r: Result<Option<Vec<u8>>, DecryptError>,
) -> bool {
    match (pre, post) {
        (MessageTransport::BufferedTransport(b0), MessageTransport::BufferedTransport(b1)) => {
            &&& b1.write_buffer@ == b0.write_buffer@
            &&& b1.same_identity(b0)
            &&& b1.closed == b0.closed
            &&& b1.underlying == b0.underlying
            &&& (!can_parse(b0.read_buffer@) ==> r == Ok::<Option<Vec<u8>>, DecryptError>(None)
                && b1.read_buffer@ == b0.read_buffer@)
            &&& (can_parse(b0.read_buffer@) ==> (r matches Ok(Some(v)) && v@ == parsed_msg(
                b0.read_buffer@,
            ) && b1.read_buffer@ == parse_rest(b0.read_buffer@)))
        },
        (MessageTransport::EncryptedTransport(e0), MessageTransport::EncryptedTransport(e1)) => {
            &&& e1.same_codec(e0)
            &&& e1.outbound_iv == e0.outbound_iv
            &&& e1.bt.write_buffer@ == e0.bt.write_buffer@
            &&& e1.bt.closed == e0.bt.closed
            &&& (r is Ok ==> e1.bt.read_buffer@ == e0.bt.read_buffer@.skip(
                whole_frames(e0.bt.read_buffer@),
            ))
            &&& forall|c2: u128, a2: Seq<u8>, ms: Seq<Seq<u8>>|
                wire_decodes(
                    e0.inbound_key@,
                    e0.inbound_iv,
                    e0.inbound_cleartext@,
                    e0.bt.read_buffer@.take(whole_frames(e0.bt.read_buffer@)),
                    c2,
                    a2,
                    ms,
                ) ==> ({
                    let queue = e0.msgs_view() + ms;
                    &&& e1.inbound_iv == c2
                    &&& e1.inbound_cleartext@ == a2
                    &&& (queue.len() == 0 ==> r == Ok::<Option<Vec<u8>>, DecryptError>(None)
                        && e1.msgs_view() == queue)
                    &&& (queue.len() > 0 ==> (r matches Ok(Some(v)) && v@ == queue[0]
                        && e1.msgs_view() == queue.skip(1)))
                })
        },
        _ => false,
    }
}

/// What a batch receive returns: every complete message currently buffered,
/// in arrival order.
pub open spec fn recv_all_returns(
    pre: MessageTransport,
    post: MessageTransport,
    r: Result<Vec<Vec<u8>>, DecryptError>,
) -> bool {
    match (pre, post) {
        (MessageTransport::BufferedTransport(b0), MessageTransport::BufferedTransport(b1)) => {
            &&& b1.write_buffer@ == b0.write_buffer@
            &&& b1.same_identity(b0)
            &&& b1.closed == b0.closed
            &&& b1.underlying == b0.underlying
            &&& (r matches Ok(v) && v@.map_values(|m: Vec<u8>| m@) == parse_all(b0.read_buffer@).0)
            &&& b1.read_buffer@ == parse_all(b0.read_buffer@).1
        },
        (MessageTransport::EncryptedTransport(e0), MessageTransport::EncryptedTransport(e1)) => {
            &&& e1.same_codec(e0)
            &&& e1.outbound_iv == e0.outbound_iv
            &&& e1.bt.write_buffer@ == e0.bt.write_buffer@
            &&& e1.bt.closed == e0.bt.closed
            &&& (r is Ok ==> e1.bt.read_buffer@ == e0.bt.read_buffer@.skip(
                whole_frames(e0.bt.read_buffer@),
            ))
            &&& forall|c2: u128, a2: Seq<u8>, ms: Seq<Seq<u8>>|
                wire_decodes(
                    e0.inbound_key@,
                    e0.inbound_iv,
                    e0.inbound_cleartext@,
                    e0.bt.read_buffer@.take(whole_frames(e0.bt.read_buffer@)),
                    c2,
                    a2,
                    ms,
                ) ==> ({
                    &&& e1.inbound_iv == c2
                    &&& e1.inbound_cleartext@ == a2
                    &&& (r matches Ok(v) && v@.map_values(|m: Vec<u8>| m@) == e0.msgs_view() + ms)
                    &&& e1.msgs_view() == Seq::<Seq<u8>>::empty()
                })
        },
        _ => false,
    }
}

impl MessageTransport {
    /// Well-formedness of the wrapped layer.
    pub open spec fn wf(self) -> bool {
        match self {
            MessageTransport::EncryptedTransport(e) => e.wf(),
            MessageTransport::BufferedTransport(b) => b.wf(),
        }
    }

    /// Whether a message may be framed: the length-prefix layer carries at
    /// most 65535 bytes, the encrypted layer needs nonce headroom for the
    /// message's frames.  Exceeding either is fatal.
    pub open spec fn can_send(self, m: Seq<u8>) -> bool {
        match self {
            MessageTransport::EncryptedTransport(e) => e.outbound_iv + chunks_of(m).len()
                <= NONCE_SPACE,
            MessageTransport::BufferedTransport(_) => m.len() <= 65535,
        }
    }

    /// How many bytes wait in the underlying write buffer.
    pub open spec fn write_len(self) -> int {
        match self {
            MessageTransport::EncryptedTransport(e) => e.bt.write_buffer@.len() as int,
            MessageTransport::BufferedTransport(b) => b.write_buffer@.len() as int,
        }
    }

    /// The underlying latched close status.
    pub open spec fn closed(self) -> bool {
        match self {
            MessageTransport::EncryptedTransport(e) => e.bt.closed,
            MessageTransport::BufferedTransport(b) => b.closed,
        }
    }

    /// Frame and queue one message under the variant's framing.
    pub fn send(&mut self, reactor: &Reactor, message: &[u8])
        requires
            old(self).wf(),
            old(self).can_send(message@),
        ensures
            final(self).wf(),
            send_updates(*old(self), *final(self), message@),
    {
        match self {
            MessageTransport::EncryptedTransport(e) => e.send(reactor, message),
            MessageTransport::BufferedTransport(b) => b.send_message(reactor, message),
        }
    }

    /// Return the next complete message, if one has arrived whole.
    pub fn recv(&mut self, reactor: &Reactor) -> (r: Result<Option<Vec<u8>>, DecryptError>)
        requires
            old(self).wf(),
        ensures
            final(self).wf(),
            recv_returns(*old(self), *final(self), r),
    {
        match self {
            MessageTransport::EncryptedTransport(e) => e.recv(reactor),
            MessageTransport::BufferedTransport(b) => Ok(b.recv_message(reactor)),
        }
    }

    /// Return every complete message currently buffered, in arrival order.
    pub fn recv_all(&mut self, reactor: &Reactor) -> (r: Result<Vec<Vec<u8>>, DecryptError>)
        requires
            old(self).wf(),
        ensures
            final(self).wf(),
            recv_all_returns(*old(self), *final(self), r),
    {
        match self {
            MessageTransport::EncryptedTransport(e) => e.recv_all(reactor),
            MessageTransport::BufferedTransport(b) => Ok(b.recv_all_messages(reactor)),
        }
    }

    /// Advisory: whether the underlying write buffer is below its
    /// high-water mark.
    pub fn has_write_space(&self) -> (r: bool)
        ensures
            r == (self.write_len() < 2048),
    {
        match self {
            MessageTransport::EncryptedTransport(e) => e.has_write_space(),
            MessageTransport::BufferedTransport(b) => b.has_write_space(),
        }
    }

    /// The underlying latched close status.
    pub fn is_closed(&self) -> (r: bool)
        ensures
            r == self.closed(),
    {
        match self {
            MessageTransport::EncryptedTransport(e) => e.is_closed(),
            MessageTransport::BufferedTransport(b) => b.is_closed(),
        }
    }
}

impl Notifiable for MessageTransport {
    /// A message transport is a valid reactor handler whenever its wrapped
    /// layer is well-formed.
    open spec fn inv(&self) -> bool {
        self.wf()
    }

    /// Forward the readiness event to the wrapped layer.
    fn notify(&mut self, reactor: &mut Reactor, event: Event) {
        match self {
            MessageTransport::EncryptedTransport(e) => Notifiable::notify(e, reactor, event),
            MessageTransport::BufferedTransport(b) => BufferedTransport::notify(b, reactor, event),
        }
    }
}

} // verus!
