//! The protocol transport: a thin front over a message transport that
//! optionally compresses outbound messages and decompresses inbound ones.
//! The structured-value codec itself is an outside collaborator consumed at
//! the byte level: this layer moves serialized blobs.

use vstd::prelude::*;

use crate::encrypted_transport::{chunks_of, DecryptError, NONCE_SPACE};
use crate::message_transport::{recv_all_returns, recv_returns, send_updates, MessageTransport};
use crate::notify::{Event, Notifiable};
use crate::scheduler::Reactor;

verus! {

/// The zlib stream that deflate compression produces for the given bytes;
/// it depends on the bytes alone.
pub uninterp spec fn deflated(d: Seq<u8>) -> Seq<u8>;

/// What zlib decompression makes of a byte stream: the decompressed bytes
/// for a well-formed stream, nothing otherwise; it depends on the bytes
/// alone.
pub uninterp spec fn inflated(d: Seq<u8>) -> Option<Seq<u8>>;

/// Relies on libflate's zlib Encoder (deterministic deflate over the bytes
/// alone) and on zlib being lossless: decompressing the result gives back
/// the input.
#[verifier::external_body]
fn compress(data: &[u8]) -> (r: Vec<u8>)
    ensures
        r@ == deflated(data@),
        inflated(r@) == Some(data@),
{
    let sink: Vec<u8> = Vec::with_capacity(data.len());
    let mut encoder = libflate::zlib::Encoder::new(sink).expect("creating the zlib encoder");
    std::io::Write::write_all(&mut encoder, data).expect("compressing a message");
    encoder.finish().into_result().expect("finishing a compressed message")
}

/// Relies on libflate's zlib Decoder: succeeds exactly on a well-formed
/// zlib stream and returns its decompressed bytes, which depend on the
/// stream alone.
#[verifier::external_body]
fn decompress(data: &[u8]) -> (r: Option<Vec<u8>>)
    ensures
        r matches Some(v) ==> inflated(data@) == Some(v@),
        r is None ==> inflated(data@) is None,
{
    let mut decoder = match libflate::zlib::Decoder::new(data) {
        Ok(d) => d,
        Err(_) => {
            return None;
        },
    };
    let mut buf = Vec::new();
    match std::io::Read::read_to_end(&mut decoder, &mut buf) {
        Ok(_) => Some(buf),
        Err(_) => None,
    }
}

/// Why a protocol-level send was refused; both conditions are fatal for
/// the channel in the original taxonomy and are reported before anything
/// is queued.
#[derive(Clone, Copy, Debug, PartialEq, Eq, Structural)]
pub enum SendError {
    /// The (possibly compressed) blob exceeds the 65535-byte limit of the
    /// length-prefix framing.
    TooLong,
    /// The encrypted framing has no nonce headroom left for the blob.
    NonceExhausted,
}

/// Why a protocol-level receive failed.
#[derive(Clone, Copy, Debug, PartialEq, Eq, Structural)]
pub enum ProtocolError {
    /// The encrypted layer failed underneath.
    Decrypt(DecryptError),
    /// A message did not decompress as a zlib stream.
    Decompress,
}

/// The blob actually framed for a message: compressed when the outbound
/// flag is set.
pub open spec fn outbound_blob(compression: bool, m: Seq<u8>) -> Seq<u8> {
    if compression {
        deflated(m)
    } else {
        m
    }
}

/// The structured-message front: a message transport plus the two
/// compression flags, both off by default.
pub struct ProtocolTransport {
    pub mt: MessageTransport,
    pub outbound_compression: bool,
    pub inbound_compression: bool,
}

impl ProtocolTransport {
    /// Well-formedness of the wrapped transport.
    pub open spec fn wf(self) -> bool {
        self.mt.wf()
    }

    /// Wrap a message transport with compression off in both directions.
    pub fn create(transport: MessageTransport) -> (r: ProtocolTransport)
        ensures
            r.mt == transport,
            !r.outbound_compression,
            !r.inbound_compression,
    {
        ProtocolTransport { mt: transport, outbound_compression: false, inbound_compression: false }
    }

    /// Queue one serialized message: compress it if the outbound flag is
    /// set, then frame the blob — unless the blob breaks the framing's
    /// limit (too long for the length prefix, or no nonce headroom), which
    /// is reported with nothing queued.
    pub fn send(&mut self, reactor: &Reactor, message: &[u8]) -> (r: Result<(), SendError>)
        requires
            old(self).wf(),
        ensures
            final(self).wf(),
            final(self).outbound_compression == old(self).outbound_compression,
            final(self).inbound_compression == old(self).inbound_compression,
            r is Ok ==> send_updates(
                old(self).mt,
                final(self).mt,
                outbound_blob(old(self).outbound_compression, message@),
            ),
            r is Err ==> *final(self) == *old(self),
            old(self).mt is BufferedTransport ==> (r == Err::<(), SendError>(SendError::TooLong)
                <==> outbound_blob(old(self).outbound_compression, message@).len() > 65535),
            old(self).mt matches MessageTransport::EncryptedTransport(e0) ==> (r == Err::<
                (),
                SendError,
            >(SendError::NonceExhausted) <==> e0.outbound_iv + chunks_of(
                outbound_blob(old(self).outbound_compression, message@),
            ).len() > NONCE_SPACE),
    {
        let mut payload: Vec<u8> = Vec::new();
        if self.outbound_compression {
            payload = compress(message);
        } else {
            payload.extend_from_slice(message);
            proof {
                assert(payload@ =~= message@);
            }
        }
        match &self.mt {
            MessageTransport::BufferedTransport(_) => {
                if payload.len() > 65535 {
                    return Err(SendError::TooLong);
                }
            },
            MessageTransport::EncryptedTransport(e) => {
                let frames = payload.len() / 255 + 1;
                proof {
                    crate::encrypted_transport::lemma_chunks_len(payload@);
                }
                if e.outbound_iv > NONCE_SPACE - frames as u128 {
                    return Err(SendError::NonceExhausted);
                }
            },
        }
        self.mt.send(reactor, payload.as_slice());
        Ok(())
    }

    /// Dequeue one message: whatever the wrapped transport returns,
    /// decompressed first when the inbound flag is set.  A message that is
    /// not a well-formed zlib stream fails, as does the encrypted layer
    /// underneath.
    pub fn recv(&mut self, reactor: &Reactor) -> (r: Result<Option<Vec<u8>>, ProtocolError>)
        requires
            old(self).wf(),
        ensures
            final(self).wf(),
            final(self).outbound_compression == old(self).outbound_compression,
            final(self).inbound_compression == old(self).inbound_compression,
            exists|inner: Result<Option<Vec<u8>>, DecryptError>|
                {
                    &&& #[trigger] recv_returns(old(self).mt, final(self).mt, inner)
                    &&& match inner {
                        Err(e) => r == Err::<Option<Vec<u8>>, ProtocolError>(
                            ProtocolError::Decrypt(e),
                        ),
                        Ok(None) => r == Ok::<Option<Vec<u8>>, ProtocolError>(None),
                        Ok(Some(v)) => if old(self).inbound_compression {
                            match inflated(v@) {
                                Some(d) => r matches Ok(Some(w)) && w@ == d,
                                None => r == Err::<Option<Vec<u8>>, ProtocolError>(
                                    ProtocolError::Decompress,
                                ),
                            }
                        } else {
                            r matches Ok(Some(w)) && w@ == v@
                        },
                    }
                },
    {
        match self.mt.recv(reactor) {
            Err(e) => Err(ProtocolError::Decrypt(e)),
            Ok(None) => Ok(None),
            Ok(Some(v)) => {
                if self.inbound_compression {
                    match decompress(v.as_slice()) {
                        Some(d) => Ok(Some(d)),
                        None => Err(ProtocolError::Decompress),
                    }
                } else {
                    Ok(Some(v))
                }
            },
        }
    }

    /// The tolerant variant of [`ProtocolTransport::recv`]: a message that
    /// does not decompress is reported in place as an empty slot instead of
    /// failing the call.  (Codec-level tolerance — a blob that does not
    /// deserialize — belongs to the codec's caller.)
    pub fn recv_tolerant(&mut self, reactor: &Reactor) -> (r: Result<
        Option<Option<Vec<u8>>>,
        DecryptError,
    >)
        requires
            old(self).wf(),
        ensures
            final(self).wf(),
            final(self).outbound_compression == old(self).outbound_compression,
            final(self).inbound_compression == old(self).inbound_compression,
            exists|inner: Result<Option<Vec<u8>>, DecryptError>|
                {
                    &&& #[trigger] recv_returns(old(self).mt, final(self).mt, inner)
                    &&& match inner {
                        Err(e) => r == Err::<Option<Option<Vec<u8>>>, DecryptError>(e),
                        Ok(None) => r == Ok::<Option<Option<Vec<u8>>>, DecryptError>(None),
                        Ok(Some(v)) => if old(self).inbound_compression {
                            match inflated(v@) {
                                Some(d) => r matches Ok(Some(Some(w))) && w@ == d,
                                None => r == Ok::<Option<Option<Vec<u8>>>, DecryptError>(
                                    Some(None),
                                ),
                            }
                        } else {
                            r matches Ok(Some(Some(w))) && w@ == v@
                        },
                    }
                },
    {
        match self.mt.recv(reactor) {
            Err(e) => Err(e),
            Ok(None) => Ok(None),
            Ok(Some(v)) => {
                if self.inbound_compression {
                    match decompress(v.as_slice()) {
                        Some(d) => Ok(Some(Some(d))),
                        None => Ok(Some(None)),
                    }
                } else {
                    Ok(Some(Some(v)))
                }
            },
        }
    }

    /// Dequeue every message currently available, oldest first, each
    /// decompressed when the inbound flag is set; the first message that is
    /// not a well-formed zlib stream fails the batch.
    pub fn recv_all(&mut self, reactor: &Reactor) -> (r: Result<Vec<Vec<u8>>, ProtocolError>)
        requires
            old(self).wf(),
        ensures
            final(self).wf(),
            final(self).outbound_compression == old(self).outbound_compression,
            final(self).inbound_compression == old(self).inbound_compression,
            exists|inner: Result<Vec<Vec<u8>>, DecryptError>|
                {
                    &&& #[trigger] recv_all_returns(old(self).mt, final(self).mt, inner)
                    &&& match inner {
                        Err(e) => r == Err::<Vec<Vec<u8>>, ProtocolError>(ProtocolError::Decrypt(
                            e,
                        )),
                        Ok(msgs) => if old(self).inbound_compression {
                            match r {
                                Ok(out) => out@.len() == msgs@.len() && (forall|i: int|
                                    0 <= i < msgs@.len() ==> inflated(msgs@[i]@) == Some(
                                        #[trigger] out@[i]@,
                                    )),
                                Err(e) => e == ProtocolError::Decompress && (exists|i: int|
                                    0 <= i < msgs@.len() && #[trigger] inflated(msgs@[i]@)
                                        is None),
                            }
                        } else {
                            r matches Ok(out) && out@.map_values(|m: Vec<u8>| m@)
                                == msgs@.map_values(|m: Vec<u8>| m@)
                        },
                    }
                },
    {
        match self.mt.recv_all(reactor) {
            Err(e) => Err(ProtocolError::Decrypt(e)),
            Ok(msgs) => {
                if !self.inbound_compression {
                    return Ok(msgs);
                }
                let ghost inner_g: Result<Vec<Vec<u8>>, DecryptError> = Ok(msgs);
                let mut out: Vec<Vec<u8>> = Vec::new();
                let mut i: usize = 0;
                while i < msgs.len()
                    invariant
                        0 <= i <= msgs@.len(),
                        out@.len() == i,
                        self.wf(),
                        self.outbound_compression == old(self).outbound_compression,
                        self.inbound_compression == old(self).inbound_compression,
                        old(self).inbound_compression,
                        inner_g == Ok::<Vec<Vec<u8>>, DecryptError>(msgs),
                        recv_all_returns(old(self).mt, self.mt, inner_g),
                        forall|j: int|
                            0 <= j < i ==> inflated(msgs@[j]@) == Some(#[trigger] out@[j]@),
                    decreases msgs@.len() - i,
                {
                    match decompress(msgs[i].as_slice()) {
                        Some(d) => out.push(d),
                        None => {
                            return Err(ProtocolError::Decompress);
                        },
                    }
                    i = i + 1;
                }
                Ok(out)
            },
        }
    }

    /// The tolerant variant of [`ProtocolTransport::recv_all`]: each
    /// message that does not decompress becomes an empty slot in place.
    pub fn recv_all_tolerant(&mut self, reactor: &Reactor) -> (r: Result<
        Vec<Option<Vec<u8>>>,
        DecryptError,
    >)
        requires
            old(self).wf(),
        ensures
            final(self).wf(),
            final(self).outbound_compression == old(self).outbound_compression,
            final(self).inbound_compression == old(self).inbound_compression,
            exists|inner: Result<Vec<Vec<u8>>, DecryptError>|
                {
                    &&& #[trigger] recv_all_returns(old(self).mt, final(self).mt, inner)
                    &&& match inner {
                        Err(e) => r == Err::<Vec<Option<Vec<u8>>>, DecryptError>(e),
                        Ok(msgs) => r matches Ok(out) && out@.len() == msgs@.len() && (forall|
                            i: int,
                        |
                            0 <= i < msgs@.len() ==> {
                                let expect = if old(self).inbound_compression {
                                    inflated(msgs@[i]@)
                                } else {
                                    Some(msgs@[i]@)
                                };
                                match #[trigger] out@[i] {
                                    Some(w) => expect == Some(w@),
                                    None => expect is None,
                                }
                            }),
                    }
                },
    {
        match self.mt.recv_all(reactor) {
            Err(e) => Err(e),
            Ok(msgs) => {
                let ghost inner_g: Result<Vec<Vec<u8>>, DecryptError> = Ok(msgs);
                let mut out: Vec<Option<Vec<u8>>> = Vec::new();
                let mut i: usize = 0;
                while i < msgs.len()
                    invariant
                        0 <= i <= msgs@.len(),
                        out@.len() == i,
                        self.wf(),
                        self.outbound_compression == old(self).outbound_compression,
                        self.inbound_compression == old(self).inbound_compression,
                        inner_g == Ok::<Vec<Vec<u8>>, DecryptError>(msgs),
                        recv_all_returns(old(self).mt, self.mt, inner_g),
                        forall|j: int|
                            0 <= j < i ==> {
                                let expect = if old(self).inbound_compression {
                                    inflated(msgs@[j]@)
                                } else {
                                    Some(msgs@[j]@)
                                };
                                match #[trigger] out@[j] {
                                    Some(w) => expect == Some(w@),
                                    None => expect is None,
                                }
                            },
                    decreases msgs@.len() - i,
                {
                    if self.inbound_compression {
                        match decompress(msgs[i].as_slice()) {
                            Some(d) => out.push(Some(d)),
                            None => out.push(None),
                        }
                    } else {
                        let mut copy: Vec<u8> = Vec::new();
                        copy.extend_from_slice(msgs[i].as_slice());
                        proof {
                            assert(copy@ =~= msgs@[i as int]@);
                        }
                        out.push(Some(copy));
                    }
                    i = i + 1;
                }
                Ok(out)
            },
        }
    }

    /// Advisory: whether the underlying write buffer is below its
    /// high-water mark.
    pub fn has_write_space(&self) -> (r: bool)
        ensures
            r == (self.mt.write_len() < 2048),
    {
        self.mt.has_write_space()
    }

    /// The underlying latched close status.
    pub fn is_closed(&self) -> (r: bool)
        ensures
            r == self.mt.closed(),
    {
        self.mt.is_closed()
    }
}

impl Notifiable for ProtocolTransport {
    /// A protocol transport is a valid reactor handler whenever its wrapped
    /// transport is.
    open spec fn inv(&self) -> bool {
        self.wf()
    }

    /// Forward the readiness event to the wrapped transport.
    fn notify(&mut self, reactor: &mut Reactor, event: Event) {
        Notifiable::notify(&mut self.mt, reactor, event);
    }
}

} // verus!
