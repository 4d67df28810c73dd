//! The encrypted transport: a fixed-frame authenticated-encryption layer
//! that carries arbitrary-length application messages over a buffered
//! transport, with role-separated keys and monotonic nonce counters.
//!
//! Each frame carries 256 bytes of plaintext (one length byte, up to 255
//! payload bytes, zero padding) sealed into 272 wire bytes.  A message is
//! split into 255-byte chunks; the first chunk shorter than 255 bytes ends
//! the message, so a message whose length is a multiple of 255 is followed
//! by an empty terminator frame.

use vstd::prelude::*;

use crate::buffered_transport::BufferedTransport;
use crate::encrypt::{decrypt_frame, derive_key, derived_key, encrypt_frame, sealed};
use crate::notify::{Event, Notifiable};
use crate::scheduler::Reactor;

verus! {

/// The number of distinct nonces the 12-byte big-endian counter encoding
/// can carry: two to the ninety-sixth power.  A counter reaching this value
/// is exhausted.
pub const NONCE_SPACE: u128 = 0x1000000000000000000000000;

/// Which of the two derived keys a side sends with: Alice sends under the
/// "alice"-salted key, Bob under the "bob"-salted key, and each receives
/// under the other's.
#[derive(Clone, Copy, Debug, PartialEq, Eq, Structural)]
pub enum EncryptionPerspective {
    Alice,
    Bob,
}

/// Why the receive path failed; both conditions are protocol-fatal and the
/// transport should be abandoned.
#[derive(Clone, Copy, Debug, PartialEq, Eq, Structural)]
pub enum DecryptError {
    /// A frame failed authentication: corruption, tampering or a counter
    /// out of lockstep.
    AuthFailure,
    /// The inbound nonce counter is exhausted.
    NonceExhausted,
}

/// 256 to the `k`-th power.
pub open spec fn pow256(k: nat) -> int
    decreases k,
{
    if k == 0 {
        1
    } else {
        256 * pow256((k - 1) as nat)
    }
}

/// Powers of 256 are positive.
proof fn lemma_pow256_pos(k: nat)
    ensures
        pow256(k) >= 1,
    decreases k,
{
    if k > 0 {
        lemma_pow256_pos((k - 1) as nat);
    }
}

/// The 12-byte big-endian encoding of a nonce counter, high-order zeros
/// first.
pub open spec fn nonce_bytes(c: u128) -> Seq<u8> {
    Seq::new(12, |i: int| ((c as int / pow256((11 - i) as nat)) % 256) as u8)
}

/// The payload chunking of a message: full 255-byte chunks, then a final
/// chunk shorter than 255 bytes (possibly empty) that ends the message.
pub open spec fn chunks_of(m: Seq<u8>) -> Seq<Seq<u8>>
    decreases m.len(),
{
    if m.len() < 255 {
        seq![m]
    } else {
        seq![m.take(255)] + chunks_of(m.skip(255))
    }
}

/// One frame's 256-byte plaintext: the payload length, the payload, zero
/// padding.
pub open spec fn padded_frame(c: Seq<u8>) -> Seq<u8> {
    seq![c.len() as u8] + c + Seq::new((255 - c.len()) as nat, |i: int| 0u8)
}

/// The wire bytes of a list of chunks sealed under `key` with consecutive
/// nonce counters starting at `c`.
pub open spec fn frames_wire(key: Seq<u8>, c: u128, chunks: Seq<Seq<u8>>) -> Seq<u8>
    decreases chunks.len(),
{
    if chunks.len() == 0 {
        Seq::empty()
    } else {
        sealed(key, nonce_bytes(c), padded_frame(chunks[0])) + frames_wire(
            key,
            (c + 1) as u128,
            chunks.skip(1),
        )
    }
}

/// The wire bytes of one whole message sealed under `key` starting at nonce
/// counter `c`.
pub open spec fn wire_of(key: Seq<u8>, c: u128, m: Seq<u8>) -> Seq<u8> {
    frames_wire(key, c, chunks_of(m))
}

/// The salt of the "alice"-side key, the bytes of "alice".
pub open spec fn alice_salt() -> Seq<u8> {
    seq![97u8, 108u8, 105u8, 99u8, 101u8]
}

/// The salt of the "bob"-side key, the bytes of "bob".
pub open spec fn bob_salt() -> Seq<u8> {
    seq![98u8, 111u8, 98u8]
}

/// The key a side seals outbound frames with.
pub open spec fn outbound_key_of(p: EncryptionPerspective, seed: Seq<u8>) -> Seq<u8> {
    match p {
        EncryptionPerspective::Alice => derived_key(alice_salt(), seed),
        EncryptionPerspective::Bob => derived_key(bob_salt(), seed),
    }
}

/// The key a side opens inbound frames with: the peer's outbound key.
pub open spec fn inbound_key_of(p: EncryptionPerspective, seed: Seq<u8>) -> Seq<u8> {
    match p {
        EncryptionPerspective::Alice => derived_key(bob_salt(), seed),
        EncryptionPerspective::Bob => derived_key(alice_salt(), seed),
    }
}

/// The receiver's reading of whole-frame wire bytes: under `key`, starting
/// at counter `c` with partial message `acc`, the wire decodes to exactly
/// the completed messages `msgs`, leaving the counter at `c2` and the
/// partial message at `acc2`.  Each 272-byte frame must open (under the
/// next counter in sequence, which must not be exhausted) to a 256-byte
/// plaintext; its leading length byte selects the payload, and a frame
/// whose payload is shorter than 255 bytes completes a message.
pub open spec fn wire_decodes(
    key: Seq<u8>,
    c: u128,
    acc: Seq<u8>,
    wire: Seq<u8>,
    c2: u128,
    acc2: Seq<u8>,
    msgs: Seq<Seq<u8>>,
) -> bool
    decreases wire.len(),
{
    if wire.len() == 0 {
        c2 == c && acc2 == acc && msgs == Seq::<Seq<u8>>::empty()
    } else if wire.len() < 272 {
        false
    } else {
        c < NONCE_SPACE && exists|pt: Seq<u8>|
            {
                &&& pt.len() == 256
                &&& #[trigger] sealed(key, nonce_bytes(c), pt) == wire.take(272)
                &&& ({
                    let len = pt[0] as int;
                    let payload = pt.subrange(1, 1 + len);
                    if len < 255 {
                        &&& msgs.len() >= 1
                        &&& msgs[0] == acc + payload
                        &&& wire_decodes(
                            key,
                            (c + 1) as u128,
                            Seq::empty(),
                            wire.skip(272),
                            c2,
                            acc2,
                            msgs.skip(1),
                        )
                    } else {
                        wire_decodes(
                            key,
                            (c + 1) as u128,
                            acc + payload,
                            wire.skip(272),
                            c2,
                            acc2,
                            msgs,
                        )
                    }
                })
            }
    }
}

/// The length of the whole-frame prefix of a read buffer: everything but
/// the trailing partial frame.
pub open spec fn whole_frames(rb: Seq<u8>) -> int {
    rb.len() - rb.len() % 272
}

/// The fixed-frame authenticated-encryption adapter.
pub struct EncryptedTransport {
    pub bt: BufferedTransport,
    pub perspective: EncryptionPerspective,
    pub inbound_iv: u128,
    pub outbound_iv: u128,
    pub inbound_cleartext: Vec<u8>,
    pub inbound_messages: Vec<Vec<u8>>,
    pub inbound_key: Vec<u8>,
    pub outbound_key: Vec<u8>,
}

/// Compute the 12-byte big-endian encoding of a counter.
fn iv_bytes(c: u128) -> (r: Vec<u8>)
    ensures
        r@ == nonce_bytes(c),
        r@.len() == 12,
{
    let mut out: Vec<u8> = Vec::new();
    let mut d: u128 = 0x10000000000000000000000;
    proof {
        assert(pow256(11) == 0x10000000000000000000000int) by {
            reveal_with_fuel(pow256, 13);
        }
    }
    let mut i: usize = 0;
    while i < 12
        invariant
            0 <= i <= 12,
            out@.len() == i,
            i < 12 ==> d == pow256((11 - i) as nat),
            forall|j: int|
                0 <= j < i ==> out@[j] == ((c as int / pow256((11 - j) as nat)) % 256) as u8,
        decreases 12 - i,
    {
        proof {
            lemma_pow256_pos((11 - i) as nat);
        }
        out.push(((c / d) % 256) as u8);
        if i < 11 {
            proof {
                assert(pow256((11 - i) as nat) == 256 * pow256((10 - i) as nat));
                assert((256 * pow256((10 - i) as nat)) / 256 == pow256((10 - i) as nat));
            }
            d = d / 256;
        }
        i = i + 1;
    }
    proof {
        assert(out@ =~= nonce_bytes(c));
    }
    out
}

/// Emit the current value of a nonce counter as 12 big-endian bytes, then
/// increment it.  Exhaustion of the counter space is excluded here and
/// checked by the callers.
fn use_iv(num: &mut u128) -> (r: Vec<u8>)
    requires
        *old(num) < NONCE_SPACE,
    ensures
        r@ == nonce_bytes(*old(num)),
        r@.len() == 12,
        *final(num) == *old(num) + 1,
{
    let r = iv_bytes(*num);
    *num = *num + 1;
    r
}

/// The bytes of "alice", the outbound salt of the Alice side.
fn alice_salt_bytes() -> (r: Vec<u8>)
    ensures
        r@ == alice_salt(),
{
    let mut v: Vec<u8> = Vec::new();
    v.push(97u8);
    v.push(108u8);
    v.push(105u8);
    v.push(99u8);
    v.push(101u8);
    proof {
        assert(v@ =~= alice_salt());
    }
    v
}

/// The bytes of "bob", the outbound salt of the Bob side.
fn bob_salt_bytes() -> (r: Vec<u8>)
    ensures
        r@ == bob_salt(),
{
    let mut v: Vec<u8> = Vec::new();
    v.push(98u8);
    v.push(111u8);
    v.push(98u8);
    proof {
        assert(v@ =~= bob_salt());
    }
    v
}

impl EncryptedTransport {
    /// Well-formedness: the buffered transport is well-formed and both keys
    /// have the 32 bytes AES-256-GCM takes.
    pub open spec fn wf(self) -> bool {
        &&& self.bt.wf()
        &&& self.inbound_key@.len() == 32
        &&& self.outbound_key@.len() == 32
    }

    /// The role, the keys and the buffered transport's identity never
    /// change underneath an operation.
    pub open spec fn same_codec(self, other: EncryptedTransport) -> bool {
        &&& self.perspective == other.perspective
        &&& self.inbound_key@ == other.inbound_key@
        &&& self.outbound_key@ == other.outbound_key@
        &&& self.bt.same_identity(other.bt)
    }

    /// Derive the two role keys from a shared seed: the "alice"-salted key
    /// first, the "bob"-salted key second.
    pub fn make_keys(seed: &[u8]) -> (r: (Vec<u8>, Vec<u8>))
        ensures
            r.0@ == derived_key(alice_salt(), seed@),
            r.1@ == derived_key(bob_salt(), seed@),
            r.0@.len() == 32,
            r.1@.len() == 32,
    {
        let a = alice_salt_bytes();
        let b = bob_salt_bytes();
        (derive_key(a.as_slice(), seed), derive_key(b.as_slice(), seed))
    }

    /// Wrap a buffered transport: derive both role keys from the seed,
    /// assign them by perspective, and start both nonce counters at zero
    /// with empty reassembly state.
    pub fn create(
        transport: BufferedTransport,
        perspective: EncryptionPerspective,
        key_seed: &[u8],
    ) -> (r: EncryptedTransport)
        requires
            transport.wf(),
        ensures
            r.wf(),
            r.bt == transport,
            r.perspective == perspective,
            r.inbound_iv == 0,
            r.outbound_iv == 0,
            r.inbound_cleartext@.len() == 0,
            r.inbound_messages@.len() == 0,
            r.outbound_key@ == outbound_key_of(perspective, key_seed@),
            r.inbound_key@ == inbound_key_of(perspective, key_seed@),
    {
        let (akey, bkey) = EncryptedTransport::make_keys(key_seed);
        let (ikey, okey) = match perspective {
            EncryptionPerspective::Alice => (bkey, akey),
            EncryptionPerspective::Bob => (akey, bkey),
        };
        EncryptedTransport {
            bt: transport,
            perspective,
            inbound_iv: 0,
            outbound_iv: 0,
            inbound_cleartext: Vec::new(),
            inbound_messages: Vec::new(),
            inbound_key: ikey,
            outbound_key: okey,
        }
    }

    /// Re-derive both keys in place from a new seed, keeping the role
    /// assignment.  The nonce counters are not reset: callers that need
    /// fresh counters must build a fresh transport.
    pub fn rekey(&mut self, seed: &[u8])
        requires
            old(self).wf(),
        ensures
            final(self).wf(),
            final(self).outbound_key@ == outbound_key_of(old(self).perspective, seed@),
            final(self).inbound_key@ == inbound_key_of(old(self).perspective, seed@),
            final(self).perspective == old(self).perspective,
            final(self).inbound_iv == old(self).inbound_iv,
            final(self).outbound_iv == old(self).outbound_iv,
            final(self).inbound_cleartext@ == old(self).inbound_cleartext@,
            final(self).inbound_messages@ == old(self).inbound_messages@,
            final(self).bt == old(self).bt,
    {
        let (akey, bkey) = EncryptedTransport::make_keys(seed);
        match self.perspective {
            EncryptionPerspective::Alice => {
                self.inbound_key = bkey;
                self.outbound_key = akey;
            },
            EncryptionPerspective::Bob => {
                self.inbound_key = akey;
                self.outbound_key = bkey;
            },
        }
    }

    /// Whether every sealed byte has been handed to the OS: the underlying
    /// write buffer is empty.
    pub fn is_drained_forward(&self) -> (r: bool)
        ensures
            r == (self.bt.write_buffer@.len() == 0),
    {
        self.bt.write_buffer.len() == 0
    }

    /// The underlying transport's latched close status.
    pub fn is_closed(&self) -> (r: bool)
        ensures
            r == self.bt.closed,
    {
        self.bt.is_closed()
    }

    /// Advisory: whether the underlying write buffer is below its
    /// high-water mark.
    pub fn has_write_space(&self) -> (r: bool)
        ensures
            r == (self.bt.write_buffer@.len() < 2048),
    {
        self.bt.has_write_space()
    }

    /// Seal one chunk of at most 255 payload bytes into a 272-byte wire
    /// frame under the outbound key and the next outbound nonce, and hand
    /// it to the buffered transport.
    pub fn send_chunk(&mut self, reactor: &Reactor, chunk: &[u8])
        requires
            old(self).wf(),
            chunk@.len() <= 255,
            old(self).outbound_iv < NONCE_SPACE,
        ensures
            final(self).wf(),
            final(self).same_codec(*old(self)),
            final(self).outbound_iv == old(self).outbound_iv + 1,
            final(self).inbound_iv == old(self).inbound_iv,
            final(self).inbound_cleartext@ == old(self).inbound_cleartext@,
            final(self).inbound_messages@ == old(self).inbound_messages@,
            final(self).bt.write_buffer@ == old(self).bt.write_buffer@ + sealed(
                old(self).outbound_key@,
                nonce_bytes(old(self).outbound_iv),
                padded_frame(chunk@),
            ),
            final(self).bt.read_buffer@ == old(self).bt.read_buffer@,
            final(self).bt.closed == old(self).bt.closed,
            final(self).bt.draining == old(self).bt.draining,
            final(self).bt.registered == old(self).bt.registered,
            final(self).bt.underlying == old(self).bt.underlying,
    {
        let chunk_size = chunk.len();
        let mut frame: Vec<u8> = Vec::new();
        frame.push(chunk_size as u8);
        frame.extend_from_slice(chunk);
        let ghost pre = frame@;
        frame.resize(256, 0u8);
        proof {
            assert(pre =~= seq![chunk@.len() as u8] + chunk@);
            assert forall|i: int| 0 <= i < pre.len() implies frame@[i] == pre[i] by {
                assert(frame@.subrange(0, pre.len() as int)[i] == pre[i]);
            }
            assert forall|i: int| pre.len() <= i < 256 implies frame@[i] == 0u8 by {
                assert(vstd::pervasive::cloned::<u8>(0u8, frame@[i]));
            }
            assert(frame@ =~= padded_frame(chunk@));
        }
        let iv = use_iv(&mut self.outbound_iv);
        encrypt_frame(&mut frame, self.outbound_key.as_slice(), iv.as_slice());
        self.bt.put(reactor, frame.as_slice());
    }

    /// Seal a whole message: split it into 255-byte chunks, frame each, and
    /// end with the first chunk shorter than 255 bytes — an extra empty
    /// frame when the message length is a multiple of 255 (an empty message
    /// is one empty frame).  Appends exactly the message's wire bytes to
    /// the underlying write buffer and advances the outbound counter by the
    /// number of frames; the counter space must have room, as running out
    /// of nonces is fatal.
    pub fn send(&mut self, reactor: &Reactor, message: &[u8])
        requires
            old(self).wf(),
            old(self).outbound_iv + chunks_of(message@).len() <= NONCE_SPACE,
        ensures
            final(self).wf(),
            final(self).same_codec(*old(self)),
            final(self).outbound_iv == old(self).outbound_iv + chunks_of(message@).len(),
            final(self).inbound_iv == old(self).inbound_iv,
            final(self).inbound_cleartext@ == old(self).inbound_cleartext@,
            final(self).inbound_messages@ == old(self).inbound_messages@,
            final(self).bt.write_buffer@ == old(self).bt.write_buffer@ + wire_of(
                old(self).outbound_key@,
                old(self).outbound_iv,
                message@,
            ),
            final(self).bt.read_buffer@ == old(self).bt.read_buffer@,
            final(self).bt.closed == old(self).bt.closed,
            final(self).bt.draining == old(self).bt.draining,
            final(self).bt.underlying == old(self).bt.underlying,
    {
        let ghost key = old(self).outbound_key@;
        let ghost iv0 = old(self).outbound_iv;
        let ghost wb0 = old(self).bt.write_buffer@;
        let mut rest: Vec<u8> = Vec::new();
        rest.extend_from_slice(message);
        proof {
            assert(rest@ =~= message@);
        }
        while rest.len() >= 255
            invariant
                old(self).wf(),
                self.wf(),
                self.same_codec(*old(self)),
                self.inbound_iv == old(self).inbound_iv,
                self.inbound_cleartext@ == old(self).inbound_cleartext@,
                self.inbound_messages@ == old(self).inbound_messages@,
                self.bt.read_buffer@ == old(self).bt.read_buffer@,
                self.bt.closed == old(self).bt.closed,
                self.bt.draining == old(self).bt.draining,
                self.bt.registered == old(self).bt.registered,
                self.bt.underlying == old(self).bt.underlying,
                self.outbound_key@ == key,
                self.outbound_iv as int + chunks_of(rest@).len() == iv0 as int + chunks_of(
                    message@,
                ).len(),
                self.outbound_iv >= iv0,
                iv0 + chunks_of(message@).len() <= NONCE_SPACE,
                wb0 + wire_of(key, iv0, message@) =~= self.bt.write_buffer@ + frames_wire(
                    key,
                    self.outbound_iv,
                    chunks_of(rest@),
                ),
            decreases rest@.len(),
        {
            let ghost rest_pre = rest@;
            let ghost iv_pre = self.outbound_iv;
            let ghost wb_pre = self.bt.write_buffer@;
            let tail = rest.split_off(255);
            proof {
                assert(rest@ =~= rest_pre.take(255));
                assert(tail@ =~= rest_pre.skip(255));
                assert(chunks_of(rest_pre) == seq![rest_pre.take(255)] + chunks_of(
                    rest_pre.skip(255),
                ));
                assert(chunks_of(rest_pre).len() == 1 + chunks_of(rest_pre.skip(255)).len());
                assert(chunks_of(rest_pre)[0] == rest_pre.take(255));
                assert(chunks_of(rest_pre).skip(1) =~= chunks_of(rest_pre.skip(255)));
            }
            self.send_chunk(reactor, rest.as_slice());
            rest = tail;
            proof {
                assert(frames_wire(key, iv_pre, chunks_of(rest_pre)) == sealed(
                    key,
                    nonce_bytes(iv_pre),
                    padded_frame(rest_pre.take(255)),
                ) + frames_wire(key, (iv_pre + 1) as u128, chunks_of(rest_pre).skip(1)));
                assert(wb_pre + frames_wire(key, iv_pre, chunks_of(rest_pre))
                    =~= self.bt.write_buffer@ + frames_wire(key, self.outbound_iv, chunks_of(
                    rest@,
                )));
            }
        }
        let ghost rest_pre = rest@;
        let ghost iv_pre = self.outbound_iv;
        let ghost wb_pre = self.bt.write_buffer@;
        self.send_chunk(reactor, rest.as_slice());
        proof {
            assert(chunks_of(rest_pre) == seq![rest_pre]);
            assert(chunks_of(rest_pre)[0] == rest_pre);
            assert(frames_wire(key, iv_pre, chunks_of(rest_pre)) =~= sealed(
                key,
                nonce_bytes(iv_pre),
                padded_frame(rest_pre),
            ) + frames_wire(key, (iv_pre + 1) as u128, chunks_of(rest_pre).skip(1)));
            assert(chunks_of(rest_pre).skip(1) =~= Seq::<Seq<u8>>::empty());
            assert(self.bt.write_buffer@ =~= wb0 + wire_of(key, iv0, message@));
        }
    }

    /// The reassembled messages waiting to be received, as byte sequences.
    pub open spec fn msgs_view(self) -> Seq<Seq<u8>> {
        self.inbound_messages@.map_values(|v: Vec<u8>| v@)
    }

    /// Open one 272-byte wire frame under the inbound key and the next
    /// inbound nonce, append its payload to the partial-message
    /// accumulator, and cut a completed message when the payload is not
    /// full.  Fails, protocol-fatally, on an exhausted counter or a frame
    /// that does not authenticate.
    fn decrypt_chunk(&mut self, frame: Vec<u8>) -> (r: Result<(), DecryptError>)
        requires
            old(self).wf(),
            frame@.len() == 272,
        ensures
            final(self).wf(),
            final(self).same_codec(*old(self)),
            final(self).bt == old(self).bt,
            final(self).outbound_iv == old(self).outbound_iv,
            r matches Err(e) ==> ({
                ||| (e == DecryptError::NonceExhausted && old(self).inbound_iv >= NONCE_SPACE
                    && *final(self) == *old(self))
                ||| (e == DecryptError::AuthFailure && old(self).inbound_iv < NONCE_SPACE
                    && (forall|pt: Seq<u8>|
                        sealed(old(self).inbound_key@, nonce_bytes(old(self).inbound_iv), pt)
                            != frame@))
            }),
            r is Err ==> final(self).msgs_view() == old(self).msgs_view(),
            r is Ok ==> ({
                &&& old(self).inbound_iv < NONCE_SPACE
                &&& final(self).inbound_iv == old(self).inbound_iv + 1
                &&& exists|pt: Seq<u8>|
                    {
                        &&& pt.len() == 256
                        &&& #[trigger] sealed(
                            old(self).inbound_key@,
                            nonce_bytes(old(self).inbound_iv),
                            pt,
                        ) == frame@
                        &&& (forall|m: Seq<u8>|
                            sealed(old(self).inbound_key@, nonce_bytes(old(self).inbound_iv), m)
                                == frame@ ==> m == pt)
                        &&& ({
                            let len = pt[0] as int;
                            let payload = pt.subrange(1, 1 + len);
                            if len < 255 {
                                &&& final(self).inbound_cleartext@ == Seq::<u8>::empty()
                                &&& final(self).msgs_view() == old(self).msgs_view().push(
                                    old(self).inbound_cleartext@ + payload,
                                )
                            } else {
                                &&& final(self).inbound_cleartext@ == old(self).inbound_cleartext@
                                    + payload
                                &&& final(self).msgs_view() == old(self).msgs_view()
                            }
                        })
                    }
            }),
    {
        if self.inbound_iv >= NONCE_SPACE {
            return Err(DecryptError::NonceExhausted);
        }
        let iv = use_iv(&mut self.inbound_iv);
        match decrypt_frame(&frame, self.inbound_key.as_slice(), iv.as_slice()) {
            None => Err(DecryptError::AuthFailure),
            Some(pt) => {
                proof {
                    assert(sealed(self.inbound_key@, nonce_bytes(old(self).inbound_iv), pt@).len()
                        == pt@.len() + 16);
                }
                let text_len = pt[0] as usize;
                let ghost pt_view = pt@;
                let mut body = pt;
                body.remove(0);
                body.truncate(text_len);
                proof {
                    assert(body@ =~= pt_view.subrange(1, 1 + text_len as int));
                }
                let ghost msgs_pre = self.msgs_view();
                let ghost acc_pre = self.inbound_cleartext@;
                self.inbound_cleartext.append(&mut body);
                if text_len < 255 {
                    let mut msg: Vec<u8> = Vec::new();
                    core::mem::swap(&mut self.inbound_cleartext, &mut msg);
                    self.inbound_messages.push(msg);
                    proof {
                        assert(self.msgs_view() =~= msgs_pre.push(
                            acc_pre + pt_view.subrange(1, 1 + text_len as int),
                        ));
                    }
                }
                Ok(())
            },
        }
    }

    /// Drain the buffered transport in whole-frame units and decode every
    /// frame in order: whatever the whole-frame prefix of the read buffer
    /// decodes to from the current counter and accumulator, that is what
    /// the counter, the accumulator and the message queue become.  A frame
    /// that does not authenticate, or an exhausted counter, fails
    /// protocol-fatally.
    fn decrypt_available(&mut self, reactor: &Reactor) -> (r: Result<(), DecryptError>)
        requires
            old(self).wf(),
        ensures
            final(self).wf(),
            final(self).same_codec(*old(self)),
            final(self).outbound_iv == old(self).outbound_iv,
            final(self).bt.write_buffer@ == old(self).bt.write_buffer@,
            final(self).bt.closed == old(self).bt.closed,
            final(self).bt.draining == old(self).bt.draining,
            final(self).bt.registered == old(self).bt.registered,
            final(self).bt.underlying == old(self).bt.underlying,
            r is Ok ==> final(self).bt.read_buffer@ == old(self).bt.read_buffer@.skip(
                whole_frames(old(self).bt.read_buffer@),
            ),
            forall|c2: u128, a2: Seq<u8>, ms: Seq<Seq<u8>>|
                wire_decodes(
                    old(self).inbound_key@,
                    old(self).inbound_iv,
                    old(self).inbound_cleartext@,
                    old(self).bt.read_buffer@.take(whole_frames(old(self).bt.read_buffer@)),
                    c2,
                    a2,
                    ms,
                ) ==> (r is Ok && final(self).inbound_iv == c2 && final(self).inbound_cleartext@
                    == a2 && final(self).msgs_view() == old(self).msgs_view() + ms),
    {
        let ghost key0 = old(self).inbound_key@;
        let ghost iv0 = old(self).inbound_iv;
        let ghost acc0 = old(self).inbound_cleartext@;
        let ghost msgs0 = old(self).msgs_view();
        let avail = self.bt.available();
        let whole = avail - avail % 272;
        proof {
            vstd::arithmetic::div_mod::lemma_fundamental_div_mod(avail as int, 272);
            vstd::arithmetic::div_mod::lemma_mod_multiples_basic(avail as int / 272, 272);
            assert(whole as int == whole_frames(old(self).bt.read_buffer@));
            assert(whole as int % 272 == 0);
        }
        let ghost w = old(self).bt.read_buffer@.take(whole as int);
        if whole == 0 {
            proof {
                assert(w =~= Seq::<u8>::empty());
                assert(old(self).bt.read_buffer@.skip(0) =~= old(self).bt.read_buffer@);
                assert(msgs0 + Seq::<Seq<u8>>::empty() =~= msgs0);
            }
            return Ok(());
        }
        let data = match self.bt.take_chunk(reactor, whole) {
            Some(d) => d,
            None => {
                proof {
                    assert(false);
                }
                return Err(DecryptError::AuthFailure);
            },
        };
        let mut rest = data;
        let ghost mut produced: Seq<Seq<u8>> = Seq::empty();
        proof {
            assert(msgs0 + produced =~= msgs0);
            assert(rest@ == w);
            assert forall|c2: u128, a2: Seq<u8>, ms: Seq<Seq<u8>>|
                wire_decodes(key0, iv0, acc0, w, c2, a2, ms) implies (ms.len() >= produced.len()
                && ms.take(produced.len() as int) == produced && wire_decodes(
                key0,
                self.inbound_iv,
                self.inbound_cleartext@,
                rest@,
                c2,
                a2,
                ms.skip(produced.len() as int),
            )) by {
                assert(ms.take(0) =~= Seq::<Seq<u8>>::empty());
                assert(ms.skip(0) =~= ms);
            }
        }
        while rest.len() > 0
            invariant
                old(self).wf(),
                self.wf(),
                self.same_codec(*old(self)),
                self.inbound_key@ == key0,
                key0 == old(self).inbound_key@,
                iv0 == old(self).inbound_iv,
                acc0 == old(self).inbound_cleartext@,
                msgs0 == old(self).msgs_view(),
                w == old(self).bt.read_buffer@.take(whole_frames(old(self).bt.read_buffer@)),
                self.outbound_iv == old(self).outbound_iv,
                self.bt.write_buffer@ == old(self).bt.write_buffer@,
                self.bt.closed == old(self).bt.closed,
                self.bt.draining == old(self).bt.draining,
                self.bt.registered == old(self).bt.registered,
                self.bt.underlying == old(self).bt.underlying,
                self.bt.read_buffer@ == old(self).bt.read_buffer@.skip(
                    whole_frames(old(self).bt.read_buffer@),
                ),
                rest@.len() % 272 == 0,
                self.msgs_view() == msgs0 + produced,
                forall|c2: u128, a2: Seq<u8>, ms: Seq<Seq<u8>>|
                    wire_decodes(key0, iv0, acc0, w, c2, a2, ms) ==> (ms.len() >= produced.len()
                        && ms.take(produced.len() as int) == produced && wire_decodes(
                        key0,
                        self.inbound_iv,
                        self.inbound_cleartext@,
                        rest@,
                        c2,
                        a2,
                        ms.skip(produced.len() as int),
                    )),
            decreases rest@.len(),
        {
            let ghost rest_pre = rest@;
            let ghost iv_pre = self.inbound_iv;
            let ghost acc_pre = self.inbound_cleartext@;
            let ghost produced_pre = produced;
            let tail = rest.split_off(272);
            proof {
                assert(rest@ =~= rest_pre.take(272));
                assert(tail@ =~= rest_pre.skip(272));
            }
            let step = self.decrypt_chunk(rest);
            match step {
                Ok(()) => {
                    proof {
                        if exists|c2: u128, a2: Seq<u8>, ms: Seq<Seq<u8>>|
                            wire_decodes(key0, iv0, acc0, w, c2, a2, ms) {
                            let (c2, a2, ms) = choose|c2: u128, a2: Seq<u8>, ms: Seq<Seq<u8>>|
                                wire_decodes(key0, iv0, acc0, w, c2, a2, ms);
                        }
                        let pt_exec = choose|pt: Seq<u8>|
                            {
                                &&& pt.len() == 256
                                &&& #[trigger] sealed(key0, nonce_bytes(iv_pre), pt)
                                    == rest_pre.take(272)
                                &&& (forall|m: Seq<u8>|
                                    sealed(key0, nonce_bytes(iv_pre), m) == rest_pre.take(272)
                                        ==> m == pt)
                                &&& ({
                                    let len = pt[0] as int;
                                    let payload = pt.subrange(1, 1 + len);
                                    if len < 255 {
                                        &&& self.inbound_cleartext@ == Seq::<u8>::empty()
                                        &&& self.msgs_view() == (msgs0 + produced_pre).push(
                                            acc_pre + payload,
                                        )
                                    } else {
                                        &&& self.inbound_cleartext@ == acc_pre + payload
                                        &&& self.msgs_view() == msgs0 + produced_pre
                                    }
                                })
                            };
                        let len_exec = pt_exec[0] as int;
                        if len_exec < 255 {
                            produced = produced_pre.push(
                                acc_pre + pt_exec.subrange(1, 1 + len_exec),
                            );
                            assert(self.msgs_view() =~= msgs0 + produced);
                        }
                        assert forall|c2: u128, a2: Seq<u8>, ms: Seq<Seq<u8>>|
                            wire_decodes(key0, iv0, acc0, w, c2, a2, ms) implies (ms.len()
                            >= produced.len() && ms.take(produced.len() as int) == produced
                            && wire_decodes(
                            key0,
                            self.inbound_iv,
                            self.inbound_cleartext@,
                            tail@,
                            c2,
                            a2,
                            ms.skip(produced.len() as int),
                        )) by {
                            let ms_rest = ms.skip(produced_pre.len() as int);
                            assert(wire_decodes(key0, iv_pre, acc_pre, rest_pre, c2, a2, ms_rest));
                            let pt_spec = choose|pt: Seq<u8>|
                                {
                                    &&& pt.len() == 256
                                    &&& #[trigger] sealed(key0, nonce_bytes(iv_pre), pt)
                                        == rest_pre.take(272)
                                    &&& ({
                                        let len = pt[0] as int;
                                        let payload = pt.subrange(1, 1 + len);
                                        if len < 255 {
                                            &&& ms_rest.len() >= 1
                                            &&& ms_rest[0] == acc_pre + payload
                                            &&& wire_decodes(
                                                key0,
                                                (iv_pre + 1) as u128,
                                                Seq::empty(),
                                                rest_pre.skip(272),
                                                c2,
                                                a2,
                                                ms_rest.skip(1),
                                            )
                                        } else {
                                            wire_decodes(
                                                key0,
                                                (iv_pre + 1) as u128,
                                                acc_pre + payload,
                                                rest_pre.skip(272),
                                                c2,
                                                a2,
                                                ms_rest,
                                            )
                                        }
                                    })
                                };
                            assert(pt_spec == pt_exec);
                            assert(tail@ == rest_pre.skip(272));
                            if len_exec < 255 {
                                assert(ms_rest[0] == acc_pre + pt_exec.subrange(1, 1 + len_exec));
                                assert(ms.take(produced.len() as int) =~= produced_pre.push(
                                    ms_rest[0],
                                ));
                                assert(ms.skip(produced.len() as int) =~= ms_rest.skip(1));
                            }
                        }
                    }
                    rest = tail;
                },
                Err(e) => {
                    proof {
                        assert forall|c2: u128, a2: Seq<u8>, ms: Seq<Seq<u8>>|
                            !wire_decodes(key0, iv0, acc0, w, c2, a2, ms) by {
                            if wire_decodes(key0, iv0, acc0, w, c2, a2, ms) {
                                let ms_rest = ms.skip(produced_pre.len() as int);
                                assert(wire_decodes(
                                    key0,
                                    iv_pre,
                                    acc_pre,
                                    rest_pre,
                                    c2,
                                    a2,
                                    ms_rest,
                                ));
                                assert(rest_pre.len() >= 272);
                                assert(iv_pre < NONCE_SPACE);
                                assert(false);
                            }
                        }
                    }
                    return Err(e);
                },
            }
        }
        proof {
            assert forall|c2: u128, a2: Seq<u8>, ms: Seq<Seq<u8>>|
                wire_decodes(key0, iv0, acc0, w, c2, a2, ms) implies (self.inbound_iv == c2
                && self.inbound_cleartext@ == a2 && self.msgs_view() == msgs0 + ms) by {
                let ms_rest = ms.skip(produced.len() as int);
                assert(wire_decodes(key0, self.inbound_iv, self.inbound_cleartext@, rest@, c2, a2,
                    ms_rest));
                assert(ms_rest == Seq::<Seq<u8>>::empty());
                assert(ms =~= ms.take(produced.len() as int));
            }
        }
        Ok(())
    }

    /// Decode whatever whole frames have arrived, then dequeue the oldest
    /// fully reassembled message, if any.  Whatever the buffered whole
    /// frames decode to, that (after the queue is extended by it) is what
    /// the call returns from the front of the queue.
    pub fn recv(&mut self, reactor: &Reactor) -> (r: Result<Option<Vec<u8>>, DecryptError>)
        requires
            old(self).wf(),
        ensures
            final(self).wf(),
            final(self).same_codec(*old(self)),
            final(self).outbound_iv == old(self).outbound_iv,
            final(self).bt.write_buffer@ == old(self).bt.write_buffer@,
            final(self).bt.closed == old(self).bt.closed,
            final(self).bt.underlying == old(self).bt.underlying,
            r is Ok ==> final(self).bt.read_buffer@ == old(self).bt.read_buffer@.skip(
                whole_frames(old(self).bt.read_buffer@),
            ),
            forall|c2: u128, a2: Seq<u8>, ms: Seq<Seq<u8>>|
                wire_decodes(
                    old(self).inbound_key@,
                    old(self).inbound_iv,
                    old(self).inbound_cleartext@,
                    old(self).bt.read_buffer@.take(whole_frames(old(self).bt.read_buffer@)),
                    c2,
                    a2,
                    ms,
                ) ==> ({
                    let queue = old(self).msgs_view() + ms;
                    &&& final(self).inbound_iv == c2
                    &&& final(self).inbound_cleartext@ == a2
                    &&& (queue.len() == 0 ==> r == Ok::<Option<Vec<u8>>, DecryptError>(None)
                        && final(self).msgs_view() == queue)
                    &&& (queue.len() > 0 ==> (r matches Ok(Some(v)) && v@ == queue[0]
                        && final(self).msgs_view() == queue.skip(1)))
                }),
    {
        match self.decrypt_available(reactor) {
            Err(e) => Err(e),
            Ok(()) => {
                if self.inbound_messages.len() == 0 {
                    Ok(None)
                } else {
                    let ghost q = self.msgs_view();
                    let v = self.inbound_messages.remove(0);
                    proof {
                        assert(self.msgs_view() =~= q.skip(1));
                    }
                    Ok(Some(v))
                }
            },
        }
    }

    /// Decode whatever whole frames have arrived, then take every fully
    /// reassembled message at once, oldest first, leaving the queue empty.
    pub fn recv_all(&mut self, reactor: &Reactor) -> (r: Result<Vec<Vec<u8>>, DecryptError>)
        requires
            old(self).wf(),
        ensures
            final(self).wf(),
            final(self).same_codec(*old(self)),
            final(self).outbound_iv == old(self).outbound_iv,
            final(self).bt.write_buffer@ == old(self).bt.write_buffer@,
            final(self).bt.closed == old(self).bt.closed,
            final(self).bt.underlying == old(self).bt.underlying,
            r is Ok ==> final(self).bt.read_buffer@ == old(self).bt.read_buffer@.skip(
                whole_frames(old(self).bt.read_buffer@),
            ),
            forall|c2: u128, a2: Seq<u8>, ms: Seq<Seq<u8>>|
                wire_decodes(
                    old(self).inbound_key@,
                    old(self).inbound_iv,
                    old(self).inbound_cleartext@,
                    old(self).bt.read_buffer@.take(whole_frames(old(self).bt.read_buffer@)),
                    c2,
                    a2,
                    ms,
                ) ==> ({
                    &&& final(self).inbound_iv == c2
                    &&& final(self).inbound_cleartext@ == a2
                    &&& (r matches Ok(v) && v@.map_values(|m: Vec<u8>| m@) == old(self).msgs_view()
                        + ms)
                    &&& final(self).msgs_view() == Seq::<Seq<u8>>::empty()
                }),
    {
        match self.decrypt_available(reactor) {
            Err(e) => Err(e),
            Ok(()) => {
                let mut out: Vec<Vec<u8>> = Vec::new();
                core::mem::swap(&mut self.inbound_messages, &mut out);
                proof {
                    assert(self.msgs_view() =~= Seq::<Seq<u8>>::empty());
                }
                Ok(out)
            },
        }
    }
}

impl Notifiable for EncryptedTransport {
    /// An encrypted transport is a valid reactor handler whenever it is
    /// well-formed.
    open spec fn inv(&self) -> bool {
        self.wf()
    }

    /// Forward the readiness event to the underlying buffered transport;
    /// decoding stays lazy, happening on the next receive call.
    fn notify(&mut self, reactor: &mut Reactor, event: Event) {
        self.bt.notify(reactor, event);
    }
}

/// A message of length `l` is carried in `l / 255 + 1` frames.
pub proof fn lemma_chunks_len(m: Seq<u8>)
    ensures
        chunks_of(m).len() == m.len() / 255 + 1,
    decreases m.len(),
{
    if m.len() >= 255 {
        lemma_chunks_len(m.skip(255));
        assert((m.len() - 255) as int / 255 == m.len() / 255 - 1) by {
            vstd::arithmetic::div_mod::lemma_fundamental_div_mod(m.len() as int, 255);
            vstd::arithmetic::div_mod::lemma_fundamental_div_mod((m.len() - 255) as int, 255);
        }
    }
}

/// Every chunk of a message carries at most 255 bytes.
proof fn lemma_chunks_bounded(m: Seq<u8>)
    ensures
        forall|i: int| 0 <= i < chunks_of(m).len() ==> (#[trigger] chunks_of(m)[i]).len() <= 255,
    decreases m.len(),
{
    if m.len() >= 255 {
        lemma_chunks_bounded(m.skip(255));
        assert forall|i: int| 0 <= i < chunks_of(m).len() implies (#[trigger] chunks_of(m)[i]).len()
            <= 255 by {
            if i > 0 {
                assert(chunks_of(m)[i] == chunks_of(m.skip(255))[i - 1]);
            }
        }
    }
}

/// The wire of chunks each at most 255 bytes long is exactly 272 bytes per
/// chunk.
proof fn lemma_frames_wire_len(key: Seq<u8>, c: u128, chunks: Seq<Seq<u8>>)
    requires
        forall|i: int| 0 <= i < chunks.len() ==> (#[trigger] chunks[i]).len() <= 255,
    ensures
        frames_wire(key, c, chunks).len() == 272 * chunks.len(),
    decreases chunks.len(),
{
    if chunks.len() > 0 {
        assert forall|i: int| 0 <= i < chunks.skip(1).len() implies (#[trigger] chunks.skip(
            1,
        )[i]).len() <= 255 by {
            assert(chunks.skip(1)[i] == chunks[i + 1]);
        }
        lemma_frames_wire_len(key, (c + 1) as u128, chunks.skip(1));
        assert(chunks[0].len() <= 255);
        assert(padded_frame(chunks[0]).len() == 256);
    }
}

/// The wire form of one message is 272 bytes per frame.
pub proof fn lemma_wire_len(key: Seq<u8>, c: u128, m: Seq<u8>)
    ensures
        wire_of(key, c, m).len() == 272 * chunks_of(m).len(),
{
    lemma_chunks_bounded(m);
    lemma_frames_wire_len(key, c, chunks_of(m));
}

/// Helper for the round trip: decoding the wire of `m` from an accumulator
/// holding `acc` completes exactly the one message `acc + m` and leaves the
/// counter in lockstep with the sender's.
proof fn lemma_decode_wire(key: Seq<u8>, c: u128, acc: Seq<u8>, m: Seq<u8>)
    requires
        c + chunks_of(m).len() <= NONCE_SPACE,
    ensures
        wire_decodes(
            key,
            c,
            acc,
            wire_of(key, c, m),
            (c + chunks_of(m).len()) as u128,
            Seq::empty(),
            seq![acc + m],
        ),
    decreases m.len(),
{
    let wire = wire_of(key, c, m);
    lemma_wire_len(key, c, m);
    if m.len() < 255 {
        let pt = padded_frame(m);
        assert(pt.len() == 256);
        assert(wire == sealed(key, nonce_bytes(c), pt) + frames_wire(
            key,
            (c + 1) as u128,
            chunks_of(m).skip(1),
        ));
        assert(chunks_of(m).skip(1) =~= Seq::<Seq<u8>>::empty());
        assert(wire =~= sealed(key, nonce_bytes(c), pt));
        assert(wire.take(272) =~= sealed(key, nonce_bytes(c), pt));
        assert(pt[0] == m.len() as u8);
        assert(pt.subrange(1, 1 + m.len() as int) =~= m);
        assert(wire.skip(272) =~= Seq::<u8>::empty());
        assert(seq![acc + m].skip(1) =~= Seq::<Seq<u8>>::empty());
        assert(wire_decodes(
            key,
            (c + 1) as u128,
            Seq::empty(),
            wire.skip(272),
            (c + 1) as u128,
            Seq::empty(),
            seq![acc + m].skip(1),
        ));
    } else {
        let head = m.take(255);
        let rest = m.skip(255);
        assert(chunks_of(m) == seq![head] + chunks_of(rest));
        assert(chunks_of(m).skip(1) =~= chunks_of(rest));
        assert(chunks_of(m)[0] == head);
        lemma_decode_wire(key, (c + 1) as u128, acc + head, rest);
        let pt = padded_frame(head);
        assert(pt.len() == 256);
        assert(wire == sealed(key, nonce_bytes(c), pt) + frames_wire(
            key,
            (c + 1) as u128,
            chunks_of(m).skip(1),
        ));
        assert(wire.take(272) =~= sealed(key, nonce_bytes(c), pt));
        assert(wire.skip(272) =~= frames_wire(key, (c + 1) as u128, chunks_of(rest)));
        assert(wire.skip(272) =~= wire_of(key, (c + 1) as u128, rest));
        assert(pt[0] == 255u8);
        assert(pt.subrange(1, 256) =~= head);
        assert((acc + head) + rest =~= acc + m);
        assert((c + chunks_of(m).len()) as u128 == ((c + 1) as u128
            + chunks_of(rest).len()) as u128);
    }
}

/// Encrypted round trip: the wire bytes of message `m`, sealed under `key`
/// from counter `c`, decode under the same key from the same counter and an
/// empty accumulator to exactly the one message `m` — and the receiver's
/// counter ends equal to the sender's, `c` plus the frame count, with an
/// empty accumulator.  This holds for every message, of any length.
pub proof fn lemma_encrypted_round_trip(key: Seq<u8>, c: u128, m: Seq<u8>)
    requires
        c + chunks_of(m).len() <= NONCE_SPACE,
    ensures
        wire_decodes(
            key,
            c,
            Seq::empty(),
            wire_of(key, c, m),
            (c + chunks_of(m).len()) as u128,
            Seq::empty(),
            seq![m],
        ),
{
    lemma_decode_wire(key, c, Seq::empty(), m);
    assert(Seq::<u8>::empty() + m =~= m);
    assert(seq![Seq::<u8>::empty() + m] =~= seq![m]);
}

/// The receiver's counter is a function of how much wire it consumed: any
/// successful decode of `w` advances the counter by exactly one per
/// 272-byte frame, so after decoding everything a sender sealed the two
/// counters are equal.  Together with the sender's contract (each frame
/// uses the counter's current value and then increments it) this is the
/// nonce-lockstep discipline: a sender's nonces are strictly increasing and
/// the receiver's counter tracks them exactly.
pub proof fn lemma_nonce_lockstep(
    key: Seq<u8>,
    c: u128,
    acc: Seq<u8>,
    w: Seq<u8>,
    c2: u128,
    a2: Seq<u8>,
    ms: Seq<Seq<u8>>,
)
    requires
        wire_decodes(key, c, acc, w, c2, a2, ms),
    ensures
        c2 == c as int + w.len() / 272,
    decreases w.len(),
{
    if w.len() == 0 {
        assert(c2 == c);
    } else {
        let pt = choose|pt: Seq<u8>|
            {
                &&& pt.len() == 256
                &&& #[trigger] sealed(key, nonce_bytes(c), pt) == w.take(272)
                &&& ({
                    let len = pt[0] as int;
                    let payload = pt.subrange(1, 1 + len);
                    if len < 255 {
                        &&& ms.len() >= 1
                        &&& ms[0] == acc + payload
                        &&& wire_decodes(
                            key,
                            (c + 1) as u128,
                            Seq::empty(),
                            w.skip(272),
                            c2,
                            a2,
                            ms.skip(1),
                        )
                    } else {
                        wire_decodes(key, (c + 1) as u128, acc + payload, w.skip(272), c2, a2, ms)
                    }
                })
            };
        let len = pt[0] as int;
        if len < 255 {
            lemma_nonce_lockstep(key, (c + 1) as u128, Seq::empty(), w.skip(272), c2, a2, ms.skip(1));
        } else {
            lemma_nonce_lockstep(
                key,
                (c + 1) as u128,
                acc + pt.subrange(1, 1 + len),
                w.skip(272),
                c2,
                a2,
                ms,
            );
        }
        assert(w.skip(272).len() == w.len() - 272);
        assert((w.len() - 272) as int / 272 == w.len() / 272 - 1) by {
            vstd::arithmetic::div_mod::lemma_fundamental_div_mod(w.len() as int, 272);
            vstd::arithmetic::div_mod::lemma_fundamental_div_mod((w.len() - 272) as int, 272);
        }
    }
}

/// Key derivation symmetry: from one shared seed, Alice's outbound key is
/// Bob's inbound key, and Alice's inbound key is Bob's outbound key.
pub proof fn lemma_key_symmetry(seed: Seq<u8>)
    ensures
        outbound_key_of(EncryptionPerspective::Alice, seed) == inbound_key_of(
            EncryptionPerspective::Bob,
            seed,
        ),
        inbound_key_of(EncryptionPerspective::Alice, seed) == outbound_key_of(
            EncryptionPerspective::Bob,
            seed,
        ),
{
}


/// The peer-to-peer round trip: two transports built from the same seed
/// with opposite perspectives share keys crosswise, so everything one side
/// seals, the other side's inbound key decodes — to exactly the one message
/// that was sent, with the counters in lockstep.  Stated for Alice sending
/// to Bob; the mirror direction follows by swapping the perspectives.
pub proof fn lemma_peer_round_trip(seed: Seq<u8>, c: u128, m: Seq<u8>)
    requires
        c + chunks_of(m).len() <= NONCE_SPACE,
    ensures
        wire_decodes(
            inbound_key_of(EncryptionPerspective::Bob, seed),
            c,
            Seq::empty(),
            wire_of(outbound_key_of(EncryptionPerspective::Alice, seed), c, m),
            (c + chunks_of(m).len()) as u128,
            Seq::empty(),
            seq![m],
        ),
{
    lemma_key_symmetry(seed);
    lemma_encrypted_round_trip(outbound_key_of(EncryptionPerspective::Alice, seed), c, m);
}

} // verus!
