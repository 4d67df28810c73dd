//! The buffered transport: a readiness-driven adapter that turns a
//! non-blocking resource into an application-visible pair of byte buffers
//! with backpressure, close semantics and length-prefixed message framing.

use vstd::prelude::*;

use crate::fd_adapter::{socketpair_fds, IoError};
use crate::notify::{Event, Notifiable};
use crate::scheduler::Reactor;
use crate::transport::{
    make_shim, shim_deregister, shim_reregister, transport_deregister, transport_register,
    transport_reregister, RegError, Transport,
};

verus! {

/// The big-endian 16-bit value of two bytes.
pub open spec fn be16(hi: u8, lo: u8) -> int {
    hi * 256 + lo
}

/// The length-prefix wire form of a message: two big-endian length bytes,
/// then the payload.
pub open spec fn msg_wire(m: Seq<u8>) -> Seq<u8> {
    seq![(m.len() as int / 256) as u8, (m.len() as int % 256) as u8] + m
}

/// Whether a read buffer begins with one complete length-prefixed message.
pub open spec fn can_parse(rb: Seq<u8>) -> bool {
    rb.len() >= 2 && rb.len() >= 2 + be16(rb[0], rb[1])
}

/// The first complete message at the head of a read buffer.
pub open spec fn parsed_msg(rb: Seq<u8>) -> Seq<u8> {
    rb.subrange(2, 2 + be16(rb[0], rb[1]))
}

/// What remains of a read buffer after its first message is removed.
pub open spec fn parse_rest(rb: Seq<u8>) -> Seq<u8> {
    rb.skip(2 + be16(rb[0], rb[1]))
}

/// Every complete message at the head of a read buffer, in order, together
/// with the unconsumed remainder.
pub open spec fn parse_all(rb: Seq<u8>) -> (Seq<Seq<u8>>, Seq<u8>)
    decreases rb.len(),
{
    if can_parse(rb) {
        let tail = parse_all(parse_rest(rb));
        (seq![parsed_msg(rb)] + tail.0, tail.1)
    } else {
        (Seq::empty(), rb)
    }
}

/// The readiness-driven buffer adapter.
///
/// `read_buffer` holds bytes received from the resource and not yet taken;
/// `write_buffer` holds bytes submitted and not yet written out.  `key` is
/// the reactor token under which the transport's events arrive.  `closed`
/// latches once EOF, hang-up or an explicit close has been observed;
/// `draining` records a graceful-close request waiting for the write buffer
/// to empty.  `registration` is the permanently-ready shim installed when
/// the OS poller refuses the resource (regular files), and `registered`
/// whether the token still has a poller registration to tear down.
pub struct BufferedTransport {
    pub underlying: Option<Transport>,
    pub read_buffer: Vec<u8>,
    pub write_buffer: Vec<u8>,
    pub read_limit: usize,
    pub closed: bool,
    pub draining: bool,
    pub key: usize,
    pub registered: bool,
    pub registration: Option<mio::Registration>,
}

impl BufferedTransport {
    /// Well-formedness: once the resource is gone the transport is closed,
    /// and a torn-down registration only happens on a closed transport.
    pub open spec fn wf(self) -> bool {
        self.underlying is None ==> self.closed
    }

    /// The readable interest the transport asks of the reactor: more bytes
    /// are wanted only while the read buffer is below the backpressure
    /// limit.
    pub open spec fn wants_readable(self) -> bool {
        self.read_buffer@.len() < self.read_limit
    }

    /// The writable interest: the OS should say when the resource can take
    /// more only while something is waiting to be written.
    pub open spec fn wants_writable(self) -> bool {
        self.write_buffer@.len() > 0
    }

    /// The token and the backpressure limit never change after creation.
    pub open spec fn same_identity(self, other: BufferedTransport) -> bool {
        &&& self.key == other.key
        &&& self.read_limit == other.read_limit
    }

    /// Create a buffered transport over a resource: allocate a reactor
    /// token, register the resource for readable readiness (falling back to
    /// the permanently-ready shim when the OS refuses the resource type),
    /// and start with empty buffers and the default backpressure limit.
    pub fn create(transport: Transport, reactor: &mut Reactor) -> (r: BufferedTransport)
        requires
            old(reactor).wf(),
            old(reactor).ticker < usize::MAX,
        ensures
            final(reactor).wf(),
            r.wf(),
            r.key == old(reactor).ticker,
            final(reactor).listeners@ == old(reactor).listeners@.push(r.key),
            final(reactor).has_listener(r.key),
            final(reactor).timers@ == old(reactor).timers@,
            final(reactor).ticker == old(reactor).ticker + 1,
            final(reactor).should_continue == old(reactor).should_continue,
            final(reactor).flush_flag == old(reactor).flush_flag,
            r.read_buffer@.len() == 0,
            r.write_buffer@.len() == 0,
            !r.closed,
            !r.draining,
            r.registered,
            r.read_limit == 16384,
            r.underlying is Some,
    {
        let key = reactor.insert_listener();
        let registration: Option<mio::Registration> = match transport_register(
            reactor.borrow_poll(),
            &transport,
            key,
        ) {
            Ok(_) => None,
            Err(RegError::PermissionDenied) => make_shim(reactor.borrow_poll(), key),
            Err(RegError::Other) => None,
        };
        BufferedTransport {
            underlying: Some(transport),
            read_buffer: Vec::new(),
            write_buffer: Vec::new(),
            read_limit: 16384,
            closed: false,
            draining: false,
            key,
            registered: true,
            registration,
        }
    }

    /// Create a connected pair of buffered transports over a Unix-domain
    /// socket pair: what one side puts, the other side's events deliver.
    pub fn create_pair(reactor: &mut Reactor) -> (r: Result<
        (BufferedTransport, BufferedTransport),
        IoError,
    >)
        requires
            old(reactor).wf(),
            old(reactor).ticker < usize::MAX - 1,
        ensures
            final(reactor).wf(),
            r matches Ok(p) ==> ({
                &&& p.0.wf()
                &&& p.1.wf()
                &&& p.0.key == old(reactor).ticker
                &&& p.1.key == old(reactor).ticker + 1
                &&& p.0.key != p.1.key
                &&& p.0.read_buffer@.len() == 0 && p.0.write_buffer@.len() == 0
                &&& p.1.read_buffer@.len() == 0 && p.1.write_buffer@.len() == 0
                &&& !p.0.closed && !p.1.closed
                &&& p.0.read_limit == 16384 && p.1.read_limit == 16384
                &&& final(reactor).has_listener(p.0.key) && final(reactor).has_listener(p.1.key)
            }),
            r is Err ==> *final(reactor) == *old(reactor),
    {
        match socketpair_fds() {
            Ok((fd_a, fd_b)) => {
                let a = BufferedTransport::create(Transport::from_fd(fd_a), reactor);
                let b = BufferedTransport::create(Transport::from_fd(fd_b), reactor);
                proof {
                    assert(final(reactor).listeners@[final(reactor).listeners@.len() - 2] == a.key);
                }
                Ok((a, b))
            },
            Err(e) => Err(e),
        }
    }

    /// How many received bytes are waiting to be taken.
    pub fn available(&self) -> (n: usize)
        ensures
            n == self.read_buffer@.len(),
    {
        self.read_buffer.len()
    }

    /// The interest set the transport asks of the OS poller, recomputed
    /// after every public mutation: readable exactly while the read buffer
    /// is below the backpressure limit, writable exactly while the write
    /// buffer is non-empty.
    pub fn interest(&self) -> (r: (bool, bool))
        ensures
            r.0 == self.wants_readable(),
            r.1 == self.wants_writable(),
    {
        (self.read_buffer.len() < self.read_limit, self.write_buffer.len() > 0)
    }

    /// Recompute and apply the poller interest for an open transport (see
    /// [`BufferedTransport::interest`]).  Failures to reregister are
    /// ignored; a closed transport is left alone (its registration was torn
    /// down when it closed).
    fn update_registration(&self, reactor: &Reactor) {
        if self.closed {
            return ;
        }
        let (readable, writable) = self.interest();
        match (&self.registration, &self.underlying) {
            (Some(shim), _) => {
                let _ = shim_reregister(reactor.borrow_poll(), shim, self.key, readable, writable);
            },
            (None, Some(t)) => {
                let _ = transport_reregister(reactor.borrow_poll(), t, self.key, readable, writable);
            },
            (None, None) => {},
        }
    }

    /// Tear down the poller registration of a transport that has closed:
    /// deregister the resource (or the shim) and remove the token from the
    /// reactor's listener table.
    fn teardown_registration(&mut self, reactor: &mut Reactor)
        requires
            old(self).wf(),
            old(reactor).wf(),
        ensures
            final(self).wf(),
            final(reactor).wf(),
            !final(self).registered,
            final(self).underlying == old(self).underlying,
            final(self).read_buffer@ == old(self).read_buffer@,
            final(self).write_buffer@ == old(self).write_buffer@,
            final(self).closed == old(self).closed,
            final(self).draining == old(self).draining,
            final(self).same_identity(*old(self)),
            final(self).registration == old(self).registration,
            final(reactor).timers@ == old(reactor).timers@,
            final(reactor).ticker == old(reactor).ticker,
            final(reactor).should_continue == old(reactor).should_continue,
            final(reactor).flush_flag == old(reactor).flush_flag,
            old(self).registered ==> !final(reactor).has_listener(old(self).key),
            !old(self).registered ==> *final(reactor) == *old(reactor),
            forall|x: usize|
                x != old(self).key ==> final(reactor).has_listener(x) == old(reactor).has_listener(
                    x,
                ),
            final(reactor).has_listener(old(self).key) ==> old(reactor).has_listener(old(self).key),
    {
        if !self.registered {
            return ;
        }
        match (&self.registration, &self.underlying) {
            (Some(shim), _) => {
                let _ = shim_deregister(reactor.borrow_poll(), shim);
            },
            (None, Some(t)) => {
                let _ = transport_deregister(reactor.borrow_poll(), t);
            },
            (None, None) => {},
        }
        reactor.remove_listener(self.key);
        self.registered = false;
    }

    /// If at least `size` bytes are buffered, remove and return exactly the
    /// first `size` of them, in order; otherwise return nothing and change
    /// nothing.  Reregisters afterwards so a previously saturated read
    /// resumes.
    pub fn take_chunk(&mut self, reactor: &Reactor, size: usize) -> (r: Option<Vec<u8>>)
        requires
            old(self).wf(),
        ensures
            final(self).wf(),
            final(self).same_identity(*old(self)),
            final(self).write_buffer@ == old(self).write_buffer@,
            final(self).closed == old(self).closed,
            final(self).draining == old(self).draining,
            final(self).registered == old(self).registered,
            final(self).underlying == old(self).underlying,
            old(self).read_buffer@.len() < size ==> r is None && final(self).read_buffer@ == old(
                self,
            ).read_buffer@,
            old(self).read_buffer@.len() >= size ==> (r matches Some(v)
                && v@ == old(self).read_buffer@.take(size as int)
                && final(self).read_buffer@ == old(self).read_buffer@.skip(size as int)),
    {
        if self.read_buffer.len() < size {
            return None;
        }
        let mut tail = self.read_buffer.split_off(size);
        core::mem::swap(&mut self.read_buffer, &mut tail);
        proof {
            assert(self.read_buffer@ =~= old(self).read_buffer@.skip(size as int));
            assert(tail@ =~= old(self).read_buffer@.take(size as int));
        }
        self.update_registration(reactor);
        Some(tail)
    }

    /// Remove and return the entire read buffer.
    pub fn take(&mut self, reactor: &Reactor) -> (r: Vec<u8>)
        requires
            old(self).wf(),
        ensures
            final(self).wf(),
            final(self).same_identity(*old(self)),
            r@ == old(self).read_buffer@,
            final(self).read_buffer@.len() == 0,
            final(self).write_buffer@ == old(self).write_buffer@,
            final(self).closed == old(self).closed,
            final(self).draining == old(self).draining,
            final(self).registered == old(self).registered,
            final(self).underlying == old(self).underlying,
    {
        let mut new: Vec<u8> = Vec::new();
        core::mem::swap(&mut self.read_buffer, &mut new);
        self.update_registration(reactor);
        new
    }

    /// Append bytes to the write buffer, in submission order, and ask the
    /// reactor for writable readiness.
    pub fn put(&mut self, reactor: &Reactor, data: &[u8])
        requires
            old(self).wf(),
        ensures
            final(self).wf(),
            final(self).same_identity(*old(self)),
            final(self).write_buffer@ == old(self).write_buffer@ + data@,
            final(self).read_buffer@ == old(self).read_buffer@,
            final(self).closed == old(self).closed,
            final(self).draining == old(self).draining,
            final(self).registered == old(self).registered,
            final(self).underlying == old(self).underlying,
    {
        self.write_buffer.extend_from_slice(data);
        self.update_registration(reactor);
    }

    /// Advisory only: true while fewer than 2048 bytes wait to be written.
    pub fn has_write_space(&self) -> (r: bool)
        ensures
            r == (self.write_buffer@.len() < 2048),
    {
        self.write_buffer.len() < 2048
    }

    /// The latched close status.
    pub fn is_closed(&self) -> (r: bool)
        ensures
            r == self.closed,
    {
        self.closed
    }

    /// The reactor token under which this transport's events arrive.
    pub fn token(&self) -> (r: usize)
        ensures
            r == self.key,
    {
        self.key
    }

    /// Frame a message for the peer: append a 2-byte big-endian length
    /// preamble and then the payload to the write buffer.  Messages longer
    /// than 65535 bytes cannot be framed and are excluded.
    pub fn send_message(&mut self, reactor: &Reactor, data: &[u8])
        requires
            old(self).wf(),
            data@.len() <= 65535,
        ensures
            final(self).wf(),
            final(self).same_identity(*old(self)),
            final(self).write_buffer@ == old(self).write_buffer@ + msg_wire(data@),
            final(self).read_buffer@ == old(self).read_buffer@,
            final(self).closed == old(self).closed,
            final(self).draining == old(self).draining,
            final(self).registered == old(self).registered,
            final(self).underlying == old(self).underlying,
    {
        let len = data.len();
        let hi: u8 = (len / 256) as u8;
        let lo: u8 = (len % 256) as u8;
        let mut preamble: Vec<u8> = Vec::new();
        preamble.push(hi);
        preamble.push(lo);
        self.put(reactor, preamble.as_slice());
        self.put(reactor, data);
        proof {
            assert(self.write_buffer@ =~= old(self).write_buffer@ + msg_wire(data@));
        }
    }

    /// Return the first complete length-prefixed message, removing both the
    /// preamble and the payload; return nothing and change nothing until the
    /// preamble plus the full payload have arrived.
    pub fn recv_message(&mut self, reactor: &Reactor) -> (r: Option<Vec<u8>>)
        requires
            old(self).wf(),
        ensures
            final(self).wf(),
            final(self).same_identity(*old(self)),
            final(self).write_buffer@ == old(self).write_buffer@,
            final(self).closed == old(self).closed,
            final(self).draining == old(self).draining,
            final(self).registered == old(self).registered,
            final(self).underlying == old(self).underlying,
            !can_parse(old(self).read_buffer@) ==> r is None && final(self).read_buffer@ == old(
                self,
            ).read_buffer@,
            can_parse(old(self).read_buffer@) ==> (r matches Some(v)
                && v@ == parsed_msg(old(self).read_buffer@)
                && final(self).read_buffer@ == parse_rest(old(self).read_buffer@)),
    {
        let ghost rb0 = old(self).read_buffer@;
        if self.read_buffer.len() < 2 {
            return None;
        }
        let hi = self.read_buffer[0];
        let lo = self.read_buffer[1];
        let preamble: usize = (hi as usize) * 256 + (lo as usize);
        if self.read_buffer.len() < 2 + preamble {
            return None;
        }
        let _ = self.take_chunk(reactor, 2);
        let body = self.take_chunk(reactor, preamble);
        proof {
            assert(be16(rb0[0], rb0[1]) == preamble);
            assert(parsed_msg(rb0) =~= rb0.skip(2).take(preamble as int));
            assert(parse_rest(rb0) =~= rb0.skip(2).skip(preamble as int));
        }
        match body {
            Some(v) => Some(v),
            None => None,
        }
    }

    /// Return every complete message currently buffered, in arrival order,
    /// leaving only the unconsumed remainder.
    pub fn recv_all_messages(&mut self, reactor: &Reactor) -> (r: Vec<Vec<u8>>)
        requires
            old(self).wf(),
        ensures
            final(self).wf(),
            final(self).same_identity(*old(self)),
            final(self).write_buffer@ == old(self).write_buffer@,
            final(self).closed == old(self).closed,
            final(self).draining == old(self).draining,
            final(self).registered == old(self).registered,
            final(self).underlying == old(self).underlying,
            r@.map_values(|v: Vec<u8>| v@) == parse_all(old(self).read_buffer@).0,
            final(self).read_buffer@ == parse_all(old(self).read_buffer@).1,
    {
        let mut result: Vec<Vec<u8>> = Vec::new();
        let mut done = false;
        while !done
            invariant
                old(self).wf(),
                self.wf(),
                self.same_identity(*old(self)),
                self.write_buffer@ == old(self).write_buffer@,
                self.closed == old(self).closed,
                self.draining == old(self).draining,
                self.registered == old(self).registered,
                self.underlying == old(self).underlying,
                parse_all(old(self).read_buffer@).0 =~= result@.map_values(|v: Vec<u8>| v@)
                    + parse_all(self.read_buffer@).0,
                parse_all(old(self).read_buffer@).1 == parse_all(self.read_buffer@).1,
                done ==> !can_parse(self.read_buffer@),
            decreases self.read_buffer@.len(), (if done {
                0int
            } else {
                1int
            }),
        {
            let ghost rb_pre = self.read_buffer@;
            let ghost mapped_pre = result@.map_values(|v: Vec<u8>| v@);
            match self.recv_message(reactor) {
                Some(m) => {
                    proof {
                        assert(parse_all(rb_pre).0 =~= seq![parsed_msg(rb_pre)] + parse_all(
                            parse_rest(rb_pre),
                        ).0);
                    }
                    result.push(m);
                    proof {
                        assert(result@.map_values(|v: Vec<u8>| v@) =~= mapped_pre.push(m@));
                        assert(mapped_pre + (seq![parsed_msg(rb_pre)] + parse_all(
                            self.read_buffer@,
                        ).0) =~= mapped_pre.push(m@) + parse_all(self.read_buffer@).0);
                    }
                },
                None => {
                    done = true;
                },
            }
        }
        proof {
            assert(result@.map_values(|v: Vec<u8>| v@) + parse_all(self.read_buffer@).0
                =~= result@.map_values(|v: Vec<u8>| v@));
        }
        result
    }

    /// Tear the transport down now: latch `closed`, deregister and drop the
    /// listener token, flush the resource (errors ignored) and close its
    /// descriptor.  The buffers keep whatever they hold.
    fn close_real(&mut self, reactor: &mut Reactor)
        requires
            old(self).wf(),
            old(reactor).wf(),
        ensures
            final(self).wf(),
            final(reactor).wf(),
            final(self).closed,
            final(self).underlying is None,
            !final(self).registered,
            final(self).read_buffer@ == old(self).read_buffer@,
            final(self).write_buffer@ == old(self).write_buffer@,
            final(self).draining == old(self).draining,
            final(self).same_identity(*old(self)),
            final(reactor).timers@ == old(reactor).timers@,
            final(reactor).ticker == old(reactor).ticker,
            final(reactor).should_continue == old(reactor).should_continue,
            final(reactor).flush_flag == old(reactor).flush_flag,
            old(self).registered ==> !final(reactor).has_listener(old(self).key),
            !old(self).registered ==> *final(reactor) == *old(reactor),
            forall|x: usize|
                x != old(self).key ==> final(reactor).has_listener(x) == old(reactor).has_listener(
                    x,
                ),
            final(reactor).has_listener(old(self).key) ==> old(reactor).has_listener(old(self).key),
    {
        self.closed = true;
        self.teardown_registration(reactor);
        match &mut self.underlying {
            Some(t) => {
                let _ = t.flush();
            },
            None => {},
        }
        let mut u: Option<Transport> = None;
        core::mem::swap(&mut self.underlying, &mut u);
        match u {
            Some(t) => {
                let _ = t.close();
            },
            None => {},
        }
    }

    /// Request a graceful close.  If the write buffer is already empty (or
    /// the transport already closed) the teardown happens now; otherwise the
    /// transport enters the draining state and the teardown happens on the
    /// notify turn that empties the write buffer.
    pub fn close(&mut self, reactor: &mut Reactor)
        requires
            old(self).wf(),
            old(reactor).wf(),
        ensures
            final(self).wf(),
            final(reactor).wf(),
            final(self).same_identity(*old(self)),
            final(self).read_buffer@ == old(self).read_buffer@,
            final(self).write_buffer@ == old(self).write_buffer@,
            old(self).closed || old(self).write_buffer@.len() == 0 ==> ({
                &&& final(self).closed
                &&& final(self).underlying is None
                &&& !final(self).registered
                &&& (old(self).registered ==> !final(reactor).has_listener(old(self).key))
            }),
            !(old(self).closed || old(self).write_buffer@.len() == 0) ==> (final(self).draining
                && final(self).closed == old(self).closed && final(self).underlying == old(
                self,
            ).underlying && *final(reactor) == *old(reactor)),
            final(reactor).timers@ == old(reactor).timers@,
            final(reactor).ticker == old(reactor).ticker,
            forall|x: usize|
                x != old(self).key ==> final(reactor).has_listener(x) == old(reactor).has_listener(
                    x,
                ),
            final(reactor).has_listener(old(self).key) ==> old(reactor).has_listener(old(self).key),
    {
        if self.closed || self.write_buffer.len() == 0 {
            self.close_real(reactor);
        } else {
            self.draining = true;
        }
    }

    /// React to a readiness event, as the reactor's dispatch calls it.
    ///
    /// If the event says readable (or hung up), read once from the resource:
    /// zero bytes latches `closed` and tears the registration down, anything
    /// else is appended to the read buffer; read errors are ignored for this
    /// turn.  If the event says writable, write from the front of the write
    /// buffer until it empties or the OS stops accepting, removing exactly
    /// the written prefix.  A draining transport whose write buffer has
    /// emptied is then torn down, and the poller interest is recomputed
    /// last.
    pub fn notify(&mut self, reactor: &mut Reactor, event: Event)
        requires
            old(self).wf(),
            old(reactor).wf(),
        ensures
            final(self).wf(),
            final(reactor).wf(),
            final(self).same_identity(*old(self)),
            exists|data: Seq<u8>|
                final(self).read_buffer@ == old(self).read_buffer@ + data && data.len() <= 16384,
            exists|n: int|
                0 <= n <= old(self).write_buffer@.len() && final(self).write_buffer@ == old(
                    self,
                ).write_buffer@.skip(n),
            !(event.readable || event.hup) ==> final(self).read_buffer@ == old(self).read_buffer@,
            !event.writable ==> final(self).write_buffer@ == old(self).write_buffer@,
            old(self).closed ==> final(self).closed,
            old(self).draining && final(self).write_buffer@.len() == 0 ==> final(self).closed,
            final(reactor).timers@ == old(reactor).timers@,
            final(reactor).ticker == old(reactor).ticker,
            final(reactor).should_continue == old(reactor).should_continue,
            final(reactor).flush_flag == old(reactor).flush_flag,
            forall|x: usize|
                x != old(self).key ==> final(reactor).has_listener(x) == old(reactor).has_listener(
                    x,
                ),
            final(reactor).has_listener(old(self).key) ==> old(reactor).has_listener(old(self).key),
    {
        if event.readable || event.hup {
            let got: Option<Vec<u8>> = match &mut self.underlying {
                Some(t) => match t.read(16384) {
                    Ok(v) => Some(v),
                    Err(_) => None,
                },
                None => None,
            };
            match got {
                Some(v) => {
                    if v.len() == 0 {
                        self.closed = true;
                        self.teardown_registration(reactor);
                    } else {
                        let mut vv = v;
                        self.read_buffer.append(&mut vv);
                    }
                },
                None => {},
            }
        }
        if event.writable {
            let ghost wb0 = self.write_buffer@;
            let ghost mid = *self;
            proof {
                assert(self.write_buffer@ =~= wb0.skip(0));
            }
            let mut done = false;
            while !done && self.write_buffer.len() > 0
                invariant
                    self.wf(),
                    self.same_identity(mid),
                    self.read_buffer@ == mid.read_buffer@,
                    self.closed == mid.closed,
                    self.draining == mid.draining,
                    self.registered == mid.registered,
                    (self.underlying is Some) == (mid.underlying is Some),
                    exists|n: int| 0 <= n <= wb0.len() && self.write_buffer@ == wb0.skip(n),
                decreases self.write_buffer@.len(), (if done {
                    0int
                } else {
                    1int
                }),
            {
                let ghost wb_pre = self.write_buffer@;
                let outcome: Result<usize, IoError> = match &mut self.underlying {
                    Some(t) => t.write(self.write_buffer.as_slice()),
                    None => Err(IoError::Other),
                };
                match outcome {
                    Ok(n) => {
                        if n == 0 {
                            done = true;
                        } else {
                            let tail = self.write_buffer.split_off(n);
                            self.write_buffer = tail;
                            proof {
                                let k = choose|k: int|
                                    0 <= k <= wb0.len() && wb_pre == wb0.skip(k);
                                assert(self.write_buffer@ =~= wb0.skip(k + n));
                            }
                        }
                    },
                    Err(_) => {
                        done = true;
                    },
                }
            }
        }
        if self.draining && self.write_buffer.len() == 0 && !self.closed {
            self.close_real(reactor);
        }
        self.update_registration(reactor);
        proof {
            assert(old(self).read_buffer@ + Seq::<u8>::empty() =~= old(self).read_buffer@);
            assert(old(self).write_buffer@.skip(0) =~= old(self).write_buffer@);
        }
    }
}

impl Notifiable for BufferedTransport {
    /// A buffered transport is a valid reactor handler whenever it is
    /// well-formed.
    open spec fn inv(&self) -> bool {
        self.wf()
    }

    fn notify(&mut self, reactor: &mut Reactor, event: Event) {
        BufferedTransport::notify(self, reactor, event)
    }
}

/// Bytes are observed by takers in the order producers submitted them:
/// after a buffer holding `b` receives `x` and then `y`, a chunked take of
/// any `n` leading bytes followed by a take of the rest observes exactly
/// `b` then `x` then `y`, nothing reordered, nothing lost.
pub proof fn lemma_stream_order(b: Seq<u8>, x: Seq<u8>, y: Seq<u8>, n: int)
    requires
        0 <= n <= b.len() + x.len() + y.len(),
    ensures
        ((b + x) + y).take(n) + ((b + x) + y).skip(n) == b + (x + y),
{
    assert(((b + x) + y).take(n) + ((b + x) + y).skip(n) =~= b + (x + y));
}

/// A message framed by `send_message` is returned whole by `recv_message`:
/// a read buffer beginning with the wire form of `m` parses to exactly `m`
/// and leaves exactly the bytes that followed.
pub proof fn lemma_message_round_trip(m: Seq<u8>, rest: Seq<u8>)
    requires
        m.len() <= 65535,
    ensures
        can_parse(msg_wire(m) + rest),
        parsed_msg(msg_wire(m) + rest) == m,
        parse_rest(msg_wire(m) + rest) == rest,
{
    let rb = msg_wire(m) + rest;
    assert(rb[0] == (m.len() as int / 256) as u8);
    assert(rb[1] == (m.len() as int % 256) as u8);
    assert(be16(rb[0], rb[1]) == m.len()) by {
        vstd::arithmetic::div_mod::lemma_fundamental_div_mod(m.len() as int, 256);
    }
    assert(parsed_msg(rb) =~= m);
    assert(parse_rest(rb) =~= rest);
}

} // verus!
