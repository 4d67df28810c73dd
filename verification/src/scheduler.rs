//! The per-thread reactor: a readiness poller, a timer table, a listener
//! table, and the loop that dispatches both.
//!
//! The reactor is an explicit context object; every thread that wants to
//! multiplex I/O constructs its own and threads it through all calls.  Timer
//! and event callbacks live with the caller, keyed by the tokens this module
//! hands out; the reactor decides *which* token must be notified and the
//! caller's [`Notifiable`] implementation performs the call.

use vstd::prelude::*;

use crate::notify::{Event, Notifiable};

verus! {

#[verifier::external_type_specification]
#[verifier::external_body]
pub struct ExPoll(mio::Poll);

#[verifier::external_type_specification]
#[verifier::external_body]
pub struct ExEvents(mio::Events);

/// Relies on mio::Poll::new.  Failure to create the OS poller is fatal.
#[verifier::external_body]
fn poll_new() -> mio::Poll {
    mio::Poll::new().unwrap()
}

/// Relies on mio::Events::with_capacity: a reusable batch of OS events.
#[verifier::external_body]
fn events_new() -> mio::Events {
    mio::Events::with_capacity(1024)
}

/// Relies on mio::Poll::poll: blocks until readiness or until the timeout
/// (milliseconds; `None` blocks indefinitely), then hands every received OS
/// event back as plain values.  A poll failure is fatal.
#[verifier::external_body]
fn poll_wait(poll: &mio::Poll, events: &mut mio::Events, timeout_ms: Option<u64>) -> Vec<Event> {
    let timeout = timeout_ms.map(std::time::Duration::from_millis);
    poll.poll(events, timeout).unwrap();
    let mut out = Vec::new();
    for ev in events.iter() {
        let ready = ev.readiness();
        out.push(Event {
            token: ev.token().0,
            readable: ready.is_readable(),
            writable: ready.is_writable(),
            hup: mio::unix::UnixReady::from(ready).is_hup(),
            timer: false,
        });
    }
    out
}

/// Relies on std::time::SystemTime::now, reduced to whole milliseconds since
/// the Unix epoch (saturating).  Nothing is promised of a clock reading.
#[verifier::external_body]
pub fn now_millis() -> u64 {
    match std::time::SystemTime::now().duration_since(std::time::UNIX_EPOCH) {
        Ok(d) => {
            let ms = d.as_millis();
            if ms > u64::MAX as u128 { u64::MAX } else { ms as u64 }
        }
        Err(_) => 0,
    }
}

/// One scheduled timer: a one-shot timeout when `interval` is `None`, a
/// repeating interval otherwise.  `when` is an absolute time in milliseconds.
#[derive(Clone, Copy)]
pub struct TimerEntry {
    pub token: usize,
    pub when: u64,
    pub interval: Option<u64>,
}

/// The absolute deadline `now + timeout`, saturating at the top of `u64`.
pub open spec fn timer_deadline(now_ms: u64, timeout_ms: u64) -> u64 {
    if now_ms + timeout_ms <= u64::MAX {
        (now_ms + timeout_ms) as u64
    } else {
        u64::MAX
    }
}

/// The per-thread reactor.
///
/// `listeners` holds the tokens with a registered event handler and `timers`
/// the scheduled timer entries; both are kept strictly sorted by token, which
/// makes every token unique.  `ticker` is the id source: it starts at 1
/// (token 0 is reserved for the cross-thread wake-up channel) and increments
/// on every id handed out, so a token never repeats within the reactor's
/// lifetime.
pub struct Reactor {
    pub poll: mio::Poll,
    pub events: mio::Events,
    pub listeners: Vec<usize>,
    pub timers: Vec<TimerEntry>,
    pub ticker: usize,
    pub should_continue: bool,
    pub flush_flag: bool,
}

impl Reactor {
    /// Well-formedness: both tables strictly sorted by token, every token at
    /// least 1 and below the next id to be handed out.
    pub open spec fn wf(self) -> bool {
        &&& self.ticker >= 1
        &&& forall|i: int, j: int|
            0 <= i < j < self.timers@.len() ==> #[trigger] self.timers@[i].token < #[trigger] self.timers@[j].token
        &&& forall|i: int| 0 <= i < self.timers@.len() ==> 1 <= #[trigger] self.timers@[i].token < self.ticker
        &&& forall|i: int, j: int|
            0 <= i < j < self.listeners@.len() ==> #[trigger] self.listeners@[i] < #[trigger] self.listeners@[j]
        &&& forall|i: int| 0 <= i < self.listeners@.len() ==> 1 <= #[trigger] self.listeners@[i] < self.ticker
    }

    /// Whether an event handler is registered under `t`.
    pub open spec fn has_listener(self, t: usize) -> bool {
        exists|i: int| 0 <= i < self.listeners@.len() && self.listeners@[i] == t
    }

    /// Whether a timer (one-shot or interval) is scheduled under `t`.
    pub open spec fn has_timer(self, t: usize) -> bool {
        exists|i: int| 0 <= i < self.timers@.len() && self.timers@[i].token == t
    }

    /// The index of the timer scheduled under `t`.
    pub open spec fn timer_idx(self, t: usize) -> int {
        choose|i: int| 0 <= i < self.timers@.len() && self.timers@[i].token == t
    }

    /// The entry of the timer scheduled under `t`.
    pub open spec fn timer_at(self, t: usize) -> TimerEntry {
        self.timers@[self.timer_idx(t)]
    }

    /// Index `i` names the timer a turn would fire: the earliest deadline,
    /// ties broken towards the lowest token (the lowest index, as `timers`
    /// is sorted by token).
    pub open spec fn is_soonest(self, i: int) -> bool {
        &&& 0 <= i < self.timers@.len()
        &&& forall|j: int|
            0 <= j < self.timers@.len() ==> (#[trigger] self.timers@[j].when > self.timers@[i].when
                || (self.timers@[j].when == self.timers@[i].when && j >= i))
    }

    /// A fresh reactor: empty tables, id counter at 1, loop not running.
    pub fn new() -> (r: Reactor)
        ensures
            r.wf(),
            r.ticker == 1,
            r.timers@.len() == 0,
            r.listeners@.len() == 0,
            !r.should_continue,
            !r.flush_flag,
    {
        Reactor {
            poll: poll_new(),
            events: events_new(),
            listeners: Vec::new(),
            timers: Vec::new(),
            ticker: 1,
            should_continue: false,
            flush_flag: false,
        }
    }

    /// Hand out the next id.  Exhaustion of the id space is fatal, so the
    /// counter is required to have room.
    fn tick(&mut self) -> (t: usize)
        requires
            old(self).wf(),
            old(self).ticker < usize::MAX,
        ensures
            final(self).wf(),
            t == old(self).ticker,
            final(self).ticker == old(self).ticker + 1,
            final(self).timers@ == old(self).timers@,
            final(self).listeners@ == old(self).listeners@,
            final(self).should_continue == old(self).should_continue,
            final(self).flush_flag == old(self).flush_flag,
    {
        let t = self.ticker;
        self.ticker = self.ticker + 1;
        t
    }

    /// Record a listener slot and return its unique token.  The caller keeps
    /// the callback and is separately responsible for registering an OS
    /// resource with this token through [`Reactor::borrow_poll`].
    pub fn insert_listener(&mut self) -> (t: usize)
        requires
            old(self).wf(),
            old(self).ticker < usize::MAX,
        ensures
            final(self).wf(),
            t == old(self).ticker,
            final(self).ticker == old(self).ticker + 1,
            final(self).listeners@ == old(self).listeners@.push(t),
            final(self).has_listener(t),
            final(self).timers@ == old(self).timers@,
            final(self).should_continue == old(self).should_continue,
            final(self).flush_flag == old(self).flush_flag,
    {
        let t = self.tick();
        self.listeners.push(t);
        assert(final(self).listeners@[final(self).listeners@.len() - 1] == t);
        t
    }

    /// Remove the listener registered under `t`, returning whether one was
    /// present.  The OS resource must still be deregistered separately.
    pub fn remove_listener(&mut self, t: usize) -> (r: bool)
        requires
            old(self).wf(),
        ensures
            final(self).wf(),
            r == old(self).has_listener(t),
            !final(self).has_listener(t),
            forall|x: usize| x != t ==> final(self).has_listener(x) == old(self).has_listener(x),
            final(self).timers@ == old(self).timers@,
            final(self).ticker == old(self).ticker,
            final(self).should_continue == old(self).should_continue,
            final(self).flush_flag == old(self).flush_flag,
    {
        let mut i: usize = 0;
        while i < self.listeners.len()
            invariant
                old(self).wf(),
                *self == *old(self),
                0 <= i <= self.listeners@.len(),
                forall|k: int| 0 <= k < i ==> self.listeners@[k] != t,
            decreases self.listeners@.len() - i,
        {
            if self.listeners[i] == t {
                self.listeners.remove(i);
                proof {
                    let pre = old(self).listeners@;
                    let post = self.listeners@;
                    assert forall|x: usize| x != t implies final(self).has_listener(x)
                        == old(self).has_listener(x) by {
                        if old(self).has_listener(x) {
                            let k = choose|k: int| 0 <= k < pre.len() && pre[k] == x;
                            if k < i {
                                assert(post[k] == x);
                            } else {
                                assert(k > i);
                                assert(post[k - 1] == x);
                            }
                        }
                        if final(self).has_listener(x) {
                            let k = choose|k: int| 0 <= k < post.len() && post[k] == x;
                            if k < i {
                                assert(pre[k] == x);
                            } else {
                                assert(pre[k + 1] == x);
                            }
                        }
                    }
                    assert forall|k: int| 0 <= k < self.listeners@.len() implies self.listeners@[k]
                        != t by {
                        if k < i {
                        } else {
                            assert(old(self).listeners@[k + 1] == self.listeners@[k]);
                            assert(old(self).listeners@[i as int] == t);
                        }
                    }
                }
                return true;
            }
            i = i + 1;
        }
        false
    }

    /// Schedule `timeout_ms` from `now_ms` a one-shot timer and return its
    /// unique token.  `now_ms` is the caller's clock reading (see
    /// [`now_millis`]); the deadline saturates at the top of `u64`.
    pub fn set_timeout(&mut self, now_ms: u64, timeout_ms: u64) -> (t: usize)
        requires
            old(self).wf(),
            old(self).ticker < usize::MAX,
        ensures
            final(self).wf(),
            t == old(self).ticker,
            final(self).ticker == old(self).ticker + 1,
            final(self).timers@ == old(self).timers@.push(
                (TimerEntry { token: t, when: timer_deadline(now_ms, timeout_ms), interval: None }),
            ),
            final(self).listeners@ == old(self).listeners@,
            final(self).should_continue == old(self).should_continue,
            final(self).flush_flag == old(self).flush_flag,
    {
        let t = self.tick();
        let when: u64 = if now_ms <= u64::MAX - timeout_ms { now_ms + timeout_ms } else { u64::MAX };
        self.timers.push(TimerEntry { token: t, when, interval: None });
        t
    }

    /// Schedule a repeating timer that first fires `interval_ms` from
    /// `now_ms` and then once every `interval_ms`; returns its unique token.
    pub fn set_interval(&mut self, now_ms: u64, interval_ms: u64) -> (t: usize)
        requires
            old(self).wf(),
            old(self).ticker < usize::MAX,
        ensures
            final(self).wf(),
            t == old(self).ticker,
            final(self).ticker == old(self).ticker + 1,
            final(self).timers@ == old(self).timers@.push(
                (TimerEntry {
                    token: t,
                    when: timer_deadline(now_ms, interval_ms),
                    interval: Some(interval_ms),
                }),
            ),
            final(self).listeners@ == old(self).listeners@,
            final(self).should_continue == old(self).should_continue,
            final(self).flush_flag == old(self).flush_flag,
    {
        let t = self.tick();
        let when: u64 = if now_ms <= u64::MAX - interval_ms {
            now_ms + interval_ms
        } else {
            u64::MAX
        };
        self.timers.push(TimerEntry { token: t, when, interval: Some(interval_ms) });
        t
    }

    /// Remove the one-shot timer scheduled under `t`, returning whether one
    /// was removed.  Returns false, changing nothing, when `t` names an
    /// interval or nothing at all: an interval cannot be cleared with the
    /// timeout API.
    pub fn clear_timeout(&mut self, t: usize) -> (r: bool)
        requires
            old(self).wf(),
        ensures
            final(self).wf(),
            r == (old(self).has_timer(t) && old(self).timer_at(t).interval is None),
            r ==> final(self).timers@ == old(self).timers@.remove(old(self).timer_idx(t)),
            !r ==> final(self).timers@ == old(self).timers@,
            final(self).listeners@ == old(self).listeners@,
            final(self).ticker == old(self).ticker,
            final(self).should_continue == old(self).should_continue,
            final(self).flush_flag == old(self).flush_flag,
    {
        self.clear_matching(t, false)
    }

    /// Remove the interval scheduled under `t`, returning whether one was
    /// removed.  Returns false, changing nothing, when `t` names a one-shot
    /// timeout or nothing at all.
    pub fn clear_interval(&mut self, t: usize) -> (r: bool)
        requires
            old(self).wf(),
        ensures
            final(self).wf(),
            r == (old(self).has_timer(t) && old(self).timer_at(t).interval is Some),
            r ==> final(self).timers@ == old(self).timers@.remove(old(self).timer_idx(t)),
            !r ==> final(self).timers@ == old(self).timers@,
            final(self).listeners@ == old(self).listeners@,
            final(self).ticker == old(self).ticker,
            final(self).should_continue == old(self).should_continue,
            final(self).flush_flag == old(self).flush_flag,
    {
        self.clear_matching(t, true)
    }

    /// Shared body of the two clear operations: remove the timer under `t`
    /// only if its interval presence matches `want_interval`.
    fn clear_matching(&mut self, t: usize, want_interval: bool) -> (r: bool)
        requires
            old(self).wf(),
        ensures
            final(self).wf(),
            r == (old(self).has_timer(t) && (old(self).timer_at(t).interval is Some)
                == want_interval),
            r ==> final(self).timers@ == old(self).timers@.remove(old(self).timer_idx(t)),
            !r ==> final(self).timers@ == old(self).timers@,
            final(self).listeners@ == old(self).listeners@,
            final(self).ticker == old(self).ticker,
            final(self).should_continue == old(self).should_continue,
            final(self).flush_flag == old(self).flush_flag,
    {
        let mut i: usize = 0;
        while i < self.timers.len()
            invariant
                old(self).wf(),
                *self == *old(self),
                0 <= i <= self.timers@.len(),
                forall|k: int| 0 <= k < i ==> self.timers@[k].token != t,
            decreases self.timers@.len() - i,
        {
            if self.timers[i].token == t {
                proof {
                    assert forall|k: int|
                        0 <= k < old(self).timers@.len() && old(self).timers@[k].token
                            == t implies k == i by {
                        if k < i {
                        } else if k > i {
                            assert(old(self).timers@[i as int].token < old(self).timers@[k].token);
                        }
                    }
                    assert(old(self).timer_idx(t) == i);
                }
                let keep: bool = match self.timers[i].interval {
                    Some(_) => !want_interval,
                    None => want_interval,
                };
                if keep {
                    return false;
                }
                self.timers.remove(i);
                proof {
                    let pre = old(self).timers@;
                    let post = self.timers@;
                    assert forall|a: int, b: int|
                        0 <= a < b < post.len() implies post[a].token < post[b].token by {
                        if b < i {
                        } else if a < i {
                            assert(post[b] == pre[b + 1]);
                        } else {
                            assert(post[a] == pre[a + 1]);
                            assert(post[b] == pre[b + 1]);
                        }
                    }
                    assert forall|a: int| 0 <= a < post.len() implies 1 <= #[trigger] post[a].token
                        < self.ticker by {
                        if a < i {
                        } else {
                            assert(post[a] == pre[a + 1]);
                        }
                    }
                }
                return true;
            }
            i = i + 1;
        }
        false
    }

    /// The earliest-deadline timer, ties broken towards the lowest token,
    /// together with how long a poll may wait for it: zero if it is already
    /// due, the remaining time otherwise.  `(None, None)` when no timer is
    /// scheduled, in which case a poll may block indefinitely.
    pub fn get_soonest_timeout(&self, now_ms: u64) -> (r: (Option<usize>, Option<u64>))
        requires
            self.wf(),
        ensures
            r.0 is None <==> self.timers@.len() == 0,
            r.0 is None ==> r.1 is None,
            r.0 matches Some(t) ==> exists|i: int|
                #[trigger] self.is_soonest(i) && self.timers@[i].token == t && self.has_timer(t)
                    && self.timer_idx(t) == i && r.1 == Some(
                    (if self.timers@[i].when <= now_ms {
                        0u64
                    } else {
                        (self.timers@[i].when - now_ms) as u64
                    }),
                ),
    {
        if self.timers.len() == 0 {
            return (None, None);
        }
        let mut best: usize = 0;
        let mut i: usize = 1;
        while i < self.timers.len()
            invariant
                self.wf(),
                0 < self.timers@.len(),
                0 <= best < i <= self.timers@.len(),
                forall|j: int|
                    0 <= j < i ==> (#[trigger] self.timers@[j].when > self.timers@[best as int].when
                        || (self.timers@[j].when == self.timers@[best as int].when && j
                        >= best as int)),
            decreases self.timers@.len() - i,
        {
            if self.timers[i].when < self.timers[best].when {
                best = i;
            }
            i = i + 1;
        }
        let e = self.timers[best];
        proof {
            assert(self.is_soonest(best as int));
            assert forall|k: int|
                0 <= k < self.timers@.len() && self.timers@[k].token == e.token implies k
                == best as int by {
                if k < best as int {
                    assert(self.timers@[k].token < self.timers@[best as int].token);
                } else if k > best as int {
                    assert(self.timers@[best as int].token < self.timers@[k].token);
                }
            }
        }
        let remaining: u64 = if e.when <= now_ms { 0 } else { e.when - now_ms };
        (Some(e.token), Some(remaining))
    }

    /// Decide whether the timer under `t` fires now, and update the table:
    /// a due one-shot is removed, a due interval is rescheduled one interval
    /// ahead.  Returns whether the caller must invoke the timer's callback;
    /// a timer that is not yet due leaves the reactor unchanged.
    pub fn dispatch_timeout(&mut self, t: usize, now_ms: u64) -> (fired: bool)
        requires
            old(self).wf(),
            old(self).has_timer(t),
        ensures
            final(self).wf(),
            fired == (old(self).timer_at(t).when <= now_ms),
            !fired ==> final(self).timers@ == old(self).timers@,
            fired ==> match old(self).timer_at(t).interval {
                None => final(self).timers@ == old(self).timers@.remove(old(self).timer_idx(t)),
                Some(iv) => final(self).timers@ == old(self).timers@.update(
                    old(self).timer_idx(t),
                    (TimerEntry { token: t, when: timer_deadline(now_ms, iv), interval: Some(iv) }),
                ),
            },
            final(self).listeners@ == old(self).listeners@,
            final(self).ticker == old(self).ticker,
            final(self).should_continue == old(self).should_continue,
            final(self).flush_flag == old(self).flush_flag,
    {
        let mut i: usize = 0;
        while i < self.timers.len()
            invariant
                old(self).wf(),
                *self == *old(self),
                0 <= i <= self.timers@.len(),
                forall|k: int| 0 <= k < i ==> self.timers@[k].token != t,
                old(self).has_timer(t),
            decreases self.timers@.len() - i,
        {
            if self.timers[i].token == t {
                proof {
                    assert forall|k: int|
                        0 <= k < old(self).timers@.len() && old(self).timers@[k].token
                            == t implies k == i by {
                        if k < i {
                        } else if k > i {
                            assert(old(self).timers@[i as int].token < old(self).timers@[k].token);
                        }
                    }
                    assert(old(self).timer_idx(t) == i);
                }
                let e = self.timers[i];
                if e.when > now_ms {
                    return false;
                }
                match e.interval {
                    None => {
                        self.timers.remove(i);
                        proof {
                            let pre = old(self).timers@;
                            let post = self.timers@;
                            assert forall|a: int, b: int|
                                0 <= a < b < post.len() implies post[a].token < post[b].token by {
                                if b < i {
                                } else if a < i {
                                    assert(post[b] == pre[b + 1]);
                                } else {
                                    assert(post[a] == pre[a + 1]);
                                    assert(post[b] == pre[b + 1]);
                                }
                            }
                            assert forall|a: int| 0 <= a < post.len() implies 1 <= #[trigger] post[a].token
                                < self.ticker by {
                                if a < i {
                                } else {
                                    assert(post[a] == pre[a + 1]);
                                }
                            }
                        }
                    },
                    Some(iv) => {
                        let when: u64 = if now_ms <= u64::MAX - iv { now_ms + iv } else { u64::MAX };
                        self.timers[i] = TimerEntry { token: t, when, interval: Some(iv) };
                    },
                }
                return true;
            }
            i = i + 1;
        }
        proof {
            let k = choose|k: int|
                0 <= k < old(self).timers@.len() && old(self).timers@[k].token == t;
            assert(self.timers@[k].token == t);
            assert(false);
        }
        false
    }

    /// Whether the reactor has nothing left to wait for: no timers and no
    /// event handlers.
    pub fn empty(&self) -> (r: bool)
        ensures
            r == (self.timers@.len() == 0 && self.listeners@.len() == 0),
    {
        self.timers.len() == 0 && self.listeners.len() == 0
    }

    /// Ask the loop to exit the next time it would begin a turn.  The loop
    /// may be resumed afterwards with [`Reactor::start`] and further
    /// turns.
    pub fn stop(&mut self)
        requires
            old(self).wf(),
        ensures
            final(self).wf(),
            !final(self).should_continue,
            final(self).timers@ == old(self).timers@,
            final(self).listeners@ == old(self).listeners@,
            final(self).ticker == old(self).ticker,
            final(self).flush_flag == old(self).flush_flag,
    {
        self.should_continue = false;
    }

    /// Post-fork reset: drop the OS poller for a fresh one, drop every
    /// listener and timer, reset the id counter to 1 and raise the flush
    /// flag so the turn in progress ends immediately.  Must only be used
    /// from inside the loop on the main thread.
    pub fn flush(&mut self)
        requires
            old(self).wf(),
        ensures
            final(self).wf(),
            final(self).ticker == 1,
            final(self).timers@.len() == 0,
            final(self).listeners@.len() == 0,
            final(self).flush_flag,
            final(self).should_continue == old(self).should_continue,
    {
        self.poll = poll_new();
        self.events = events_new();
        self.listeners.clear();
        self.timers.clear();
        self.ticker = 1;
        self.flush_flag = true;
    }

    /// Synchronous access to the underlying OS poller, for registration
    /// calls against tokens handed out by [`Reactor::insert_listener`].
    pub fn borrow_poll(&self) -> &mio::Poll {
        &self.poll
    }

    /// Deliver one OS event: token 0 wakes the cross-thread inbox, any other
    /// token is delivered only if a listener is registered under it.  When
    /// no listener is present the event is dropped and nothing changes.
    fn dispatch_event<H: Notifiable>(&mut self, handlers: &mut H, event: Event)
        requires
            old(self).wf(),
            old(handlers).inv(),
        ensures
            final(self).wf(),
            final(handlers).inv(),
            event.token != 0 && !old(self).has_listener(event.token) ==> *final(self) == *old(self),
    {
        if event.token == 0 {
            handlers.notify(self, event);
            return;
        }
        let mut i: usize = 0;
        let n = self.listeners.len();
        while i < n
            invariant
                old(self).wf(),
                *self == *old(self),
                handlers.inv(),
                n == self.listeners@.len(),
                0 <= i <= n,
                forall|k: int| 0 <= k < i ==> self.listeners@[k] != event.token,
            decreases n - i,
        {
            if self.listeners[i] == event.token {
                handlers.notify(self, event);
                return;
            }
            i = i + 1;
        }
    }

    /// One turn of the loop: wait for the soonest timer or for readiness,
    /// fire at most one due timer, then deliver the received events in OS
    /// order.  A raised flush flag ends the turn immediately after the
    /// dispatch that raised it.
    ///
    /// The loop around this turn lives with the caller, who repeats it while
    /// [`Reactor::should_continue`] holds (and, unless the thread exists
    /// only to accept cross-thread work, stops once [`Reactor::empty`]):
    /// the reactor cannot promise that its handlers ever let the loop end.
    pub fn turn_internal<H: Notifiable>(&mut self, handlers: &mut H)
        requires
            old(self).wf(),
            old(handlers).inv(),
        ensures
            final(self).wf(),
            final(handlers).inv(),
    {
        let now = now_millis();
        let (time_idx, timeout) = self.get_soonest_timeout(now);
        let events = poll_wait(&self.poll, &mut self.events, timeout);
        if let Some(t) = time_idx {
            let fire_now = now_millis();
            if self.dispatch_timeout(t, fire_now) {
                handlers.notify(self, Event::for_timer(t));
            }
            if self.flush_flag {
                self.flush_flag = false;
                return ;
            }
        }
        let mut i: usize = 0;
        while i < events.len()
            invariant
                self.wf(),
                handlers.inv(),
            decreases events@.len() - i,
        {
            self.dispatch_event(handlers, events[i]);
            if self.flush_flag {
                self.flush_flag = false;
                return ;
            }
            i = i + 1;
        }
    }

    /// Spec of one id allocation: the reactor handed out `t` and advanced
    /// its counter past it.  [`Reactor::insert_listener`],
    /// [`Reactor::set_timeout`] and [`Reactor::set_interval`] all allocate
    /// this way, as their contracts state.
    pub open spec fn allocates(pre: Reactor, post: Reactor, t: usize) -> bool {
        t == pre.ticker && post.ticker == pre.ticker + 1
    }

    /// Mark the loop as running.  Called once by the caller's loop before
    /// its first turn; [`Reactor::stop`] undoes it between turns.
    pub fn start(&mut self)
        requires
            old(self).wf(),
        ensures
            final(self).wf(),
            final(self).should_continue,
            final(self).timers@ == old(self).timers@,
            final(self).listeners@ == old(self).listeners@,
            final(self).ticker == old(self).ticker,
            final(self).flush_flag == old(self).flush_flag,
    {
        self.should_continue = true;
    }
}


/// Tokens are pairwise distinct within a reactor's lifetime: the tokens of
/// any two allocations — a listener, a timeout or an interval — differ, as
/// long as the id counter between them only moved forward, which every
/// operation but the post-fork `flush` guarantees.
pub proof fn lemma_tokens_distinct(
    pre1: Reactor,
    post1: Reactor,
    t1: usize,
    pre2: Reactor,
    post2: Reactor,
    t2: usize,
)
    requires
        Reactor::allocates(pre1, post1, t1),
        Reactor::allocates(pre2, post2, t2),
        post1.ticker <= pre2.ticker,
    ensures
        t1 != t2,
{
}

/// At most one timer fires per reactor turn: the turn's choice of timer —
/// the earliest deadline, ties broken towards the lowest token — is unique,
/// and a turn dispatches only the chosen one.
pub proof fn lemma_one_timer_per_turn(r: Reactor, i: int, j: int)
    requires
        r.is_soonest(i),
        r.is_soonest(j),
    ensures
        i == j,
{
    assert(r.timers@[i].when >= r.timers@[j].when);
    assert(r.timers@[j].when >= r.timers@[i].when);
}

} // verus!
