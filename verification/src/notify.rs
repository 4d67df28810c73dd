//! The minimal notification capability pair: a notifiable is a value that can
//! be asked to react to an event, and a notifier is a value that accepts a
//! notifiable and promises to invoke it at well-defined moments.

use vstd::prelude::*;

use crate::scheduler::Reactor;

verus! {

/// A readiness or timer event, reduced to plain values.
///
/// For an I/O event `token` names the listener that registered interest and
/// the three readiness flags mirror what the OS reported.  For a timer firing
/// `timer` is true and the readiness flags are all false.  Token 0 is
/// reserved for the cross-thread wake-up channel.
#[derive(Clone, Copy)]
pub struct Event {
    pub token: usize,
    pub readable: bool,
    pub writable: bool,
    pub hup: bool,
    pub timer: bool,
}

impl Event {
    /// The event delivered when the timer registered under `token` fires.
    pub fn for_timer(token: usize) -> (e: Event)
        ensures
            e == (Event { token, readable: false, writable: false, hup: false, timer: true }),
    {
        Event { token, readable: false, writable: false, hup: false, timer: true }
    }
}

/// "I can be poked": a value the reactor can ask to react to an event.
///
/// The reactor hands the handler a mutable borrow of itself so the handler
/// may schedule timers, add or remove listeners, or stop the loop; in return
/// the handler must leave the reactor well-formed.
pub trait Notifiable {
    /// The handler's own invariant, preserved across every notification.
    spec fn inv(&self) -> bool;

    fn notify(&mut self, reactor: &mut Reactor, event: Event)
        requires
            old(self).inv(),
            old(reactor).wf(),
        ensures
            final(self).inv(),
            final(reactor).wf(),
    ;
}

/// "I will poke one registered party": a value that accepts a notifiable and
/// promises to invoke it at well-defined moments.
pub trait Notifies<N: Notifiable> {
    fn set_notify(&mut self, callback: N);
}

} // verus!
