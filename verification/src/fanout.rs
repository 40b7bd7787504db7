//! A bounded, best-effort event fan-out.
//!
//! One process-wide publish point: every subscriber sees the events
//! published after it subscribed, in order. The buffer holds a bounded
//! number of in-flight events; a subscriber that falls behind loses the
//! oldest unread events and is told how many were dropped, rather than
//! ever blocking the publisher.

use vstd::prelude::*;

use crate::hub::ring_append;

verus! {

/// Most in-flight events the fan-out buffer holds.
pub const FANOUT_CAPACITY: usize = 1024;

/// One event in flight: a name and a JSON payload, carried as text.
#[derive(Debug, Clone)]
pub struct BusEvent {
    pub event: String,
    pub payload: String,
}

fn copy_event(e: &BusEvent) -> (r: BusEvent)
    ensures
        r == *e,
{
    BusEvent { event: e.event.clone(), payload: e.payload.clone() }
}

/// The process-wide publish point: the in-flight buffer and the sequence
/// number of the next event to be published.
#[derive(Debug, Clone)]
pub struct EventBus {
    pub next: u64,
    pub events: Vec<BusEvent>,
}

/// A subscriber's position in the event sequence.
#[derive(Debug, Clone)]
pub struct Subscriber {
    pub cursor: u64,
}

/// What one receive attempt yields.
#[derive(Debug, Clone)]
pub enum RecvOutcome {
    /// Nothing published past this subscriber's position yet.
    Empty,
    /// The subscriber fell behind; this many events were dropped for it.
    Lagged(u64),
    /// The next event, in publication order.
    Event(BusEvent),
}

impl EventBus {
    /// The sequence number of the oldest event still buffered.
    pub open spec fn base(self) -> int {
        self.next - self.events@.len()
    }

    pub open spec fn wf(self) -> bool {
        self.events@.len() <= FANOUT_CAPACITY && self.events@.len() <= self.next
    }

    /// An empty fan-out.
    pub fn new() -> (r: Self)
        ensures
            r.wf(),
            r.next == 0,
            r.events@.len() == 0,
    {
        EventBus { next: 0, events: Vec::new() }
    }

    /// Publishes an event: it goes to the back of the buffer and the
    /// oldest in-flight event falls off when the buffer is full. Never
    /// blocks. Once the sequence counter is exhausted, further events
    /// are dropped.
    pub fn send(&mut self, event: String, payload: String)
        requires
            old(self).wf(),
        ensures
            final(self).wf(),
            old(self).next < u64::MAX ==> final(self).next == old(self).next + 1
                && final(self).events@ == ring_append(
                old(self).events@,
                BusEvent { event, payload },
                FANOUT_CAPACITY as int,
            ),
            old(self).next == u64::MAX ==> *final(self) == *old(self),
    {
        if self.next == u64::MAX {
            return ;
        }
        self.events.push(BusEvent { event, payload });
        if self.events.len() > FANOUT_CAPACITY {
            let ghost grown = self.events@;
            self.events.remove(0);
            proof {
                assert(self.events@ =~= grown.skip(1));
            }
        }
        self.next = self.next + 1;
    }

    /// A fresh subscriber. It stands at the bus's current position: only
    /// events published after this call are observed, with no replay of
    /// the backlog.
    pub fn subscribe(&self) -> (r: Subscriber)
        ensures
            r.cursor == self.next,
    {
        Subscriber { cursor: self.next }
    }
}

impl Subscriber {
    /// The subscriber has not run ahead of the bus.
    pub open spec fn wf_for(self, bus: EventBus) -> bool {
        self.cursor <= bus.next
    }

    /// One receive attempt. Either there is nothing new; or the
    /// subscriber fell behind the buffer and is told how many events it
    /// lost while skipping to the oldest one still held; or it takes the
    /// next event in publication order.
    pub fn recv(&mut self, bus: &EventBus) -> (r: RecvOutcome)
        requires
            bus.wf(),
            old(self).wf_for(*bus),
        ensures
            final(self).wf_for(*bus),
            old(self).cursor == bus.next ==> r is Empty && *final(self) == *old(self),
            old(self).cursor < bus.base() ==> r == RecvOutcome::Lagged(
                (bus.base() - old(self).cursor) as u64,
            ) && final(self).cursor == bus.base(),
            bus.base() <= old(self).cursor < bus.next ==> (r matches RecvOutcome::Event(e) && e
                == bus.events@[old(self).cursor - bus.base()] && final(self).cursor == old(
                self,
            ).cursor + 1),
    {
        if self.cursor == bus.next {
            return RecvOutcome::Empty;
        }
        let base = bus.next - (bus.events.len() as u64);
        if self.cursor < base {
            let dropped = base - self.cursor;
            self.cursor = base;
            return RecvOutcome::Lagged(dropped);
        }
        let idx = (self.cursor - base) as usize;
        let ev = copy_event(&bus.events[idx]);
        self.cursor = self.cursor + 1;
        RecvOutcome::Event(ev)
    }
}

} // verus!
