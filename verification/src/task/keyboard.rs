//! The bridge between the keyboard interrupt and the tasks that read keys: a
//! bounded queue of scancodes and a cell for the handle of the task that waits.
//!
//! The interrupt side never waits: a scancode that finds the queue full is
//! dropped. The reading side registers its handle before it looks a second time,
//! so that a scancode that arrives in between finds the handle.

use super::queue::BoundedQueue;
use super::{Context, Poll, WakeHandle};
use vstd::prelude::*;

verus! {

/// The number of scancodes that a bridge made by `EventBridge::new` holds.
pub const SCANCODE_QUEUE_CAPACITY: usize = 100;

/// The state of a bridge.
pub struct BridgeState {
    /// The scancodes published and not yet read, the oldest first.
    pub events: Seq<u8>,
    /// The number of scancodes that the bridge holds at most.
    pub capacity: nat,
    /// The handle of the reader that waits, if one does.
    pub waker: Option<WakeHandle>,
}

impl BridgeState {
    /// A bridge never holds more than its capacity.
    pub open spec fn wf(self) -> bool {
        self.events.len() <= self.capacity
    }

    /// The bridge with nothing in it.
    pub open spec fn empty(capacity: nat) -> BridgeState {
        BridgeState { events: Seq::empty(), capacity, waker: None }
    }

    /// Whether a scancode published now is taken.
    pub open spec fn has_room(self) -> bool {
        self.events.len() < self.capacity
    }

    /// The bridge after a scancode is published: with room, the scancode comes
    /// last and the cell is emptied; without room nothing changes.
    pub open spec fn publish(self, code: u8) -> BridgeState {
        if self.has_room() {
            BridgeState { events: self.events.push(code), waker: None, ..self }
        } else {
            self
        }
    }

    /// The handle that publishing a scancode now takes out of the cell to invoke.
    pub open spec fn woken(self) -> Option<WakeHandle> {
        if self.has_room() {
            self.waker
        } else {
            None
        }
    }

    /// The bridge after scancodes are published one after the other.
    pub open spec fn publish_all(self, codes: Seq<u8>) -> BridgeState {
        codes.fold_left(self, |bridge: BridgeState, code: u8| bridge.publish(code))
    }

    /// The bridge after the reader has left its handle in the cell.
    pub open spec fn register(self, waker: WakeHandle) -> BridgeState {
        BridgeState { waker: Some(waker), ..self }
    }

    /// What a look at the queue gives the reader: the oldest scancode, or nothing.
    pub open spec fn front(self) -> Poll<u8> {
        if self.events.len() > 0 {
            Poll::Ready(self.events[0])
        } else {
            Poll::Pending
        }
    }

    /// The bridge after the reader's first look, which takes the oldest scancode
    /// if there is one and leaves the cell alone.
    pub open spec fn after_first_look(self) -> BridgeState {
        if self.events.len() > 0 {
            BridgeState { events: self.events.skip(1), ..self }
        } else {
            self
        }
    }

    /// The bridge after the reader's second look, made with its handle in the
    /// cell: a scancode that has arrived is taken and the handle is withdrawn.
    pub open spec fn after_second_look(self) -> BridgeState {
        if self.events.len() > 0 {
            BridgeState { events: self.events.skip(1), waker: None, ..self }
        } else {
            self
        }
    }

    /// The bridge after one whole poll by a reader with the given handle, with no
    /// interrupt in between: the oldest scancode is taken, or the handle is left
    /// in the cell.
    pub open spec fn poll_next(self, waker: WakeHandle) -> BridgeState {
        if self.events.len() > 0 {
            self.after_first_look()
        } else {
            self.register(waker)
        }
    }

    /// The bridge after `count` polls by a reader with the given handle.
    pub open spec fn after_polls(self, waker: WakeHandle, count: nat) -> BridgeState
        decreases count,
    {
        if count == 0 {
            self
        } else {
            self.after_polls(waker, (count - 1) as nat).poll_next(waker)
        }
    }
}

/// The scancode bridge.
pub struct EventBridge {
    queue: BoundedQueue<u8>,
    waker: Option<WakeHandle>,
}

impl View for EventBridge {
    type V = BridgeState;

    closed spec fn view(&self) -> BridgeState {
        BridgeState {
            events: self.queue@,
            capacity: self.queue.spec_capacity() as nat,
            waker: self.waker,
        }
    }
}

impl EventBridge {
    /// The invariant of the bridge: its state is well formed.
    pub open spec fn wf(&self) -> bool {
        self@.wf()
    }

    /// An empty bridge for `SCANCODE_QUEUE_CAPACITY` scancodes.
    pub fn new() -> (bridge: EventBridge)
        ensures
            bridge.wf(),
            bridge@ == BridgeState::empty(SCANCODE_QUEUE_CAPACITY as nat),
    {
        EventBridge::with_capacity(SCANCODE_QUEUE_CAPACITY)
    }

    /// An empty bridge for the given number of scancodes.
    pub fn with_capacity(capacity: usize) -> (bridge: EventBridge)
        ensures
            bridge.wf(),
            bridge@ == BridgeState::empty(capacity as nat),
    {
        EventBridge { queue: BoundedQueue::new(capacity), waker: None }
    }

    /// The number of scancodes that wait to be read.
    pub fn pending(&self) -> (count: usize)
        ensures
            count == self@.events.len(),
    {
        self.queue.len()
    }

    /// Whether a scancode published now is taken.
    pub fn has_room(&self) -> (room: bool)
        ensures
            room == self@.has_room(),
    {
        !self.queue.is_full()
    }

    /// Whether a reader's handle is in the cell.
    pub fn has_waker(&self) -> (registered: bool)
        ensures
            registered == self@.waker.is_some(),
    {
        self.waker.is_some()
    }

    /// The interrupt side: queues the scancode and takes the waiting reader's
    /// handle out of the cell, for the caller to invoke. A full bridge drops the
    /// scancode, hands it back and keeps the handle.
    pub fn publish(&mut self, code: u8) -> (outcome: Result<Option<WakeHandle>, u8>)
        requires
            old(self).wf(),
        ensures
            final(self).wf(),
            final(self)@ == old(self)@.publish(code),
            outcome == if old(self)@.has_room() {
                Ok::<Option<WakeHandle>, u8>(old(self)@.waker)
            } else {
                Err::<Option<WakeHandle>, u8>(code)
            },
    {
        match self.queue.push(code) {
            Ok(()) => {
                let waker = self.waker.take();
                Ok(waker)
            },
            Err(dropped) => Err(dropped),
        }
    }

    /// The reader's first look: takes the oldest scancode if there is one.
    pub fn try_next(&mut self) -> (code: Option<u8>)
        requires
            old(self).wf(),
        ensures
            final(self).wf(),
            final(self)@ == old(self)@.after_first_look(),
            old(self)@.front() == match code {
                Some(c) => Poll::Ready(c),
                None => Poll::Pending,
            },
    {
        self.queue.pop()
    }

    /// Leaves the reader's handle in the cell, in place of any handle there.
    pub fn register(&mut self, waker: WakeHandle)
        requires
            old(self).wf(),
        ensures
            final(self).wf(),
            final(self)@ == old(self)@.register(waker),
    {
        self.waker = Some(waker);
    }

    /// The reader's second look, after it has registered: takes a scancode that
    /// has arrived since the first look and withdraws the handle, or reports that
    /// the reader has to wait.
    pub fn recheck(&mut self) -> (next: Poll<u8>)
        requires
            old(self).wf(),
        ensures
            final(self).wf(),
            final(self)@ == old(self)@.after_second_look(),
            next == old(self)@.front(),
    {
        match self.queue.pop() {
            Some(code) => {
                self.waker = None;
                Poll::Ready(code)
            },
            None => Poll::Pending,
        }
    }

    /// Gives the next scancode or suspends the reader: a first look, then the
    /// handle goes into the cell, then a second look. A reader that gets
    /// `Pending` is woken by the next scancode that is published.
    pub fn poll_next(&mut self, context: &Context) -> (next: Poll<u8>)
        requires
            old(self).wf(),
        ensures
            final(self).wf(),
            final(self)@ == old(self)@.poll_next(context.waker()),
            next == old(self)@.front(),
    {
        if let Some(code) = self.try_next() {
            return Poll::Ready(code);
        }
        self.register(context.waker());
        self.recheck()
    }
}

/// Best-effort delivery: of the scancodes published to a bridge, those that find
/// room are kept, in the order in which they came, and the others are dropped.
/// With room for `n` more, the first `n` are kept.
pub proof fn lemma_publish_all(bridge: BridgeState, codes: Seq<u8>)
    requires
        bridge.wf(),
    ensures
        bridge.publish_all(codes).wf(),
        bridge.publish_all(codes).capacity == bridge.capacity,
        codes.len() <= bridge.capacity - bridge.events.len() ==> bridge.publish_all(codes).events
            == bridge.events + codes,
        codes.len() > bridge.capacity - bridge.events.len() ==> bridge.publish_all(codes).events
            == bridge.events + codes.take(bridge.capacity - bridge.events.len()),
    decreases codes.len(),
{
    if codes.len() > 0 {
        lemma_publish_all(bridge, codes.drop_last());
    }
}

/// Best-effort delivery, from an empty bridge of capacity `capacity`: of `n`
/// scancodes published, the bridge holds all `n` in their order if `n` is at most
/// `capacity`, and else the first `capacity` of them, the others being dropped.
pub proof fn lemma_best_effort_delivery(capacity: nat, codes: Seq<u8>)
    ensures
        codes.len() <= capacity ==> BridgeState::empty(capacity).publish_all(codes).events == codes,
        codes.len() > capacity ==> BridgeState::empty(capacity).publish_all(codes).events
            == codes.take(capacity as int),
{
    lemma_publish_all(BridgeState::empty(capacity), codes);
}

/// First in, first out: a reader that polls a bridge again and again gets the
/// scancodes that the bridge holds in their order, one per poll, and then has to
/// wait with its handle in the cell.
pub proof fn lemma_reader_sees_events_in_order(bridge: BridgeState, waker: WakeHandle, count: nat)
    requires
        bridge.wf(),
        count <= bridge.events.len(),
    ensures
        bridge.after_polls(waker, count).events == bridge.events.skip(count as int),
        bridge.after_polls(waker, count).waker == bridge.waker,
        bridge.after_polls(waker, count).capacity == bridge.capacity,
        count < bridge.events.len() ==> bridge.after_polls(waker, count).front() == Poll::Ready(
            bridge.events[count as int],
        ),
        count == bridge.events.len() ==> bridge.after_polls(waker, count).front() == Poll::<
            u8,
        >::Pending && bridge.after_polls(waker, count).poll_next(waker).waker == Some(waker),
    decreases count,
{
    if count > 0 {
        lemma_reader_sees_events_in_order(bridge, waker, (count - 1) as nat);
    }
}

} // verus!
