use vstd::prelude::*;

use crate::error::Error;

verus! {

/// A fill: the best resting (maker) order crossed the incoming (taker)
/// order. The price is always the maker's price.
#[derive(Clone, Copy, Debug, PartialEq, Eq, Structural)]
pub struct FillEvent {
    pub maker: u64,
    pub taker: u64,
    pub price: i64,
    pub quantity: i64,
    pub timestamp: u64,
    pub seq_num: u64,
}

/// A resting order left the book unfilled for `quantity` lots, e.g. on
/// expiry or by self-trade policy.
#[derive(Clone, Copy, Debug, PartialEq, Eq, Structural)]
pub struct OutEvent {
    pub owner: u64,
    pub order_id: u64,
    pub quantity: i64,
    pub timestamp: u64,
    pub seq_num: u64,
}

/// One record produced by matching and drained by the external settlement
/// consumer.
#[derive(Clone, Copy, Debug, PartialEq, Eq, Structural)]
pub enum Event {
    Fill(FillEvent),
    Out(OutEvent),
}

/// Fixed-capacity ring of events. Appending to a full queue is an explicit
/// error, never a silent overwrite: dropping a fill would lose a
/// settlement.
///
/// The slot vector is allocated once at creation and never resized; `head`
/// is the index of the oldest unconsumed event and `count` the number of
/// unconsumed events.
#[derive(Debug)]
pub struct EventQueue {
    slots: Vec<Event>,
    head: usize,
    count: usize,
}

impl EventQueue {
    /// Number of slots; fixed at creation.
    pub closed spec fn capacity_spec(self) -> int {
        self.slots@.len() as int
    }

    /// The slot holding the `i`-th unconsumed event, counting from the
    /// oldest.
    pub closed spec fn slot_of(self, i: int) -> int {
        if self.head + i < self.slots@.len() {
            self.head + i
        } else {
            self.head + i - self.slots@.len()
        }
    }

    /// The unconsumed events, oldest first.
    pub closed spec fn contents(self) -> Seq<Event> {
        Seq::new(self.count as nat, |i: int| self.slots@[self.slot_of(i)])
    }

    pub closed spec fn wf(self) -> bool {
        &&& self.slots@.len() >= 1
        &&& self.head < self.slots@.len()
        &&& self.count <= self.slots@.len()
    }

    /// An empty queue with `capacity` slots.
    pub fn new(capacity: usize) -> (q: EventQueue)
        requires
            capacity >= 1,
        ensures
            q.wf(),
            q.capacity_spec() == capacity,
            q.contents() == Seq::<Event>::empty(),
    {
        let mut slots: Vec<Event> = Vec::new();
        let filler = Event::Out(OutEvent {
            owner: 0,
            order_id: 0,
            quantity: 0,
            timestamp: 0,
            seq_num: 0,
        });
        let mut i: usize = 0;
        while i < capacity
            invariant
                slots@.len() == i,
                i <= capacity,
            decreases capacity - i,
        {
            slots.push(filler);
            i = i + 1;
        }
        let q = EventQueue { slots, head: 0, count: 0 };
        proof {
            assert(q.contents() =~= Seq::<Event>::empty());
        }
        q
    }

    /// Number of unconsumed events.
    pub fn len(&self) -> (n: usize)
        ensures
            n == self.contents().len(),
            self.wf() ==> n <= self.capacity_spec(),
    {
        self.count
    }

    /// Number of slots.
    pub fn capacity(&self) -> (n: usize)
        ensures
            n == self.capacity_spec(),
    {
        self.slots.len()
    }

    /// Appends `event`, or reports `QueueOverflow` when every slot holds an
    /// unconsumed event; a full queue is never silently overwritten.
    pub fn push(&mut self, event: Event) -> (r: Result<(), Error>)
        requires
            old(self).wf(),
        ensures
            final(self).wf(),
            final(self).capacity_spec() == old(self).capacity_spec(),
            old(self).contents().len() == old(self).capacity_spec() ==> {
                &&& r == Err::<(), Error>(Error::QueueOverflow)
                &&& *final(self) == *old(self)
            },
            old(self).contents().len() < old(self).capacity_spec() ==> {
                &&& r == Ok::<(), Error>(())
                &&& final(self).contents() == old(self).contents().push(event)
            },
    {
        if self.count == self.slots.len() {
            Err(Error::QueueOverflow)
        } else {
            self.push_with_space(event);
            Ok(())
        }
    }

    /// Appends when a free slot is known to exist.
    pub(crate) fn push_with_space(&mut self, event: Event)
        requires
            old(self).wf(),
            old(self).contents().len() < old(self).capacity_spec(),
        ensures
            final(self).wf(),
            final(self).capacity_spec() == old(self).capacity_spec(),
            final(self).contents() == old(self).contents().push(event),
    {
        let len = self.slots.len();
        let idx = if self.head < len - self.count {
            self.head + self.count
        } else {
            self.head - (len - self.count)
        };
        self.slots[idx] = event;
        self.count = self.count + 1;
        proof {
            assert forall|i: int| 0 <= i < old(self).count implies self.contents()[i]
                == old(self).contents()[i] by {
                assert(self.slot_of(i) != old(self).slot_of(self.count - 1) as int || i
                    == self.count - 1);
            }
            assert(self.contents() =~= old(self).contents().push(event));
        }
    }

    /// Removes and returns the oldest unconsumed event, or `None` when the
    /// queue is empty.
    pub fn pop_front(&mut self) -> (r: Option<Event>)
        requires
            old(self).wf(),
        ensures
            final(self).wf(),
            final(self).capacity_spec() == old(self).capacity_spec(),
            old(self).contents().len() == 0 ==> r == None::<Event> && *final(self) == *old(self),
            old(self).contents().len() > 0 ==> {
                &&& r == Some(old(self).contents()[0])
                &&& final(self).contents() == old(self).contents().drop_first()
            },
    {
        if self.count == 0 {
            None
        } else {
            let len = self.slots.len();
            let ev = self.slots[self.head];
            self.head = if self.head + 1 == len {
                0
            } else {
                self.head + 1
            };
            self.count = self.count - 1;
            proof {
                assert forall|i: int| 0 <= i < self.count implies self.contents()[i]
                    == old(self).contents()[i + 1] by {
                    assert(self.slot_of(i) == old(self).slot_of(i + 1));
                }
                assert(self.contents() =~= old(self).contents().drop_first());
            }
            Some(ev)
        }
    }

    /// The oldest unconsumed event without removing it, or `None` when the
    /// queue is empty.
    pub fn peek(&self) -> (r: Option<Event>)
        requires
            self.wf(),
        ensures
            self.contents().len() == 0 ==> r == None::<Event>,
            self.contents().len() > 0 ==> r == Some(self.contents()[0]),
    {
        if self.count == 0 {
            None
        } else {
            Some(self.slots[self.head])
        }
    }
}

} // verus!
