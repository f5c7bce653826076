use vstd::prelude::*;
use crate::lob::types::{OrderId, Price, Qty};

verus! {

/// Why a command was rejected.
#[derive(Debug, Clone, Copy, PartialEq, Eq, Structural)]
pub enum RejectReason {
    DuplicateOrderId,
    InvalidPrice,
    InvalidQuantity,
    UnknownOrder,
}

/// What happened in the book.
#[derive(Debug, Clone, Copy, PartialEq, Eq, Structural)]
pub enum BookEventKind {
    Accepted { order_id: OrderId },
    Rejected { order_id: OrderId, reason: RejectReason },
    Fill { aggressor_order_id: OrderId, passive_order_id: OrderId, price: Price, qty: Qty },
    Filled { order_id: OrderId },
    Cancelled { order_id: OrderId, remaining_qty: Qty },
}

impl BookEventKind {
    pub fn rejected(order_id: OrderId, reason: RejectReason) -> (r: Self)
        ensures
            r == (BookEventKind::Rejected { order_id, reason }),
    {
        BookEventKind::Rejected { order_id, reason }
    }

    pub fn cancelled(order_id: OrderId, remaining_qty: Qty) -> (r: Self)
        ensures
            r == (BookEventKind::Cancelled { order_id, remaining_qty }),
    {
        BookEventKind::Cancelled { order_id, remaining_qty }
    }
}

/// An event stamped with the book's event sequence number.
#[derive(Debug, Clone, Copy, PartialEq, Eq, Structural)]
pub struct BookEvent {
    pub sequence: u64,
    pub kind: BookEventKind,
}

/// Receiver of order book events.
///
/// `takes` says how a sink's state changes when it receives one event, and
/// `can_take(n)` that it can still receive `n` more events.
pub trait BookEventSink: Sized {
    spec fn takes(before: Self, event: BookEvent, after: Self) -> bool;

    spec fn can_take(&self, n: nat) -> bool;

    /// A sink that can take `b` more events can take any smaller number.
    proof fn lemma_can_take_fewer(&self, a: nat, b: nat)
        requires
            a <= b,
            self.can_take(b),
        ensures
            self.can_take(a),
    ;

    fn push(&mut self, event: BookEvent)
        requires
            old(self).can_take(1),
        ensures
            Self::takes(*old(self), event, *final(self)),
            forall|n: nat| old(self).can_take(n + 1) ==> #[trigger] final(self).can_take(n),
    ;
}

/// `states` is a run of a sink through `events`, one event per step.
pub open spec fn sink_trace<S: BookEventSink>(states: Seq<S>, events: Seq<BookEvent>) -> bool {
    &&& states.len() == events.len() + 1
    &&& forall|i: int|
        0 <= i < events.len() ==> #[trigger] S::takes(states[i], events[i], states[i + 1])
}

/// The sink went from `before` to `after` by receiving `events` in order.
pub open spec fn receives<S: BookEventSink>(before: S, events: Seq<BookEvent>, after: S) -> bool {
    exists|states: Seq<S>|
        #[trigger] sink_trace(states, events) && states[0] == before && states.last() == after
}

/// Receiving no event leaves a sink as it is.
pub proof fn lemma_receives_none<S: BookEventSink>(s: S)
    ensures
        receives(s, Seq::<BookEvent>::empty(), s),
{
    let states = seq![s];
    assert(sink_trace(states, Seq::<BookEvent>::empty()));
}

/// Push every event of `events` into `sink`, in order.
pub fn emit_all<S: BookEventSink>(sink: &mut S, events: &Vec<BookEvent>)
    requires
        old(sink).can_take(events@.len()),
    ensures
        receives(*old(sink), events@, *final(sink)),
{
    let ghost states: Seq<S> = seq![*sink];
    let mut i: usize = 0;
    while i < events.len()
        invariant
            0 <= i <= events@.len(),
            sink.can_take((events@.len() - i) as nat),
            states.len() == i + 1,
            states[0] == *old(sink),
            states.last() == *sink,
            forall|j: int|
                0 <= j < i ==> #[trigger] S::takes(states[j], events@[j], states[j + 1]),
        decreases events@.len() - i,
    {
        proof {
            sink.lemma_can_take_fewer(1, (events@.len() - i) as nat);
        }
        sink.push(events[i]);
        assert(sink.can_take((events@.len() - (i + 1)) as nat)) by {
            assert(((events@.len() - (i + 1)) as nat) + 1 == (events@.len() - i) as nat);
        }
        proof {
            states = states.push(*sink);
            assert(S::takes(states[i as int], events@[i as int], states[i + 1]));
        }
        i = i + 1;
    }
    assert(sink_trace(states, events@));
}

impl BookEventSink for Vec<BookEvent> {
    open spec fn takes(before: Self, event: BookEvent, after: Self) -> bool {
        after@ == before@.push(event)
    }

    open spec fn can_take(&self, n: nat) -> bool {
        true
    }

    proof fn lemma_can_take_fewer(&self, a: nat, b: nat) {
    }

    fn push(&mut self, event: BookEvent) {
        Vec::push(self, event);
    }
}

proof fn lemma_vec_trace_prefix(states: Seq<Vec<BookEvent>>, events: Seq<BookEvent>, i: int)
    requires
        sink_trace(states, events),
        0 <= i <= events.len(),
    ensures
        states[i]@ == states[0]@ + events.take(i),
    decreases i,
{
    if i > 0 {
        lemma_vec_trace_prefix(states, events, i - 1);
        assert(Vec::<BookEvent>::takes(states[i - 1], events[i - 1], states[i]));
        assert(events.take(i) =~= events.take(i - 1).push(events[i - 1]));
    } else {
        assert(events.take(0) =~= Seq::<BookEvent>::empty());
    }
}

/// A vector sink that received `events` holds them after what it held before.
pub proof fn lemma_vec_receives(before: Vec<BookEvent>, events: Seq<BookEvent>, after: Vec<BookEvent>)
    requires
        receives(before, events, after),
    ensures
        after@ == before@ + events,
{
    let states = choose|states: Seq<Vec<BookEvent>>|
        #[trigger] sink_trace(states, events) && states[0] == before && states.last() == after;
    lemma_vec_trace_prefix(states, events, events.len() as int);
    assert(events.take(events.len() as int) =~= events);
}

/// Event sink that counts events per kind.
#[derive(Debug, Default, Clone, Copy)]
pub struct CountingEventSink {
    pub accepted: u64,
    pub rejected: u64,
    pub fill: u64,
    pub filled: u64,
    pub cancelled: u64,
}

impl CountingEventSink {
    pub open spec fn total(&self) -> nat {
        (self.accepted + self.rejected + self.fill + self.filled + self.cancelled) as nat
    }
}

impl BookEventSink for CountingEventSink {
    open spec fn takes(before: Self, event: BookEvent, after: Self) -> bool {
        match event.kind {
            BookEventKind::Accepted { .. } => after == CountingEventSink {
                accepted: (before.accepted + 1) as u64,
                ..before
            },
            BookEventKind::Rejected { .. } => after == CountingEventSink {
                rejected: (before.rejected + 1) as u64,
                ..before
            },
            BookEventKind::Fill { .. } => after == CountingEventSink {
                fill: (before.fill + 1) as u64,
                ..before
            },
            BookEventKind::Filled { .. } => after == CountingEventSink {
                filled: (before.filled + 1) as u64,
                ..before
            },
            BookEventKind::Cancelled { .. } => after == CountingEventSink {
                cancelled: (before.cancelled + 1) as u64,
                ..before
            },
        }
    }

    open spec fn can_take(&self, n: nat) -> bool {
        self.total() + n <= u64::MAX
    }

    proof fn lemma_can_take_fewer(&self, a: nat, b: nat) {
    }

    fn push(&mut self, event: BookEvent) {
        match event.kind {
            BookEventKind::Accepted { .. } => self.accepted = self.accepted + 1,
            BookEventKind::Rejected { .. } => self.rejected = self.rejected + 1,
            BookEventKind::Fill { .. } => self.fill = self.fill + 1,
            BookEventKind::Filled { .. } => self.filled = self.filled + 1,
            BookEventKind::Cancelled { .. } => self.cancelled = self.cancelled + 1,
        }
    }
}

} // verus!
