//! Applying feed messages to an order book.
use vstd::prelude::*;
use crate::feed::message::{ItchMessage, Side as FeedSide};
use crate::lob::book_api::LimitOrderBook;
use crate::lob::event::{BookEvent, BookEventSink, lemma_receives_none, receives};
use crate::lob::model::{BookView, Outcome, cancel_spec, limit_fits, limit_spec, reduce_spec};
use crate::lob::types::{OrderId, Side as BookSide};

verus! {

/// Outcome of applying one feed message to a book.
#[derive(Debug, Clone, Copy, PartialEq, Eq, Structural)]
pub enum FeedBookAction {
    AppliedAdd,
    AppliedCancel,
    AppliedReduce,
    IgnoredSystemEvent,
}

/// Feed messages that cannot be applied to a book.
#[derive(Debug, Clone, Copy, PartialEq, Eq, Structural)]
pub enum FeedBookError {
    /// The message kind has no book command (trades).
    UnsupportedMessageKind,
    /// Cancel or execution for an order id that is not resting.
    UnknownOrder(OrderId),
    /// Cancel or execution of quantity zero.
    InvalidReductionQty(OrderId),
}

pub open spec fn book_side(side: FeedSide) -> BookSide {
    match side {
        FeedSide::Buy => BookSide::Buy,
        FeedSide::Sell => BookSide::Sell,
    }
}

fn map_side(side: FeedSide) -> (r: BookSide)
    ensures
        r == book_side(side),
{
    match side {
        FeedSide::Buy => BookSide::Buy,
        FeedSide::Sell => BookSide::Sell,
    }
}

/// Applying `msg` to book `v` stays within machine limits and the sink's room; a
/// message that is refused asks for nothing.
pub open spec fn feed_fits<S: BookEventSink>(v: BookView, msg: ItchMessage, sink: S) -> bool {
    match msg {
        ItchMessage::AddOrder { oid, side, qty, price, .. } => {
            &&& limit_fits(v, oid, book_side(side), price as u64, qty as u64)
            &&& sink.can_take(limit_spec(v, oid, book_side(side), price as u64, qty as u64).events.len())
        },
        ItchMessage::OrderCanceled { oid, qty } => v.orders.contains_key(oid) && qty != 0 ==> v.next_seq < u64::MAX
            && sink.can_take(1),
        ItchMessage::OrderExecuted { oid, qty } => v.orders.contains_key(oid) && qty != 0 ==> v.next_seq < u64::MAX
            && sink.can_take(1),
        _ => true,
    }
}

/// The book command that feed message `msg` amounts to on book `v`, as its outcome;
/// `None` where the message leaves the book as it is.
pub open spec fn feed_outcome(v: BookView, msg: ItchMessage) -> Option<Outcome> {
    match msg {
        ItchMessage::AddOrder { oid, side, qty, price, .. } => Some(
            limit_spec(v, oid, book_side(side), price as u64, qty as u64),
        ),
        ItchMessage::OrderCanceled { oid, qty } => if !v.orders.contains_key(oid) || qty == 0 {
            None
        } else if v.orders[oid].remaining_qty == qty {
            Some(cancel_spec(v, oid))
        } else {
            Some(reduce_spec(v, oid, qty as u64))
        },
        ItchMessage::OrderExecuted { oid, qty } => if !v.orders.contains_key(oid) || qty == 0 {
            None
        } else {
            Some(reduce_spec(v, oid, qty as u64))
        },
        _ => None,
    }
}

/// The book after feed message `msg` is applied to `v`.
pub open spec fn feed_book_after(v: BookView, msg: ItchMessage) -> BookView {
    match feed_outcome(v, msg) {
        Some(o) => o.book,
        None => v,
    }
}

/// The events that applying feed message `msg` to `v` emits.
pub open spec fn feed_events(v: BookView, msg: ItchMessage) -> Seq<BookEvent> {
    match feed_outcome(v, msg) {
        Some(o) => o.events,
        None => Seq::empty(),
    }
}

/// Adapter that turns feed messages into book commands.
#[derive(Debug, Default, Clone, Copy)]
pub struct FeedBookAdapter;

impl FeedBookAdapter {
    pub fn new() -> Self {
        FeedBookAdapter
    }

    /// Apply one feed message: an add becomes a limit order; a cancel of the whole open
    /// quantity becomes a cancel, of part of it a reduce; an execution becomes a reduce;
    /// a system event is ignored; a trade is refused. A cancel or execution of an id
    /// that is not resting, or of quantity zero, is refused and leaves the book as is.
    pub fn apply<B: LimitOrderBook, S: BookEventSink>(
        &mut self,
        book: &mut B,
        msg: &ItchMessage<'_>,
        events: &mut S,
    ) -> (r: Result<FeedBookAction, FeedBookError>)
        requires
            old(book).valid(),
            feed_fits(old(book).book(), *msg, *old(events)),
        ensures
            final(book).valid(),
            final(book).book() == feed_book_after(old(book).book(), *msg),
            receives(*old(events), feed_events(old(book).book(), *msg), *final(events)),
            match *msg {
                ItchMessage::SystemEvent { .. } => r == Ok::<FeedBookAction, FeedBookError>(
                    FeedBookAction::IgnoredSystemEvent,
                ) && final(book).book() == old(book).book() && *final(events) == *old(events),
                ItchMessage::Trade { .. } => r == Err::<FeedBookAction, FeedBookError>(
                    FeedBookError::UnsupportedMessageKind,
                ) && final(book).book() == old(book).book() && *final(events) == *old(events),
                ItchMessage::AddOrder { oid, side, qty, price, .. } => {
                    let o = limit_spec(old(book).book(), oid, book_side(side), price as u64, qty as u64);
                    &&& r == Ok::<FeedBookAction, FeedBookError>(FeedBookAction::AppliedAdd)
                    &&& final(book).book() == o.book
                    &&& receives(*old(events), o.events, *final(events))
                },
                ItchMessage::OrderCanceled { oid, qty } => if !old(book).book().orders.contains_key(oid) {
                    r == Err::<FeedBookAction, FeedBookError>(FeedBookError::UnknownOrder(oid))
                        && final(book).book() == old(book).book() && *final(events) == *old(events)
                } else if qty == 0 {
                    r == Err::<FeedBookAction, FeedBookError>(FeedBookError::InvalidReductionQty(oid))
                        && final(book).book() == old(book).book() && *final(events) == *old(events)
                } else if old(book).book().orders[oid].remaining_qty == qty {
                    &&& r == Ok::<FeedBookAction, FeedBookError>(FeedBookAction::AppliedCancel)
                    &&& final(book).book() == cancel_spec(old(book).book(), oid).book
                    &&& receives(*old(events), cancel_spec(old(book).book(), oid).events, *final(events))
                } else {
                    &&& r == Ok::<FeedBookAction, FeedBookError>(FeedBookAction::AppliedReduce)
                    &&& final(book).book() == reduce_spec(old(book).book(), oid, qty as u64).book
                    &&& receives(*old(events), reduce_spec(old(book).book(), oid, qty as u64).events, *final(events))
                },
                ItchMessage::OrderExecuted { oid, qty } => if !old(book).book().orders.contains_key(oid) {
                    r == Err::<FeedBookAction, FeedBookError>(FeedBookError::UnknownOrder(oid))
                        && final(book).book() == old(book).book() && *final(events) == *old(events)
                } else if qty == 0 {
                    r == Err::<FeedBookAction, FeedBookError>(FeedBookError::InvalidReductionQty(oid))
                        && final(book).book() == old(book).book() && *final(events) == *old(events)
                } else {
                    &&& r == Ok::<FeedBookAction, FeedBookError>(FeedBookAction::AppliedReduce)
                    &&& final(book).book() == reduce_spec(old(book).book(), oid, qty as u64).book
                    &&& receives(*old(events), reduce_spec(old(book).book(), oid, qty as u64).events, *final(events))
                },
            },
    {
        proof {
            lemma_receives_none(*events);
        }
        match msg {
            ItchMessage::SystemEvent { .. } => Ok(FeedBookAction::IgnoredSystemEvent),
            ItchMessage::AddOrder { oid, side, qty, price, symbol: _ } => {
                book.add_limit_order(*oid, map_side(*side), *price as u64, *qty as u64, events);
                Ok(FeedBookAction::AppliedAdd)
            },
            ItchMessage::OrderCanceled { oid, qty } => {
                let remaining = match book.order(*oid) {
                    None => {
                        return Err(FeedBookError::UnknownOrder(*oid));
                    },
                    Some(existing) => existing.remaining_qty,
                };
                let cancel_qty = *qty as u64;
                if cancel_qty == 0 {
                    return Err(FeedBookError::InvalidReductionQty(*oid));
                }
                if remaining == cancel_qty {
                    book.cancel_order(*oid, events);
                    Ok(FeedBookAction::AppliedCancel)
                } else {
                    book.reduce_order(*oid, cancel_qty, events);
                    Ok(FeedBookAction::AppliedReduce)
                }
            },
            ItchMessage::OrderExecuted { oid, qty } => {
                match book.order(*oid) {
                    None => {
                        return Err(FeedBookError::UnknownOrder(*oid));
                    },
                    Some(_) => {},
                }
                let exec_qty = *qty as u64;
                if exec_qty == 0 {
                    return Err(FeedBookError::InvalidReductionQty(*oid));
                }
                book.reduce_order(*oid, exec_qty, events);
                Ok(FeedBookAction::AppliedReduce)
            },
            ItchMessage::Trade { .. } => Err(FeedBookError::UnsupportedMessageKind),
        }
    }
}

} // verus!
