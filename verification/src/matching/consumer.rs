//! The matching side of the pipeline: commands taken off the queue are dispatched to
//! the book, and the consumer decides, from what it popped and whether the producer
//! is done, whether to go on.
use vstd::prelude::*;
use crate::lob::book_api::LimitOrderBook;
use crate::lob::event::{BookEventSink, CountingEventSink, receives};
use crate::lob::model::{BookView, Outcome, cancel_spec, limit_fits, limit_spec, market_spec};
use crate::lob::types::{Price, Qty};
use crate::matching::command::OrderCommand;

verus! {

/// Configuration of the two-thread matching pipeline.
#[derive(Debug, Clone, Copy)]
pub struct PipelineConfig {
    /// SPSC queue ring size (a power of two, at least 2).
    pub queue_slots: usize,
    /// LOB price tick range `(min, max)`.
    pub price_range: (Price, Price),
    /// LOB pre-allocation hint for order capacity.
    pub order_capacity: u64,
    /// Whether to pin threads to cores.
    pub core_pinning_enabled: bool,
    /// CPU core for the producer thread.
    pub producer_pin_core: u32,
    /// CPU core for the consumer / matching thread.
    pub consumer_pin_core: u32,
}

/// Aggregate results once the pipeline has drained all commands.
#[derive(Debug, Clone, Copy)]
pub struct PipelineResult {
    pub commands_processed: u64,
    pub events: CountingEventSink,
    pub final_best_bid: Option<(Price, Qty)>,
    pub final_best_ask: Option<(Price, Qty)>,
    pub final_order_count: u64,
}

/// What command `cmd` does to book `v`.
pub open spec fn command_outcome(v: BookView, cmd: OrderCommand) -> Outcome {
    match cmd {
        OrderCommand::NewOrder { order_id, side, price, qty } => limit_spec(v, order_id, side, price, qty),
        OrderCommand::MarketOrder { order_id, side, qty } => market_spec(v, order_id, side, qty),
        OrderCommand::CancelOrder { order_id } => cancel_spec(v, order_id),
    }
}

/// Command `cmd` on book `v` stays within machine limits.
pub open spec fn command_fits(v: BookView, cmd: OrderCommand) -> bool {
    match cmd {
        OrderCommand::NewOrder { order_id, side, price, qty } => limit_fits(v, order_id, side, price, qty),
        OrderCommand::MarketOrder { order_id, side, qty } => market_spec(v, order_id, side, qty).book.next_seq
            <= u64::MAX,
        OrderCommand::CancelOrder { .. } => v.next_seq < u64::MAX,
    }
}

/// Hand one command to the book: a new order is added as a limit order, a market
/// order as a market order, a cancel cancels.
pub fn dispatch<B: LimitOrderBook, S: BookEventSink>(book: &mut B, cmd: OrderCommand, events: &mut S)
    requires
        old(book).valid(),
        command_fits(old(book).book(), cmd),
        old(events).can_take(command_outcome(old(book).book(), cmd).events.len()),
    ensures
        final(book).valid(),
        final(book).book() == command_outcome(old(book).book(), cmd).book,
        receives(*old(events), command_outcome(old(book).book(), cmd).events, *final(events)),
{
    match cmd {
        OrderCommand::NewOrder { order_id, side, price, qty } => book.add_limit_order(
            order_id,
            side,
            price,
            qty,
            events,
        ),
        OrderCommand::MarketOrder { order_id, side, qty } => book.add_market_order(order_id, side, qty, events),
        OrderCommand::CancelOrder { order_id } => book.cancel_order(order_id, events),
    }
}

/// Progress of the consumer loop.
#[derive(Debug, Clone, Copy, PartialEq, Eq, Structural)]
pub struct ConsumerState {
    /// Commands dispatched so far.
    pub commands_processed: u64,
    /// The queue was found empty once after the producer finished.
    pub shutting_down: bool,
}

impl ConsumerState {
    pub fn new() -> (r: Self)
        ensures
            r == (ConsumerState { commands_processed: 0, shutting_down: false }),
    {
        ConsumerState { commands_processed: 0, shutting_down: false }
    }

    /// One turn of the consumer loop. `popped` is what the queue gave, and `done`
    /// whether the producer had finished when the queue was found empty. A command is
    /// dispatched and counted. An empty queue after the producer finished is checked
    /// once more before the loop stops, so that nothing pushed just before the end is
    /// lost. Returns whether the loop goes on.
    pub fn step<B: LimitOrderBook, S: BookEventSink>(
        &mut self,
        book: &mut B,
        popped: Option<OrderCommand>,
        done: bool,
        events: &mut S,
    ) -> (r: bool)
        requires
            old(book).valid(),
            popped matches Some(cmd) ==> {
                &&& command_fits(old(book).book(), cmd)
                &&& old(events).can_take(command_outcome(old(book).book(), cmd).events.len())
                &&& old(self).commands_processed < u64::MAX
            },
        ensures
            final(book).valid(),
            match popped {
                Some(cmd) => {
                    &&& r
                    &&& final(self).commands_processed == old(self).commands_processed + 1
                    &&& final(self).shutting_down == old(self).shutting_down
                    &&& final(book).book() == command_outcome(old(book).book(), cmd).book
                    &&& receives(*old(events), command_outcome(old(book).book(), cmd).events, *final(events))
                },
                None => {
                    &&& final(book).book() == old(book).book()
                    &&& *final(events) == *old(events)
                    &&& final(self).commands_processed == old(self).commands_processed
                    &&& r == !(done && old(self).shutting_down)
                    &&& final(self).shutting_down == (old(self).shutting_down || done)
                },
            },
    {
        match popped {
            Some(cmd) => {
                dispatch(book, cmd, events);
                self.commands_processed = self.commands_processed + 1;
                true
            },
            None => {
                if done {
                    if self.shutting_down {
                        return false;
                    }
                    self.shutting_down = true;
                }
                true
            },
        }
    }

    /// The pipeline's results from the final state of the loop and of the book.
    pub fn finish<B: LimitOrderBook>(&self, book: &B, events: CountingEventSink) -> (r: PipelineResult)
        requires
            book.valid(),
        ensures
            r.commands_processed == self.commands_processed,
            r.events == events,
            r.final_best_bid == book.book().top(crate::lob::types::Side::Buy),
            r.final_best_ask == book.book().top(crate::lob::types::Side::Sell),
            r.final_order_count == book.book().orders.len(),
    {
        PipelineResult {
            commands_processed: self.commands_processed,
            events,
            final_best_bid: book.best_bid(),
            final_best_ask: book.best_ask(),
            final_order_count: book.order_count(),
        }
    }
}

} // verus!
