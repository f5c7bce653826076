//! The decisions of the market data hot loop: MoldUDP64 decode → reorder ring → ITCH
//! decode → book apply → strategy.
//!
//! Datagrams are copied into a bounded reorder ring and drained in strict `seq` order.
//! The receive loop itself, with the socket and the clock, runs outside this library
//! and hands each datagram and each decoded message to the methods here.
use vstd::prelude::*;
use crate::feed::decode::{frame_fits, message_is, pop_spec};
use crate::feed::feed_book::{FeedBookAdapter, feed_book_after, feed_events, feed_fits};
use crate::feed::message::ItchMessage;
use crate::feed::wire::{be16_at, be64_at, read_be16};
use crate::handler::itch::ItchDecoder;
use crate::handler::mold_udp64::{MoldDecodeError, decode_packet};
use crate::handler::outbound::OutboundBuf;
use crate::handler::reorder::{
    OrderedDatagram, PushError, PushOutcome, RawTs, ReorderBuffer, ReorderStats, push_result,
};
use crate::handler::strategy::{
    QuoterState, quote_fits, quote_next_after, quote_price_after, quote_resting_after, quote_sends,
};
use crate::lob::book_api::LimitOrderBook;
use crate::lob::event::{BookEventSink, CountingEventSink, receives};

verus! {

/// How many sequence numbers a datagram takes: the message count of a data packet
/// (1 to 65534 messages), one for any other datagram.
pub open spec fn packet_span(d: Seq<u8>) -> nat {
    if d.len() >= 20 && 1 <= be16_at(d, 18) && be16_at(d, 18) < 0xFFFF {
        be16_at(d, 18) as nat
    } else {
        1
    }
}

/// The `k` sequence numbers from `n` on.
pub open spec fn seq_numbers(n: u64, k: nat) -> Set<u64> {
    Set::new(|s: u64| n <= s < n + k)
}

/// Errors that stop the hot loop.
#[derive(Debug, Clone, Copy, PartialEq, Eq, Structural)]
pub enum PipelineError {
    ReorderPush(PushError),
    MoldDecode(MoldDecodeError),
}

/// Configuration for the market data handler pipeline.
#[derive(Debug, Clone, Copy)]
pub struct PipelineConfig {
    /// LOB price tick range `(min_price, max_price)`.
    pub price_range: (u64, u64),
    /// LOB pre-allocation hint for order capacity.
    pub order_capacity: u64,
    /// If true, pin the pipeline thread to `pin_core`.
    pub core_pinning_enabled: bool,
    /// CPU core to pin the pipeline thread to.
    pub pin_core: u32,
    /// Sequence number of the first expected packet.
    pub first_seq: u64,
    /// Datagram reorder ring capacity (values below 1 are clamped to 1).
    pub reorder_window: usize,
    /// Socket read timeout in milliseconds; `None` blocks.
    pub read_timeout_ms: Option<u64>,
}

/// State of the hot loop: the reorder ring, the decoder, the feed-to-book adapter, the
/// book event counters and the quoter.
pub struct MarketHandlerPipeline {
    pub config: PipelineConfig,
    reorder: ReorderBuffer,
    decoder: ItchDecoder,
    itch_to_book_adapter: FeedBookAdapter,
    events: CountingEventSink,
    quoter: QuoterState,
}

impl MarketHandlerPipeline {
    pub closed spec fn cfg(&self) -> PipelineConfig {
        self.config
    }

    pub closed spec fn ring(&self) -> ReorderBuffer {
        self.reorder
    }

    pub closed spec fn book_events(&self) -> CountingEventSink {
        self.events
    }

    pub closed spec fn quote_state(&self) -> QuoterState {
        self.quoter
    }

    pub open spec fn wf(&self) -> bool {
        self.ring().wf()
    }

    /// Build the loop state from `config`: an empty reorder ring expecting
    /// `first_seq`, with at least one slot; zeroed counters; a quoter with no quote.
    pub fn from_config(config: PipelineConfig) -> (r: Self)
        ensures
            r.wf(),
            r.cfg() == config,
            r.ring().next() == config.first_seq,
            r.ring().win() == (if config.reorder_window < 1 { 1 } else { config.reorder_window as nat }),
            r.ring()@ == Map::<u64, (Seq<u8>, RawTs)>::empty(),
            r.ring().counters() == (ReorderStats {
                packets_late_duplicate: 0,
                packets_duplicate_seq: 0,
                reorder_ahead_arrivals: 0,
            }),
            r.book_events() == (CountingEventSink { accepted: 0, rejected: 0, fill: 0, filled: 0, cancelled: 0 }),
            r.quote_state().resting() == None::<u64>,
            r.quote_state().next_id() == 1,
    {
        let reorder_window = if config.reorder_window < 1 {
            1
        } else {
            config.reorder_window
        };
        MarketHandlerPipeline {
            config,
            reorder: ReorderBuffer::new(config.first_seq, reorder_window),
            decoder: ItchDecoder::new(),
            itch_to_book_adapter: FeedBookAdapter::new(),
            events: CountingEventSink { accepted: 0, rejected: 0, fill: 0, filled: 0, cancelled: 0 },
            quoter: QuoterState::new(),
        }
    }

    /// Take one received datagram, stamped `t0`: one whose MoldUDP64 header does not
    /// decode is dropped; otherwise it goes into the reorder ring under the header's
    /// sequence number, and the push outcome is counted in `stats`. A push error stops
    /// the loop.
    pub fn accept_datagram(&mut self, bytes: &[u8], t0: RawTs, stats: &mut ReorderStats) -> (r: Result<
        (),
        PipelineError,
    >)
        requires
            old(self).wf(),
            old(self).ring().counters().has_room(),
            old(stats).has_room(),
        ensures
            final(self).wf(),
            final(self).cfg() == old(self).cfg(),
            final(self).book_events() == old(self).book_events(),
            final(self).quote_state() == old(self).quote_state(),
            final(self).ring().next() == old(self).ring().next(),
            final(self).ring().win() == old(self).ring().win(),
            bytes@.len() < 20 ==> r == Ok::<(), PipelineError>(()) && final(self).ring()@ == old(self).ring()@
                && *final(stats) == *old(stats) && final(self).ring().counters() == old(self).ring().counters(),
            bytes@.len() >= 20 ==> ({
                let seq = be64_at(bytes@, 10);
                match push_result(old(self).ring().next(), old(self).ring().win(), old(self).ring()@, seq, bytes@.len()) {
                    Err(e) => {
                        &&& r == Err::<(), PipelineError>(PipelineError::ReorderPush(e))
                        &&& final(self).ring()@ == old(self).ring()@
                        &&& *final(stats) == *old(stats)
                        &&& final(self).ring().counters() == old(self).ring().counters()
                    },
                    Ok(o) => {
                        &&& r == Ok::<(), PipelineError>(())
                        &&& *final(stats) == old(stats).after(o)
                        &&& final(self).ring().counters() == old(self).ring().counters().after(o)
                        &&& final(self).ring()@ == (if o is Buffered {
                            old(self).ring()@.insert(seq, (bytes@, t0))
                        } else {
                            old(self).ring()@
                        })
                    },
                }
            }),
    {
        let seq = match decode_packet(bytes) {
            Ok(p) => p.header.seq,
            Err(_) => {
                return Ok(());
            },
        };
        match self.reorder.push(seq, bytes, t0) {
            Ok(outcome) => {
                stats.record_push_ok(outcome);
                Ok(())
            },
            Err(e) => Err(PipelineError::ReorderPush(e)),
        }
    }

    /// The next datagram in sequence order, if it has arrived. A packet's sequence
    /// number is that of its first message, so a data packet of `k` messages takes the
    /// numbers from its own to `k - 1` past it: the watermark moves past all of them,
    /// and a datagram buffered under one of those numbers is dropped. Any other packet
    /// takes one number.
    pub fn next_ready(&mut self) -> (r: Option<OrderedDatagram>)
        requires
            old(self).wf(),
            old(self).ring()@.contains_key(old(self).ring().next()) ==> old(self).ring().next() + packet_span(
                old(self).ring()@[old(self).ring().next()].0,
            ) <= u64::MAX,
        ensures
            final(self).wf(),
            final(self).cfg() == old(self).cfg(),
            final(self).book_events() == old(self).book_events(),
            final(self).quote_state() == old(self).quote_state(),
            final(self).ring().win() == old(self).ring().win(),
            final(self).ring().counters() == old(self).ring().counters(),
            old(self).ring()@.contains_key(old(self).ring().next()) ==> ({
                let n = old(self).ring().next();
                let k = packet_span(old(self).ring()@[n].0);
                &&& r matches Some(d) && d.data() == old(self).ring()@[n].0 && d.stamp() == old(self).ring()@[n].1
                &&& final(self).ring().next() == n + k
                &&& final(self).ring()@ == old(self).ring()@.remove_keys(seq_numbers(n, k))
            }),
            !old(self).ring()@.contains_key(old(self).ring().next()) ==> (r is None && final(self).ring()@ == old(
                self,
            ).ring()@ && final(self).ring().next() == old(self).ring().next()),
    {
        let ghost n0 = self.reorder.next();
        let ghost m0 = self.reorder@;
        let d = match self.reorder.pop_ready() {
            None => {
                return None;
            },
            Some(d) => d,
        };
        let bytes = d.as_slice();
        let span: u64 = if bytes.len() >= 20 {
            let c = read_be16(bytes, 18);
            if c >= 1 && c < 0xFFFF {
                c as u64
            } else {
                1
            }
        } else {
            1
        };
        assert(span == packet_span(m0[n0].0));
        assert(self.reorder@ =~= m0.remove_keys(seq_numbers(n0, 1)));
        let mut j: u64 = 1;
        while j < span
            invariant
                self.wf(),
                1 <= j <= span,
                n0 + span <= u64::MAX,
                self.ring().next() == n0 + j,
                self.ring().win() == old(self).ring().win(),
                self.ring().counters() == old(self).ring().counters(),
                self.reorder@ == m0.remove_keys(seq_numbers(n0, j as nat)),
                self.config == old(self).config,
                self.events == old(self).events,
                self.quoter == old(self).quoter,
            decreases span - j,
        {
            let ghost before = self.reorder@;
            match self.reorder.pop_ready() {
                Some(_) => {},
                None => {
                    self.reorder.advance_in_order();
                },
            }
            proof {
                assert(self.reorder@ =~= m0.remove_keys(seq_numbers(n0, (j + 1) as nat)));
            }
            j = j + 1;
        }
        Some(d)
    }

    /// Decode one ITCH message of a datagram's body: `None` where the bytes hold no
    /// whole message or do not decode.
    pub fn decode_message<'a>(&mut self, buf: &'a [u8]) -> (r: Option<ItchMessage<'a>>)
        requires
            frame_fits(buf@),
        ensures
            *final(self) == *old(self),
            match pop_spec(buf@, false) {
                Ok(Some((d, _))) => r matches Some(m) && message_is(m, d),
                _ => r is None,
            },
    {
        match self.decoder.pop_message(buf) {
            Ok(Some((msg, _consumed))) => Some(msg),
            _ => None,
        }
    }

    /// Handle one decoded ITCH message: count it, apply it to `book`, and let the
    /// quoter react. Returns whether the quoter sent an order, which is then counted
    /// in `orders_emitted`.
    pub fn process_itch_message<B: LimitOrderBook>(
        &mut self,
        msg: &ItchMessage<'_>,
        book: &mut B,
        messages_decoded: &mut u64,
        orders_emitted: &mut u64,
    ) -> (r: bool)
        requires
            old(book).valid(),
            *old(messages_decoded) < u64::MAX,
            *old(orders_emitted) < u64::MAX,
            feed_fits(old(book).book(), *msg, old(self).book_events()),
            quote_fits(
                old(self).quote_state().resting(),
                old(self).quote_state().next_id(),
                feed_book_after(old(book).book(), *msg),
            ),
        ensures
            final(book).valid(),
            final(self).cfg() == old(self).cfg(),
            final(self).ring() == old(self).ring(),
            *final(messages_decoded) == *old(messages_decoded) + 1,
            final(book).book() == feed_book_after(old(book).book(), *msg),
            receives(old(self).book_events(), feed_events(old(book).book(), *msg), final(self).book_events()),
            r == quote_sends(old(self).quote_state().resting(), old(self).quote_state().quote_price(), final(book).book()),
            final(self).quote_state().resting() == quote_resting_after(
                old(self).quote_state().resting(),
                old(self).quote_state().quote_price(),
                old(self).quote_state().next_id(),
                final(book).book(),
            ),
            final(self).quote_state().quote_price() == quote_price_after(
                old(self).quote_state().resting(),
                old(self).quote_state().quote_price(),
                final(book).book(),
            ),
            final(self).quote_state().next_id() == quote_next_after(
                old(self).quote_state().resting(),
                old(self).quote_state().next_id(),
                final(book).book(),
            ),
            *final(orders_emitted) == *old(orders_emitted) + (if r { 1int } else { 0int }),
    {
        *messages_decoded = *messages_decoded + 1;
        let _ = self.itch_to_book_adapter.apply(book, msg, &mut self.events);
        let mut out = OutboundBuf::default();
        let sent = self.quoter.on_book_update(book, &mut out);
        if sent {
            *orders_emitted = *orders_emitted + 1;
        }
        sent
    }

    /// The reorder ring's own counters of push outcomes.
    pub fn ring_stats(&self) -> (r: ReorderStats)
        ensures
            r == self.ring().counters(),
    {
        self.reorder.stats()
    }

    /// The book event counters so far.
    pub fn book_event_counts(&self) -> (r: CountingEventSink)
        ensures
            r == self.book_events(),
    {
        self.events
    }
}

} // verus!
