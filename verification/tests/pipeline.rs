use hft_demos::feed::encode::encode_add_order;
use hft_demos::feed::message::Side as FeedSide;
use hft_demos::handler::mold_udp64::{MsgIter, PacketKind, decode_packet, encode_packet};
use hft_demos::handler::pipeline::{MarketHandlerPipeline, PipelineConfig as HandlerConfig, PipelineError};
use hft_demos::handler::reorder::{PushError, ReorderStats};
use hft_demos::lob::book_api::LimitOrderBook;
use hft_demos::lob::book_v0::book::LimitOrderBookV0;
use hft_demos::lob::event::CountingEventSink;
use hft_demos::lob::types::Side;
use hft_demos::matching::command::OrderCommand;
use hft_demos::matching::consumer::{ConsumerState, PipelineConfig, PipelineResult};
use hft_demos::matching::lobster::LobsterParser;
use hft_demos::queue::spsc::SpscQueue;

/// Runs the commands through an SPSC queue into the consumer loop, on one thread:
/// whenever the queue is full the consumer takes a turn.
fn run_and_terminate(config: PipelineConfig, commands: &[OrderCommand]) -> PipelineResult {
    let mut book = <LimitOrderBookV0 as LimitOrderBook>::with_config(config.price_range, config.order_capacity);
    let queue = SpscQueue::new(config.queue_slots).expect("invalid queue slot count");
    let (mut producer, mut consumer) = queue.split();
    let mut state = ConsumerState::new();
    let mut events = CountingEventSink::default();

    for &cmd in commands {
        let mut pending = cmd;
        loop {
            match producer.try_push(pending) {
                Ok(()) => break,
                Err(back) => {
                    pending = back;
                    let popped = consumer.try_pop();
                    state.step(&mut book, popped, false, &mut events);
                }
            }
        }
    }
    loop {
        let popped = consumer.try_pop();
        let done = popped.is_none();
        if !state.step(&mut book, popped, done, &mut events) {
            break;
        }
    }
    state.finish(&book, events)
}

fn test_config() -> PipelineConfig {
    PipelineConfig {
        queue_slots: 64,
        price_range: (1, 10_000),
        order_capacity: 1_000,
        core_pinning_enabled: true,
        producer_pin_core: 2,
        consumer_pin_core: 3,
    }
}

#[test]
fn full_fill_clears_both_orders() {
    let commands = vec![
        OrderCommand::NewOrder { order_id: 1, side: Side::Buy, price: 100, qty: 10 },
        OrderCommand::NewOrder { order_id: 2, side: Side::Sell, price: 100, qty: 10 },
    ];

    let result = run_and_terminate(test_config(), &commands);

    assert_eq!(result.commands_processed, 2);
    assert_eq!(result.events.accepted, 2);
    assert_eq!(result.events.fill, 1);
    assert_eq!(result.events.filled, 2);
    assert_eq!(result.final_best_bid, None);
    assert_eq!(result.final_best_ask, None);
    assert_eq!(result.final_order_count, 0);
}

#[test]
fn partial_fill_leaves_remainder() {
    let commands = vec![
        OrderCommand::NewOrder { order_id: 1, side: Side::Buy, price: 100, qty: 10 },
        OrderCommand::NewOrder { order_id: 2, side: Side::Sell, price: 100, qty: 3 },
    ];

    let result = run_and_terminate(test_config(), &commands);

    assert_eq!(result.events.fill, 1);
    assert_eq!(result.events.filled, 1);
    assert_eq!(result.final_best_bid, Some((100, 7)));
    assert_eq!(result.final_best_ask, None);
    assert_eq!(result.final_order_count, 1);
}

#[test]
fn cancel_removes_resting_order() {
    let commands = vec![
        OrderCommand::NewOrder { order_id: 1, side: Side::Buy, price: 100, qty: 10 },
        OrderCommand::NewOrder { order_id: 2, side: Side::Sell, price: 200, qty: 10 },
        OrderCommand::CancelOrder { order_id: 1 },
    ];

    let result = run_and_terminate(test_config(), &commands);

    assert_eq!(result.events.accepted, 2);
    assert_eq!(result.events.cancelled, 1);
    assert_eq!(result.events.fill, 0);
    assert_eq!(result.final_best_bid, None);
    assert_eq!(result.final_best_ask, Some((200, 10)));
    assert_eq!(result.final_order_count, 1);
}

#[test]
fn cancel_unknown_order_emits_reject() {
    let commands = vec![OrderCommand::CancelOrder { order_id: 999 }];

    let result = run_and_terminate(test_config(), &commands);

    assert_eq!(result.commands_processed, 1);
    assert_eq!(result.events.rejected, 1);
}

#[test]
fn market_order_sweeps_resting_liquidity() {
    let commands = vec![
        OrderCommand::NewOrder { order_id: 1, side: Side::Sell, price: 100, qty: 5 },
        OrderCommand::NewOrder { order_id: 2, side: Side::Sell, price: 101, qty: 5 },
        OrderCommand::MarketOrder { order_id: 3, side: Side::Buy, qty: 8 },
    ];

    let result = run_and_terminate(test_config(), &commands);

    assert_eq!(result.events.fill, 2);
    assert_eq!(result.events.filled, 2);
    assert_eq!(result.final_best_ask, Some((101, 2)));
    assert_eq!(result.final_order_count, 1);
}

#[test]
fn crossing_orders_match_at_boundary() {
    let mut commands = Vec::new();
    let mut id = 1u64;

    for price in 90..=100 {
        commands.push(OrderCommand::NewOrder { order_id: id, side: Side::Buy, price, qty: 10 });
        id += 1;
    }
    for price in 100..=110 {
        commands.push(OrderCommand::NewOrder { order_id: id, side: Side::Sell, price, qty: 10 });
        id += 1;
    }

    let result = run_and_terminate(test_config(), &commands);

    assert_eq!(result.commands_processed, 22);
    assert_eq!(result.events.accepted, 22);
    assert_eq!(result.events.fill, 1);
    assert_eq!(result.events.filled, 2);
    assert_eq!(result.final_best_bid, Some((99, 10)));
    assert_eq!(result.final_best_ask, Some((101, 10)));
    assert_eq!(result.final_order_count, 20);
}

#[test]
fn lobster_replay_maintains_consistency() {
    let csv = "\
34200.0,1,1,100,5000,1
34200.0,1,2,100,4900,1
34200.0,1,3,100,5100,-1
34200.0,1,4,100,5200,-1
34200.0,3,2,100,4900,1
";
    let parser = LobsterParser::new();
    let rows = parser.parse_messages(csv).unwrap();
    let commands = parser.extract_commands(&rows);

    let config = PipelineConfig {
        queue_slots: 64,
        price_range: (1, 10_000),
        order_capacity: 100,
        core_pinning_enabled: false,
        producer_pin_core: 2,
        consumer_pin_core: 3,
    };
    let result = run_and_terminate(config, &commands);

    assert_eq!(result.final_best_bid, Some((5000, 100)));
    assert_eq!(result.final_best_ask, Some((5100, 100)));
    assert_eq!(result.final_order_count, 3);
    assert_eq!(result.events.accepted, 4);
    assert_eq!(result.events.cancelled, 1);
    assert_eq!(result.events.fill, 0);
}

#[test]
fn empty_command_list() {
    let result = run_and_terminate(test_config(), &Vec::new());

    assert_eq!(result.commands_processed, 0);
    assert_eq!(result.final_best_bid, None);
    assert_eq!(result.final_best_ask, None);
    assert_eq!(result.final_order_count, 0);
}

#[test]
fn duplicate_order_id_rejected() {
    let commands = vec![
        OrderCommand::NewOrder { order_id: 1, side: Side::Buy, price: 100, qty: 10 },
        OrderCommand::NewOrder { order_id: 1, side: Side::Sell, price: 200, qty: 5 },
    ];

    let result = run_and_terminate(test_config(), &commands);

    assert_eq!(result.events.accepted, 1);
    assert_eq!(result.events.rejected, 1);
    assert_eq!(result.final_order_count, 1);
}

#[test]
fn small_queue_still_delivers_every_command_in_order() {
    let mut commands = Vec::new();
    for id in 1..=40u64 {
        commands.push(OrderCommand::NewOrder { order_id: id, side: Side::Buy, price: 100 + id, qty: 1 });
    }
    commands.push(OrderCommand::MarketOrder { order_id: 100, side: Side::Sell, qty: 3 });
    let mut config = test_config();
    config.queue_slots = 4;

    let result = run_and_terminate(config, &commands);

    assert_eq!(result.commands_processed, 41);
    assert_eq!(result.events.fill, 3);
    assert_eq!(result.final_best_bid, Some((137, 1)));
    assert_eq!(result.final_order_count, 37);
}

#[test]
fn consumer_stops_only_after_second_empty_look() {
    let mut book = LimitOrderBookV0::new();
    let mut state = ConsumerState::new();
    let mut events = CountingEventSink::default();
    assert!(state.step(&mut book, None, false, &mut events));
    assert!(!state.shutting_down);
    assert!(state.step(&mut book, None, true, &mut events));
    assert!(state.shutting_down);
    assert!(!state.step(&mut book, None, true, &mut events));
    assert_eq!(state.commands_processed, 0);
}

// ---- market data handler: datagrams in a given arrival order ----

const SESSION: &[u8; 10] = b"OOOTEST   ";
const N: usize = 50;

struct HandlerRun {
    packets_received: u64,
    messages_decoded: u64,
    orders_emitted: u64,
    reorder_stats: ReorderStats,
}

fn make_packets() -> Vec<Vec<u8>> {
    (0..N)
        .map(|i| {
            let seq = i as u64;
            let itch = encode_add_order(seq + 1, FeedSide::Buy, 1, 100, "SYM");
            encode_packet(SESSION, seq, &[&itch])
        })
        .collect()
}

fn run_packets_with_order(
    packets: Vec<Vec<u8>>,
    order: Vec<usize>,
    reorder_window: usize,
) -> Result<HandlerRun, PipelineError> {
    let config = HandlerConfig {
        price_range: (1, 1000),
        order_capacity: 64,
        core_pinning_enabled: false,
        pin_core: 0,
        first_seq: 0,
        reorder_window,
        read_timeout_ms: Some(100),
    };
    let mut book = <LimitOrderBookV0 as LimitOrderBook>::with_config(config.price_range, config.order_capacity);
    let mut pipeline = MarketHandlerPipeline::from_config(config);
    let mut run = HandlerRun {
        packets_received: 0,
        messages_decoded: 0,
        orders_emitted: 0,
        reorder_stats: ReorderStats::default(),
    };
    for (t0, &i) in order.iter().enumerate() {
        run.packets_received += 1;
        pipeline.accept_datagram(&packets[i], t0 as u64, &mut run.reorder_stats)?;
        while let Some(d) = pipeline.next_ready() {
            let packet = decode_packet(d.as_slice()).map_err(PipelineError::MoldDecode)?;
            if let PacketKind::Messages(iter) = packet.kind {
                let slices = MsgIter::collect_all(iter);
                for slice in slices {
                    if let Some(msg) = pipeline.decode_message(slice) {
                        pipeline.process_itch_message(
                            &msg,
                            &mut book,
                            &mut run.messages_decoded,
                            &mut run.orders_emitted,
                        );
                    }
                }
            }
        }
    }
    Ok(run)
}

#[test]
fn pipeline_recovers_shuffled_datagrams() {
    let order: Vec<usize> = (0..N).rev().collect();
    let result = run_packets_with_order(make_packets(), order, 64).expect("reorder pipeline completes");

    assert_eq!(result.messages_decoded, N as u64);
    assert!(result.reorder_stats.reorder_ahead_arrivals > 0);
}

#[test]
fn reorder_window_zero_clamps_in_order_feed_completes() {
    let order: Vec<usize> = (0..N).collect();
    let result = run_packets_with_order(make_packets(), order, 0).expect("in-order feed with clamped window");

    assert_eq!(result.messages_decoded, N as u64);
    assert_eq!(result.reorder_stats.reorder_ahead_arrivals, 0);
}

#[test]
fn reorder_window_zero_reverse_fails_window_exceeded() {
    let order: Vec<usize> = (0..N).rev().collect();
    let err = match run_packets_with_order(make_packets(), order, 0) {
        Err(e) => e,
        Ok(_) => panic!("window 1 cannot hold reverse-ordered feed"),
    };

    assert!(matches!(err, PipelineError::ReorderPush(PushError::WindowExceeded(_))));
}

#[test]
fn handler_drops_short_datagrams_and_counts_duplicates() {
    let packets = make_packets();
    let mut run_stats = ReorderStats::default();
    let config = HandlerConfig {
        price_range: (1, 1000),
        order_capacity: 64,
        core_pinning_enabled: false,
        pin_core: 0,
        first_seq: 0,
        reorder_window: 4,
        read_timeout_ms: None,
    };
    let mut pipeline = MarketHandlerPipeline::from_config(config);
    assert_eq!(pipeline.accept_datagram(&[1, 2, 3], 0, &mut run_stats), Ok(()));
    assert!(pipeline.next_ready().is_none());
    assert_eq!(pipeline.accept_datagram(&packets[1], 1, &mut run_stats), Ok(()));
    assert_eq!(pipeline.accept_datagram(&packets[1], 2, &mut run_stats), Ok(()));
    assert_eq!(run_stats.reorder_ahead_arrivals, 1);
    assert_eq!(run_stats.packets_duplicate_seq, 1);
    assert!(pipeline.next_ready().is_none());
    assert_eq!(pipeline.accept_datagram(&packets[0], 3, &mut run_stats), Ok(()));
    let first = pipeline.next_ready().unwrap();
    assert_eq!(first.as_slice(), &packets[0][..]);
    let second = pipeline.next_ready().unwrap();
    assert_eq!(second.as_slice(), &packets[1][..]);
    assert_eq!(pipeline.accept_datagram(&packets[0], 4, &mut run_stats), Ok(()));
    assert_eq!(run_stats.packets_late_duplicate, 1);
}

#[test]
fn handler_quotes_once_spread_opens() {
    let mut book = LimitOrderBookV0::new();
    let config = HandlerConfig {
        price_range: (1, 1000),
        order_capacity: 64,
        core_pinning_enabled: false,
        pin_core: 0,
        first_seq: 0,
        reorder_window: 4,
        read_timeout_ms: None,
    };
    let mut pipeline = MarketHandlerPipeline::from_config(config);
    let mut decoded = 0u64;
    let mut emitted = 0u64;
    let bid = encode_add_order(1, FeedSide::Buy, 5, 100, "SYM");
    let ask = encode_add_order(2, FeedSide::Sell, 5, 105, "SYM");
    let msg = pipeline.decode_message(&bid).unwrap();
    assert!(!pipeline.process_itch_message(&msg, &mut book, &mut decoded, &mut emitted));
    let msg = pipeline.decode_message(&ask).unwrap();
    assert!(pipeline.process_itch_message(&msg, &mut book, &mut decoded, &mut emitted));
    assert_eq!((decoded, emitted), (2, 1));
    assert_eq!(pipeline.book_event_counts().accepted, 2);
    assert_eq!(LimitOrderBook::best_bid(&book), Some((100, 5)));
    assert!(pipeline.decode_message(&[0, 5]).is_none());
}

#[test]
fn pipeline_accepts_mold_packets_with_multiple_messages() {
    let first = encode_add_order(1, FeedSide::Buy, 1, 100, "SYM");
    let second = encode_add_order(2, FeedSide::Buy, 1, 100, "SYM");
    let third = encode_add_order(3, FeedSide::Buy, 1, 100, "SYM");
    let packets = vec![encode_packet(SESSION, 0, &[&first, &second]), encode_packet(SESSION, 2, &[&third])];
    let result = run_packets_with_order(packets, vec![0, 1], 8).expect("multi-message feed completes");

    assert_eq!(result.packets_received, 2);
    assert_eq!(result.messages_decoded, 3);
}

#[test]
fn multi_message_packet_skips_its_sequence_numbers() {
    let a = encode_add_order(1, FeedSide::Buy, 1, 100, "SYM");
    let b = encode_add_order(2, FeedSide::Buy, 1, 100, "SYM");
    let c = encode_add_order(3, FeedSide::Buy, 1, 100, "SYM");
    // the second packet arrives first and waits; a stray datagram numbered 1 (inside
    // the first packet's range) is dropped when the first packet is released
    let packets = vec![
        encode_packet(SESSION, 0, &[&a, &b]),
        encode_packet(SESSION, 2, &[&c]),
        encode_packet(SESSION, 1, &[&c]),
    ];
    let result = run_packets_with_order(packets, vec![1, 2, 0], 8).expect("feed completes");
    assert_eq!(result.packets_received, 3);
    assert_eq!(result.messages_decoded, 3);
}
