use hft_demos::lob::types::Side;
use hft_demos::matching::command::OrderCommand;
use hft_demos::matching::lobster::{LobsterEventType, LobsterParseError, LobsterParser, LobsterRow};
use hft_demos::matching::text::IntErrorKind;

fn parser() -> LobsterParser {
    LobsterParser::new()
}

// --- single-row parsing ---

#[test]
fn parse_new_order_buy() {
    let row = LobsterRow::parse("34200.018963654,1,4951489,100,2239800,1").unwrap();
    assert_eq!(row.timestamp_ns, 34_200_018_963_654);
    assert_eq!(row.event_type, LobsterEventType::NewOrder);
    assert_eq!(row.order_id, 4951489);
    assert_eq!(row.size, 100);
    assert_eq!(row.price, 2239800);
    assert_eq!(row.direction, Side::Buy);
}

#[test]
fn parse_new_order_sell() {
    let row = LobsterRow::parse("34200.018963654,1,4951490,100,2239100,-1").unwrap();
    assert_eq!(row.direction, Side::Sell);
}

#[test]
fn parse_full_delete() {
    let row = LobsterRow::parse("34200.019012357,3,4951489,100,2239800,1").unwrap();
    assert_eq!(row.event_type, LobsterEventType::FullDelete);
}

#[test]
fn parse_visible_execution() {
    let row = LobsterRow::parse("34200.019012357,4,4951489,100,2239800,1").unwrap();
    assert_eq!(row.event_type, LobsterEventType::VisibleExecution);
}

// --- all event types ---

#[test]
fn parse_all_event_types() {
    for (code, expected) in [
        ("1", LobsterEventType::NewOrder),
        ("2", LobsterEventType::PartialCancel),
        ("3", LobsterEventType::FullDelete),
        ("4", LobsterEventType::VisibleExecution),
        ("5", LobsterEventType::HiddenExecution),
        ("6", LobsterEventType::CrossTrade),
        ("7", LobsterEventType::TradingHalt),
    ] {
        let line = format!("34200.0,{code},1,100,2239800,1");
        let row = LobsterRow::parse(&line).unwrap();
        assert_eq!(row.event_type, expected, "event type {code}");
    }
}

// --- timestamp precision ---

#[test]
fn timestamp_whole_seconds() {
    let row = LobsterRow::parse("34200,1,1,100,2239800,1").unwrap();
    assert_eq!(row.timestamp_ns, 34_200_000_000_000);
}

#[test]
fn timestamp_millisecond_precision() {
    let row = LobsterRow::parse("34200.143,1,1,100,2239800,1").unwrap();
    assert_eq!(row.timestamp_ns, 34_200_143_000_000);
}

#[test]
fn timestamp_microsecond_precision() {
    let row = LobsterRow::parse("34200.143426,1,1,100,2239800,1").unwrap();
    assert_eq!(row.timestamp_ns, 34_200_143_426_000);
}

#[test]
fn timestamp_nanosecond_precision() {
    let row = LobsterRow::parse("34200.143426544,1,1,100,2239800,1").unwrap();
    assert_eq!(row.timestamp_ns, 34_200_143_426_544);
}

// --- error cases ---

#[test]
fn reject_invalid_event_type() {
    let result = LobsterRow::parse("34200.0,8,1,100,2239800,1");
    assert!(matches!(result, Err(LobsterParseError::InvalidEventType(_))));
}

#[test]
fn reject_invalid_direction() {
    let result = LobsterRow::parse("34200.0,1,1,100,2239800,2");
    assert!(matches!(result, Err(LobsterParseError::InvalidDirection(_))));
}

#[test]
fn reject_too_few_columns() {
    let result = LobsterRow::parse("34200.0,1,1,100,2239800");
    assert!(matches!(result, Err(LobsterParseError::WrongColumnCount(5))));
}

#[test]
fn reject_too_many_columns() {
    let result = LobsterRow::parse("34200.0,1,1,100,2239800,1,extra");
    assert!(matches!(result, Err(LobsterParseError::WrongColumnCount(7))));
}

#[test]
fn reject_non_numeric_order_id() {
    let result = LobsterRow::parse("34200.0,1,abc,100,2239800,1");
    assert!(matches!(result, Err(LobsterParseError::FieldParse { .. })));
}

// --- to_command conversion ---

#[test]
fn to_command_new_order() {
    let row = LobsterRow::parse("34200.0,1,42,100,5705000,1").unwrap();
    assert_eq!(
        row.to_command(),
        Some(OrderCommand::NewOrder { order_id: 42, side: Side::Buy, price: 5705000, qty: 100 })
    );
}

#[test]
fn to_command_cancel_order() {
    let row = LobsterRow::parse("34200.0,3,42,100,5705000,1").unwrap();
    assert_eq!(row.to_command(), Some(OrderCommand::CancelOrder { order_id: 42 }));
}

#[test]
fn to_command_execution_returns_none() {
    let row = LobsterRow::parse("34200.0,4,42,100,5705000,1").unwrap();
    assert_eq!(row.to_command(), None);
}

#[test]
fn to_command_partial_cancel_returns_none() {
    let row = LobsterRow::parse("34200.0,2,42,50,5705000,1").unwrap();
    assert_eq!(row.to_command(), None);
}

#[test]
fn to_command_hidden_execution_returns_none() {
    let row = LobsterRow::parse("34200.0,5,42,100,5705000,1").unwrap();
    assert_eq!(row.to_command(), None);
}

#[test]
fn to_command_cross_trade_returns_none() {
    let row = LobsterRow::parse("34200.0,6,42,100,5705000,1").unwrap();
    assert_eq!(row.to_command(), None);
}

#[test]
fn to_command_trading_halt_returns_none() {
    let row = LobsterRow::parse("34200.0,7,0,0,0,1").unwrap();
    assert_eq!(row.to_command(), None);
}

// --- LobsterParser ---

#[test]
fn parse_messages_multi_line() {
    let csv = "\
34200.018963654,1,4951489,100,2239800,1
34200.018963654,1,4951490,100,2239100,-1
34200.019012357,4,4951489,100,2239800,1
";
    let rows = parser().parse_messages(csv).unwrap();
    assert_eq!(rows.len(), 3);
    assert_eq!(rows[0].event_type, LobsterEventType::NewOrder);
    assert_eq!(rows[0].direction, Side::Buy);
    assert_eq!(rows[1].direction, Side::Sell);
    assert_eq!(rows[2].event_type, LobsterEventType::VisibleExecution);
}

#[test]
fn parse_messages_skips_blank_lines() {
    let csv = "\
34200.0,1,1,100,2239800,1

34200.0,1,2,200,2239900,-1
";
    let rows = parser().parse_messages(csv).unwrap();
    assert_eq!(rows.len(), 2);
}

#[test]
fn extract_commands_filters_non_entry_events() {
    let csv = "\
34200.0,1,1,100,2239800,1
34200.0,4,1,100,2239800,1
34200.0,3,2,100,2239800,-1
34200.0,7,0,0,0,1
";
    let p = parser();
    let rows = p.parse_messages(csv).unwrap();
    let cmds = p.extract_commands(&rows);
    assert_eq!(cmds.len(), 2);
    assert!(matches!(cmds[0], OrderCommand::NewOrder { order_id: 1, .. }));
    assert!(matches!(cmds[1], OrderCommand::CancelOrder { order_id: 2 }));
}

// --- further cases ---

#[test]
fn fields_are_trimmed_including_unicode_spaces() {
    let row = LobsterRow::parse(" 34200.5 ,\t1 , 7,\u{a0}100\u{3000}, 2239800 , -1 ").unwrap();
    assert_eq!(row.timestamp_ns, 34_200_500_000_000);
    assert_eq!(row.order_id, 7);
    assert_eq!(row.size, 100);
    assert_eq!(row.direction, Side::Sell);
}

#[test]
fn numeric_fields_follow_u64_parsing() {
    let row = LobsterRow::parse("1,1,+5,100,1,1").unwrap();
    assert_eq!(row.order_id, 5);
    let overflow = LobsterRow::parse("1,1,18446744073709551616,100,1,1");
    assert!(matches!(
        overflow,
        Err(LobsterParseError::FieldParse { field: "order_id", source: IntErrorKind::PosOverflow })
    ));
    let empty = LobsterRow::parse("1,1,1,,1,1");
    assert!(matches!(
        empty,
        Err(LobsterParseError::FieldParse { field: "size", source: IntErrorKind::Empty })
    ));
    let minus = LobsterRow::parse("1,1,1,1,-1,1");
    assert!(matches!(
        minus,
        Err(LobsterParseError::FieldParse { field: "price", source: IntErrorKind::InvalidDigit })
    ));
}

#[test]
fn timestamp_errors_carry_the_text() {
    match LobsterRow::parse("12x.5,1,1,1,1,1") {
        Err(LobsterParseError::TimestampParse(s)) => assert_eq!(s, "12x.5"),
        other => panic!("unexpected {other:?}"),
    }
    match LobsterRow::parse("1,9,1,1,1,1") {
        Err(LobsterParseError::InvalidEventType(s)) => assert_eq!(s, "9"),
        other => panic!("unexpected {other:?}"),
    }
    // only the first nine fraction digits count
    let row = LobsterRow::parse("1.1234567899,1,1,1,1,1").unwrap();
    assert_eq!(row.timestamp_ns, 1_123_456_789);
}

#[test]
fn crlf_lines_and_first_error_wins() {
    let rows = parser().parse_messages("1,1,1,1,1,1\r\n2,3,1,1,1,-1\r\n").unwrap();
    assert_eq!(rows.len(), 2);
    assert_eq!(rows[1].timestamp_ns, 2_000_000_000);
    let err = parser().parse_messages("1,1,1,1,1,1\n1,1\n1,8,1,1,1,1\n");
    assert!(matches!(err, Err(LobsterParseError::WrongColumnCount(2))));
}
