//! LOBSTER message files: rows of `Time,EventType,OrderID,Size,Price,Direction`.
//!
//! - **Time**: seconds after midnight, with up to nanosecond precision
//! - **EventType**: 1 to 7 (see [`LobsterEventType`])
//! - **Price**: USD times 10 000 (so $91.14 is 911 400)
//! - **Direction**: 1 = buy, -1 = sell
use vstd::prelude::*;
use vstd::slice::slice_subrange;
use vstd::string::StringSliceAdditionalSpecFns;
use vstd::utf8::{decode_utf8, is_continuation_byte, valid_utf8};
use crate::lob::types::{OrderId, Price, Qty, Side};
use crate::matching::command::OrderCommand;
use crate::matching::text::{IntErrorKind, digits_value, parse_u64, parse_u64_range, trim, trim_range};

verus! {

/// LOBSTER event types, in the order of their codes 1 to 7.
#[derive(Debug, Clone, Copy, PartialEq, Eq, Structural)]
pub enum LobsterEventType {
    NewOrder,
    PartialCancel,
    FullDelete,
    VisibleExecution,
    HiddenExecution,
    CrossTrade,
    TradingHalt,
}

/// A single parsed row of a LOBSTER message file.
#[derive(Debug, Clone, Copy, PartialEq, Eq, Structural)]
pub struct LobsterRow {
    pub timestamp_ns: u64,
    pub event_type: LobsterEventType,
    pub order_id: OrderId,
    pub size: Qty,
    pub price: Price,
    pub direction: Side,
}

/// Why a row did not parse.
#[derive(Debug)]
pub enum LobsterParseError {
    /// The row does not have 6 comma-separated columns; the count it has.
    WrongColumnCount(usize),
    /// The event type column is not one of 1 to 7; its text.
    InvalidEventType(String),
    /// The direction column is neither 1 nor -1; its text.
    InvalidDirection(String),
    /// A numeric column (`order_id`, `size` or `price`) is not a `u64`.
    FieldParse { field: &'static str, source: IntErrorKind },
    /// The time column is not a decimal number of seconds; its text.
    TimestampParse(String),
}

/// Text of `bytes` as `String::from_utf8_lossy` makes it: their decoding, with each
/// invalid sequence replaced by U+FFFD.
pub uninterp spec fn utf8_lossy(bytes: Seq<u8>) -> Seq<char>;

/// `String::from_utf8_lossy`, as an owned `String`. Stated: the result is the
/// function's value on `bytes`, which for valid UTF-8 is exactly their decoding.
#[verifier::external_body]
fn lossy_text(bytes: &[u8]) -> (r: String)
    ensures
        r@ == utf8_lossy(bytes@),
        valid_utf8(bytes@) ==> r@ == decode_utf8(bytes@),
{
    String::from_utf8_lossy(bytes).into_owned()
}

// -- the row format --------------------------------------------------------

/// Positions of the commas of `b`, in order.
pub open spec fn commas(b: Seq<u8>) -> Seq<int>
    decreases b.len(),
{
    if b.len() == 0 {
        seq![]
    } else if b.last() == 44 {
        commas(b.drop_last()).push(b.len() - 1)
    } else {
        commas(b.drop_last())
    }
}

/// Number of comma-separated columns of `b`.
pub open spec fn column_count(b: Seq<u8>) -> nat {
    commas(b).len() + 1
}

/// Column `k` of `b`, untrimmed.
pub open spec fn column(b: Seq<u8>, k: int) -> Seq<u8> {
    let c = commas(b);
    let lo = if k == 0 { 0 } else { c[k - 1] + 1 };
    let hi = if k < c.len() { c[k] } else { b.len() as int };
    b.subrange(lo, hi)
}

/// Column `k` of `b`, trimmed.
pub open spec fn tcol(b: Seq<u8>, k: int) -> Seq<u8> {
    trim(column(b, k))
}

/// Index of the first `x` in `s`.
pub open spec fn first_index_of(s: Seq<u8>, x: u8) -> Option<int>
    decreases s.len(),
{
    if s.len() == 0 {
        None
    } else if s[0] == x {
        Some(0)
    } else {
        match first_index_of(s.drop_first(), x) {
            Some(i) => Some(i + 1),
            None => None,
        }
    }
}

pub open spec fn pow10(n: nat) -> nat
    decreases n,
{
    if n == 0 {
        1
    } else {
        10 * pow10((n - 1) as nat)
    }
}

/// Seconds and fraction of a time column, split at its first `.`.
pub open spec fn time_parts(s: Seq<u8>) -> (Seq<u8>, Seq<u8>) {
    match first_index_of(s, 46) {
        Some(d) => (s.take(d), s.skip(d + 1)),
        None => (s, seq![]),
    }
}

/// The fraction digits that count: the first nine bytes at most.
pub open spec fn frac_digits(frac: Seq<u8>) -> Seq<u8> {
    frac.take(if frac.len() < 9 { frac.len() as int } else { 9 })
}

/// Nanoseconds after midnight of a time column, or `None` if it does not parse.
pub open spec fn timestamp_ns(s: Seq<u8>) -> Option<u64> {
    let (secs_s, frac) = time_parts(s);
    match parse_u64(secs_s) {
        Err(_) => None,
        Ok(secs) => if frac.len() == 0 {
            Some((secs * 1_000_000_000) as u64)
        } else {
            let fd = frac_digits(frac);
            match parse_u64(fd) {
                Err(_) => None,
                Ok(fv) => Some((secs * 1_000_000_000 + fv * pow10((9 - fd.len()) as nat)) as u64),
            }
        },
    }
}

/// Reading the time column stays within machine limits: the nanosecond count fits
/// in a `u64`, and a fraction longer than nine bytes is cut at a character boundary.
pub open spec fn timestamp_fits(s: Seq<u8>) -> bool {
    let (secs_s, frac) = time_parts(s);
    match parse_u64(secs_s) {
        Err(_) => true,
        Ok(secs) => if frac.len() == 0 {
            secs * 1_000_000_000 <= u64::MAX
        } else {
            let fd = frac_digits(frac);
            &&& (frac.len() > 9 ==> !is_continuation_byte(frac[9]))
            &&& match parse_u64(fd) {
                Err(_) => true,
                Ok(fv) => secs * 1_000_000_000 + fv * pow10((9 - fd.len()) as nat) <= u64::MAX,
            }
        },
    }
}

pub open spec fn event_type_of(s: Seq<u8>) -> Option<LobsterEventType> {
    if s == seq![49u8] {
        Some(LobsterEventType::NewOrder)
    } else if s == seq![50u8] {
        Some(LobsterEventType::PartialCancel)
    } else if s == seq![51u8] {
        Some(LobsterEventType::FullDelete)
    } else if s == seq![52u8] {
        Some(LobsterEventType::VisibleExecution)
    } else if s == seq![53u8] {
        Some(LobsterEventType::HiddenExecution)
    } else if s == seq![54u8] {
        Some(LobsterEventType::CrossTrade)
    } else if s == seq![55u8] {
        Some(LobsterEventType::TradingHalt)
    } else {
        None
    }
}

pub open spec fn direction_of(s: Seq<u8>) -> Option<Side> {
    if s == seq![49u8] {
        Some(Side::Buy)
    } else if s == seq![45u8, 49u8] {
        Some(Side::Sell)
    } else {
        None
    }
}

/// The numeric columns.
pub enum NumField {
    OrderId,
    Size,
    Price,
}

/// Why a row did not parse, with the offending text as bytes.
pub enum ParseFailure {
    WrongColumnCount(nat),
    InvalidEventType(Seq<u8>),
    InvalidDirection(Seq<u8>),
    FieldParse(NumField, IntErrorKind),
    TimestampParse(Seq<u8>),
}

/// The parse of one row: every check in column order, the first failure winning.
pub open spec fn row_spec(b: Seq<u8>) -> Result<LobsterRow, ParseFailure> {
    if column_count(b) != 6 {
        Err(ParseFailure::WrongColumnCount(column_count(b)))
    } else {
        match timestamp_ns(tcol(b, 0)) {
            None => Err(ParseFailure::TimestampParse(tcol(b, 0))),
            Some(ts) => match event_type_of(tcol(b, 1)) {
                None => Err(ParseFailure::InvalidEventType(tcol(b, 1))),
                Some(et) => match parse_u64(tcol(b, 2)) {
                    Err(e) => Err(ParseFailure::FieldParse(NumField::OrderId, e)),
                    Ok(id) => match parse_u64(tcol(b, 3)) {
                        Err(e) => Err(ParseFailure::FieldParse(NumField::Size, e)),
                        Ok(size) => match parse_u64(tcol(b, 4)) {
                            Err(e) => Err(ParseFailure::FieldParse(NumField::Price, e)),
                            Ok(price) => match direction_of(tcol(b, 5)) {
                                None => Err(ParseFailure::InvalidDirection(tcol(b, 5))),
                                Some(d) => Ok(
                                    LobsterRow {
                                        timestamp_ns: ts,
                                        event_type: et,
                                        order_id: id,
                                        size,
                                        price,
                                        direction: d,
                                    },
                                ),
                            },
                        },
                    },
                },
            },
        }
    }
}

/// Parsing the row stays within machine limits: its length is below `usize::MAX`,
/// and so is its time column (see [`timestamp_fits`]).
pub open spec fn row_fits(b: Seq<u8>) -> bool {
    &&& b.len() < usize::MAX
    &&& column_count(b) == 6 ==> timestamp_fits(tcol(b, 0))
}

/// Name of a numeric column as the error reports it.
pub open spec fn field_label(f: NumField) -> Seq<char> {
    match f {
        NumField::OrderId => "order_id"@,
        NumField::Size => "size"@,
        NumField::Price => "price"@,
    }
}

/// The result `r` is the parse outcome `o`.
pub open spec fn outcome_is(r: Result<LobsterRow, LobsterParseError>, o: Result<LobsterRow, ParseFailure>) -> bool {
    match o {
        Ok(row) => r == Ok::<LobsterRow, LobsterParseError>(row),
        Err(ParseFailure::WrongColumnCount(n)) => r matches Err(LobsterParseError::WrongColumnCount(m)) && m == n,
        Err(ParseFailure::InvalidEventType(t)) => r matches Err(LobsterParseError::InvalidEventType(s)) && s@
            == utf8_lossy(t),
        Err(ParseFailure::InvalidDirection(t)) => r matches Err(LobsterParseError::InvalidDirection(s)) && s@
            == utf8_lossy(t),
        Err(ParseFailure::FieldParse(f, k)) => r matches Err(LobsterParseError::FieldParse { field, source })
            && field@ == field_label(f) && source == k,
        Err(ParseFailure::TimestampParse(t)) => r matches Err(LobsterParseError::TimestampParse(s)) && s@
            == utf8_lossy(t),
    }
}


// -- parsing ---------------------------------------------------------------

proof fn lemma_commas(b: Seq<u8>)
    ensures
        commas(b).len() <= b.len(),
        forall|j: int| 0 <= j < commas(b).len() ==> 0 <= #[trigger] commas(b)[j] < b.len() && b[commas(b)[j]] == 44,
        forall|j: int, k: int| 0 <= j < k < commas(b).len() ==> #[trigger] commas(b)[j] < #[trigger] commas(b)[k],
    decreases b.len(),
{
    if b.len() > 0 {
        lemma_commas(b.drop_last());
        let c = commas(b.drop_last());
        assert forall|j: int| 0 <= j < c.len() implies b[c[j]] == b.drop_last()[c[j]] by {}
    }
}

/// Positions of the commas of `b`.
fn comma_positions(b: &[u8]) -> (r: Vec<usize>)
    ensures
        r@.len() == commas(b@).len(),
        forall|j: int| 0 <= j < r@.len() ==> r@[j] == #[trigger] commas(b@)[j],
{
    let mut r: Vec<usize> = Vec::new();
    let mut i: usize = 0;
    assert(b@.take(0) =~= Seq::<u8>::empty());
    while i < b.len()
        invariant
            i <= b@.len(),
            r@.len() == commas(b@.take(i as int)).len(),
            forall|j: int| 0 <= j < r@.len() ==> r@[j] == #[trigger] commas(b@.take(i as int))[j],
        decreases b@.len() - i,
    {
        assert(b@.take(i + 1).drop_last() =~= b@.take(i as int));
        assert(b@.take(i + 1).last() == b@[i as int]);
        if b[i] == 44 {
            r.push(i);
        }
        i = i + 1;
    }
    assert(b@.take(b@.len() as int) =~= b@);
    r
}

/// The trimmed range of column `k` of `b`, whose comma positions are `c`.
fn column_range(b: &[u8], c: &Vec<usize>, k: usize) -> (r: (usize, usize))
    requires
        c@.len() == 5,
        commas(b@).len() == 5,
        forall|j: int| 0 <= j < 5 ==> c@[j] == #[trigger] commas(b@)[j],
        k < 6,
    ensures
        r.0 <= r.1 <= b@.len(),
        b@.subrange(r.0 as int, r.1 as int) == tcol(b@, k as int),
{
    proof {
        lemma_commas(b@);
    }
    assert(k > 0 ==> c@[k - 1] == commas(b@)[k - 1]);
    assert(k < 5 ==> c@[k as int] == commas(b@)[k as int]);
    let lo = if k == 0 {
        0
    } else {
        let prev = c[k - 1];
        let n = b.len();
        assert(prev == commas(b@)[k - 1]);
        prev + 1
    };
    let hi = if k < 5 { c[k] } else { b.len() };
    assert(k > 0 && k < 5 ==> commas(b@)[k - 1] < commas(b@)[k as int]);
    assert(b@.subrange(lo as int, hi as int) == column(b@, k as int));
    trim_range(b, lo, hi)
}

/// First position of `x` in `b[lo..hi]`, if any.
fn find_byte(b: &[u8], lo: usize, hi: usize, x: u8) -> (r: Option<usize>)
    requires
        lo <= hi <= b@.len(),
    ensures
        match r {
            Some(i) => lo <= i < hi && first_index_of(b@.subrange(lo as int, hi as int), x) == Some(i - lo),
            None => first_index_of(b@.subrange(lo as int, hi as int), x) == None::<int>,
        },
{
    let mut i = lo;
    while i < hi
        invariant
            lo <= i <= hi <= b@.len(),
            forall|j: int| lo <= j < i ==> b@[j] != x,
        decreases hi - i,
    {
        if b[i] == x {
            proof {
                lemma_first_index(b@.subrange(lo as int, hi as int), x, i - lo);
            }
            return Some(i);
        }
        i = i + 1;
    }
    proof {
        lemma_first_index(b@.subrange(lo as int, hi as int), x, hi - lo);
    }
    None
}

proof fn lemma_first_index(s: Seq<u8>, x: u8, i: int)
    requires
        0 <= i <= s.len(),
        forall|j: int| 0 <= j < i ==> s[j] != x,
        i < s.len() ==> s[i] == x,
    ensures
        first_index_of(s, x) == (if i < s.len() { Some(i) } else { None::<int> }),
    decreases i,
{
    if i > 0 {
        lemma_first_index(s.drop_first(), x, i - 1);
    }
}

proof fn lemma_pow10_pos(a: nat)
    ensures
        pow10(a) >= 1,
    decreases a,
{
    if a > 0 {
        lemma_pow10_pos((a - 1) as nat);
    }
}

proof fn lemma_pow10_mono(a: nat, b: nat)
    requires
        a <= b,
    ensures
        pow10(a) <= pow10(b),
        pow10(a) >= 1,
    decreases b,
{
    lemma_pow10_pos(a);
    if a < b {
        lemma_pow10_mono(a, (b - 1) as nat);
    }
}

proof fn lemma_digits_bound(d: Seq<u8>)
    ensures
        digits_value(d) matches Ok(v) ==> v < pow10(d.len()),
    decreases d.len(),
{
    if d.len() > 0 {
        lemma_digits_bound(d.drop_last());
    }
}

/// A parsed `u64` has fewer digits than its text has bytes.
proof fn lemma_parse_bound(s: Seq<u8>)
    ensures
        parse_u64(s) matches Ok(v) ==> v < pow10(s.len()),
{
    if s.len() > 0 && s[0] == 43 {
        lemma_digits_bound(s.drop_first());
        lemma_pow10_mono((s.len() - 1) as nat, s.len());
    } else {
        lemma_digits_bound(s);
    }
}

/// `10^n` for `n <= 9`.
fn pow10_u64(n: usize) -> (r: u64)
    requires
        n <= 9,
    ensures
        r == pow10(n as nat),
        r <= 1_000_000_000,
{
    proof {
        lemma_pow10_mono(n as nat, 9);
        reveal_with_fuel(pow10, 10);
    }
    let mut r: u64 = 1;
    let mut i: usize = 0;
    while i < n
        invariant
            i <= n <= 9,
            r == pow10(i as nat),
            pow10(n as nat) <= 1_000_000_000,
        decreases n - i,
    {
        proof {
            lemma_pow10_mono((i + 1) as nat, n as nat);
        }
        r = r * 10;
        i = i + 1;
    }
    r
}

/// Nanoseconds after midnight of the time column `b[lo..hi]`.
fn parse_timestamp_range(b: &[u8], lo: usize, hi: usize) -> (r: Option<u64>)
    requires
        lo <= hi <= b@.len(),
        timestamp_fits(b@.subrange(lo as int, hi as int)),
    ensures
        r == timestamp_ns(b@.subrange(lo as int, hi as int)),
{
    let ghost s = b@.subrange(lo as int, hi as int);
    let dot = find_byte(b, lo, hi, 46);
    let (shi, flo) = match dot {
        Some(d) => (d, d + 1),
        None => (hi, hi),
    };
    assert(time_parts(s).0 == b@.subrange(lo as int, shi as int));
    assert(time_parts(s).1 == b@.subrange(flo as int, hi as int));
    let secs = match parse_u64_range(b, lo, shi) {
        Ok(v) => v,
        Err(_) => {
            return None;
        },
    };
    if flo == hi {
        return Some(secs * 1_000_000_000);
    }
    let flen = if hi - flo < 9 { hi - flo } else { 9 };
    assert(frac_digits(time_parts(s).1) == b@.subrange(flo as int, (flo + flen) as int));
    let fv = match parse_u64_range(b, flo, flo + flen) {
        Ok(v) => v,
        Err(_) => {
            return None;
        },
    };
    let p = pow10_u64(9 - flen);
    proof {
        lemma_parse_bound(b@.subrange(flo as int, (flo + flen) as int));
        lemma_pow10_mono(flen as nat, 9);
        reveal_with_fuel(pow10, 10);
        assert(fv < 1_000_000_000);
        assert(fv * p <= 1_000_000_000 * 1_000_000_000) by (nonlinear_arith)
            requires
                fv < 1_000_000_000,
                p <= 1_000_000_000,
        ;
    }
    let nanos = fv * p;
    Some(secs * 1_000_000_000 + nanos)
}

/// Parse one row of a LOBSTER message file, given as bytes.
pub fn parse_row_bytes(b: &[u8]) -> (r: Result<LobsterRow, LobsterParseError>)
    requires
        row_fits(b@),
    ensures
        outcome_is(r, row_spec(b@)),
{
    let c = comma_positions(b);
    proof {
        lemma_commas(b@);
    }
    if c.len() != 5 {
        return Err(LobsterParseError::WrongColumnCount(c.len() + 1));
    }
    let (t0, u0) = column_range(b, &c, 0);
    let timestamp_ns = match parse_timestamp_range(b, t0, u0) {
        Some(v) => v,
        None => {
            return Err(LobsterParseError::TimestampParse(lossy_text(slice_subrange(b, t0, u0))));
        },
    };
    let (t1, u1) = column_range(b, &c, 1);
    let et = if u1 - t1 == 1 && b[t1] == 49 {
        Some(LobsterEventType::NewOrder)
    } else if u1 - t1 == 1 && b[t1] == 50 {
        Some(LobsterEventType::PartialCancel)
    } else if u1 - t1 == 1 && b[t1] == 51 {
        Some(LobsterEventType::FullDelete)
    } else if u1 - t1 == 1 && b[t1] == 52 {
        Some(LobsterEventType::VisibleExecution)
    } else if u1 - t1 == 1 && b[t1] == 53 {
        Some(LobsterEventType::HiddenExecution)
    } else if u1 - t1 == 1 && b[t1] == 54 {
        Some(LobsterEventType::CrossTrade)
    } else if u1 - t1 == 1 && b[t1] == 55 {
        Some(LobsterEventType::TradingHalt)
    } else {
        None
    };
    proof {
        let f = b@.subrange(t1 as int, u1 as int);
        if u1 - t1 == 1 {
            assert(f =~= seq![b@[t1 as int]]);
        } else {
            assert(f.len() != 1);
        }
    }
    let event_type = match et {
        Some(e) => e,
        None => {
            return Err(LobsterParseError::InvalidEventType(lossy_text(slice_subrange(b, t1, u1))));
        },
    };
    let (t2, u2) = column_range(b, &c, 2);
    let order_id = match parse_u64_range(b, t2, u2) {
        Ok(v) => v,
        Err(e) => {
            return Err(LobsterParseError::FieldParse { field: "order_id", source: e });
        },
    };
    let (t3, u3) = column_range(b, &c, 3);
    let size = match parse_u64_range(b, t3, u3) {
        Ok(v) => v,
        Err(e) => {
            return Err(LobsterParseError::FieldParse { field: "size", source: e });
        },
    };
    let (t4, u4) = column_range(b, &c, 4);
    let price = match parse_u64_range(b, t4, u4) {
        Ok(v) => v,
        Err(e) => {
            return Err(LobsterParseError::FieldParse { field: "price", source: e });
        },
    };
    let (t5, u5) = column_range(b, &c, 5);
    let dir = if u5 - t5 == 1 && b[t5] == 49 {
        Some(Side::Buy)
    } else if u5 - t5 == 2 && b[t5] == 45 && b[t5 + 1] == 49 {
        Some(Side::Sell)
    } else {
        None
    };
    proof {
        let f = b@.subrange(t5 as int, u5 as int);
        if u5 - t5 == 1 {
            assert(f =~= seq![b@[t5 as int]]);
        } else if u5 - t5 == 2 {
            assert(f =~= seq![b@[t5 as int], b@[t5 + 1]]);
        } else {
            assert(f.len() != 1 && f.len() != 2);
        }
    }
    let direction = match dir {
        Some(d) => d,
        None => {
            return Err(LobsterParseError::InvalidDirection(lossy_text(slice_subrange(b, t5, u5))));
        },
    };
    Ok(LobsterRow { timestamp_ns, event_type, order_id, size, price, direction })
}

impl LobsterRow {
    /// Parse a single CSV line in LOBSTER message format.
    pub fn parse(line: &str) -> (r: Result<Self, LobsterParseError>)
        requires
            row_fits(line.spec_bytes()),
        ensures
            outcome_is(r, row_spec(line.spec_bytes())),
    {
        parse_row_bytes(line.as_bytes())
    }

    /// The order-entry command this row stands for: new orders and full deletes;
    /// executions, partial cancels, cross trades and halts are outputs of matching,
    /// not inputs, and give `None`.
    pub fn to_command(&self) -> (r: Option<OrderCommand>)
        ensures
            r == command_of(*self),
    {
        match self.event_type {
            LobsterEventType::NewOrder => Some(
                OrderCommand::NewOrder {
                    order_id: self.order_id,
                    side: self.direction,
                    price: self.price,
                    qty: self.size,
                },
            ),
            LobsterEventType::FullDelete => Some(OrderCommand::CancelOrder { order_id: self.order_id }),
            _ => None,
        }
    }
}

/// The command of a row, if it is an order-entry row.
pub open spec fn command_of(row: LobsterRow) -> Option<OrderCommand> {
    match row.event_type {
        LobsterEventType::NewOrder => Some(
            OrderCommand::NewOrder { order_id: row.order_id, side: row.direction, price: row.price, qty: row.size },
        ),
        LobsterEventType::FullDelete => Some(OrderCommand::CancelOrder { order_id: row.order_id }),
        _ => None,
    }
}


// -- whole files -----------------------------------------------------------

pub proof fn lemma_first_index_bound(s: Seq<u8>, x: u8)
    ensures
        first_index_of(s, x) matches Some(i) ==> 0 <= i < s.len(),
    decreases s.len(),
{
    if s.len() > 0 {
        lemma_first_index_bound(s.drop_first(), x);
    }
}

/// `l` without one carriage return at its end.
pub open spec fn strip_cr(l: Seq<u8>) -> Seq<u8> {
    if l.len() > 0 && l.last() == 13 {
        l.drop_last()
    } else {
        l
    }
}

/// The first line of `b` and the text after it, split as `str::lines` splits: at a
/// line feed, dropping one carriage return before it.
pub open spec fn first_line(b: Seq<u8>) -> (Seq<u8>, Seq<u8>) {
    match first_index_of(b, 10) {
        Some(i) => (strip_cr(b.take(i)), b.skip(i + 1)),
        None => (b, seq![]),
    }
}

/// The rows of a message file: every line that is not blank, parsed in order; the
/// first failure wins.
pub open spec fn messages_spec(b: Seq<u8>) -> Result<Seq<LobsterRow>, ParseFailure>
    decreases b.len(),
{
    if b.len() == 0 {
        Ok(seq![])
    } else {
        proof {
            lemma_first_index_bound(b, 10);
        }
        let (line, rest) = first_line(b);
        if trim(line).len() == 0 {
            messages_spec(rest)
        } else {
            match row_spec(line) {
                Err(e) => Err(e),
                Ok(row) => match messages_spec(rest) {
                    Ok(rows) => Ok(seq![row] + rows),
                    Err(e) => Err(e),
                },
            }
        }
    }
}

/// The outcome of a file's first non-blank line `row` followed by the outcome `rest`
/// of the lines after it: the first failure wins, rows keep their order.
pub open spec fn then_rows(row: Result<LobsterRow, ParseFailure>, rest: Result<Seq<LobsterRow>, ParseFailure>) -> Result<
    Seq<LobsterRow>,
    ParseFailure,
> {
    match row {
        Err(e) => Err(e),
        Ok(r) => match rest {
            Ok(rows) => Ok(seq![r] + rows),
            Err(e) => Err(e),
        },
    }
}

proof fn lemma_no_line_feed(s: Seq<u8>)
    requires
        !s.contains(10),
    ensures
        first_index_of(s, 10) is None,
    decreases s.len(),
{
    if s.len() > 0 {
        assert(s[0] != 10);
        assert forall|i: int| 0 <= i < s.drop_first().len() implies s.drop_first()[i] != 10 by {
            assert(s.drop_first()[i] == s[i + 1]);
        }
        lemma_no_line_feed(s.drop_first());
    }
}

proof fn lemma_line_feed_after(l: Seq<u8>, rest: Seq<u8>)
    requires
        !l.contains(10),
    ensures
        first_index_of(l + seq![10u8] + rest, 10) == Some(l.len() as int),
    decreases l.len(),
{
    let b = l + seq![10u8] + rest;
    if l.len() == 0 {
        assert(b[0] == 10);
    } else {
        assert(b[0] == l[0]);
        assert(l[0] != 10);
        assert(b.drop_first() =~= l.drop_first() + seq![10u8] + rest);
        assert forall|i: int| 0 <= i < l.drop_first().len() implies l.drop_first()[i] != 10 by {
            assert(l.drop_first()[i] == l[i + 1]);
        }
        lemma_line_feed_after(l.drop_first(), rest);
    }
}

/// An empty file has no rows.
pub proof fn lemma_messages_empty()
    ensures
        messages_spec(Seq::empty()) == Ok::<Seq<LobsterRow>, ParseFailure>(Seq::empty()),
{
}

/// A file of one line without a line feed: blank, it has no rows; otherwise its
/// outcome is that line's, parsed as a row, as the only row.
pub proof fn lemma_messages_last_line(b: Seq<u8>)
    requires
        !b.contains(10),
    ensures
        messages_spec(b) == (if trim(b).len() == 0 {
            Ok::<Seq<LobsterRow>, ParseFailure>(Seq::empty())
        } else {
            then_rows(row_spec(b), Ok(Seq::empty()))
        }),
{
    if b.len() > 0 {
        lemma_no_line_feed(b);
        assert(first_line(b) == (b, Seq::<u8>::empty()));
        assert(messages_spec(Seq::<u8>::empty()) == Ok::<Seq<LobsterRow>, ParseFailure>(Seq::empty()));
        match row_spec(b) {
            Ok(r) => {
                assert(seq![r] + Seq::<LobsterRow>::empty() =~= seq![r]);
            },
            Err(_) => {},
        }
    } else {
        assert(trim(b).len() == 0) by {
            assert(b =~= Seq::<u8>::empty());
        }
    }
}

/// A file that starts with line `l` ended by a line feed: the line (without a
/// carriage return before the line feed) is skipped if blank, and otherwise parsed as
/// the first row, before the rows of the rest of the file.
pub proof fn lemma_messages_first_line(l: Seq<u8>, rest: Seq<u8>)
    requires
        !l.contains(10),
    ensures
        messages_spec(l + seq![10u8] + rest) == (if trim(strip_cr(l)).len() == 0 {
            messages_spec(rest)
        } else {
            then_rows(row_spec(strip_cr(l)), messages_spec(rest))
        }),
{
    let b = l + seq![10u8] + rest;
    lemma_line_feed_after(l, rest);
    assert(b.take(l.len() as int) =~= l);
    assert(b.skip(l.len() as int + 1) =~= rest);
    assert(first_line(b) == (strip_cr(l), rest));
}

/// Parsing the file stays within machine limits, for every line it reaches.
pub open spec fn messages_fit(b: Seq<u8>) -> bool
    decreases b.len(),
{
    if b.len() == 0 {
        true
    } else {
        proof {
            lemma_first_index_bound(b, 10);
        }
        let (line, rest) = first_line(b);
        if trim(line).len() == 0 {
            messages_fit(rest)
        } else {
            &&& row_fits(line)
            &&& (row_spec(line) is Ok ==> messages_fit(rest))
        }
    }
}

/// The result `r` is the outcome `o` of parsing a file.
pub open spec fn rows_outcome_is(
    r: Result<Vec<LobsterRow>, LobsterParseError>,
    o: Result<Seq<LobsterRow>, ParseFailure>,
) -> bool {
    match r {
        Ok(v) => o == Ok::<Seq<LobsterRow>, ParseFailure>(v@),
        Err(e) => match o {
            Ok(_) => false,
            Err(f) => outcome_is(Err(e), Err(f)),
        },
    }
}

/// The commands of the order-entry rows among `rows`, in order.
pub open spec fn commands_of(rows: Seq<LobsterRow>) -> Seq<OrderCommand>
    decreases rows.len(),
{
    if rows.len() == 0 {
        seq![]
    } else {
        match command_of(rows.last()) {
            Some(c) => commands_of(rows.drop_last()).push(c),
            None => commands_of(rows.drop_last()),
        }
    }
}

/// End of the first line of `b[pos..n]` (before its line ending) and the start of the
/// text after it.
fn next_line(b: &[u8], pos: usize, n: usize) -> (r: (usize, usize))
    requires
        pos < n == b@.len(),
    ensures
        pos <= r.0 <= n,
        pos < r.1 <= n,
        first_line(b@.skip(pos as int)) == (b@.subrange(pos as int, r.0 as int), b@.skip(r.1 as int)),
{
    let ghost rest = b@.skip(pos as int);
    let nl = find_byte(b, pos, n, 10);
    assert(b@.subrange(pos as int, n as int) =~= rest);
    match nl {
        Some(i) => {
            let e = if i > pos && b[i - 1] == 13 { i - 1 } else { i };
            assert(rest.take(i - pos) =~= b@.subrange(pos as int, i as int));
            assert(rest.skip(i - pos + 1) =~= b@.skip(i + 1));
            assert(strip_cr(rest.take(i - pos)) =~= b@.subrange(pos as int, e as int));
            (e, i + 1)
        },
        None => {
            assert(b@.skip(n as int) =~= Seq::<u8>::empty());
            (n, n)
        },
    }
}

/// LOBSTER CSV parser: message files into rows, rows into order-entry commands.
#[derive(Debug, Clone, Copy)]
pub struct LobsterParser;

impl LobsterParser {
    pub fn new() -> Self {
        LobsterParser
    }

    /// Parse all non-blank lines of a LOBSTER message file.
    pub fn parse_messages(&self, content: &str) -> (r: Result<Vec<LobsterRow>, LobsterParseError>)
        requires
            messages_fit(content.spec_bytes()),
        ensures
            rows_outcome_is(r, messages_spec(content.spec_bytes())),
    {
        let b = content.as_bytes();
        let n = b.len();
        let mut rows: Vec<LobsterRow> = Vec::new();
        let mut pos: usize = 0;
        assert(b@.skip(0) =~= b@);
        while pos < n
            invariant
                n == b@.len(),
                b@ == content.spec_bytes(),
                pos <= n,
                messages_fit(b@.skip(pos as int)),
                messages_spec(b@) == (match messages_spec(b@.skip(pos as int)) {
                    Ok(rs) => Ok(rows@ + rs),
                    Err(e) => Err::<Seq<LobsterRow>, ParseFailure>(e),
                }),
            decreases n - pos,
        {
            let ghost rest = b@.skip(pos as int);
            let ghost old_rows = rows@;
            let (lend, next) = next_line(b, pos, n);
            let ghost line_s = b@.subrange(pos as int, lend as int);
            let ghost after = b@.skip(next as int);
            assert(rest.len() > 0);
            assert(messages_spec(rest) == (if trim(line_s).len() == 0 {
                messages_spec(after)
            } else {
                match row_spec(line_s) {
                    Err(e) => Err(e),
                    Ok(row) => match messages_spec(after) {
                        Ok(rows) => Ok(seq![row] + rows),
                        Err(e) => Err(e),
                    },
                }
            }));
            assert(messages_fit(rest) == (if trim(line_s).len() == 0 {
                messages_fit(after)
            } else {
                row_fits(line_s) && (row_spec(line_s) is Ok ==> messages_fit(after))
            }));
            let (t, u) = trim_range(b, pos, lend);
            if t < u {
                let line = slice_subrange(b, pos, lend);
                match parse_row_bytes(line) {
                    Ok(row) => {
                        rows.push(row);
                        proof {
                            match messages_spec(after) {
                                Ok(rs) => {
                                    assert(rows@ + rs =~= (old_rows + (seq![row] + rs)));
                                },
                                Err(_) => {},
                            }
                        }
                    },
                    Err(e) => {
                        assert(row_spec(line_s) is Err);
                        return Err(e);
                    },
                }
            }
            pos = next;
        }
        assert(b@.skip(pos as int) =~= Seq::<u8>::empty());
        assert(rows@ + Seq::<LobsterRow>::empty() =~= rows@);
        Ok(rows)
    }

    /// The order-entry commands of `rows`, in order; other rows are left out.
    pub fn extract_commands(&self, rows: &[LobsterRow]) -> (r: Vec<OrderCommand>)
        ensures
            r@ == commands_of(rows@),
    {
        let mut out: Vec<OrderCommand> = Vec::new();
        let mut i: usize = 0;
        assert(rows@.take(0) =~= Seq::<LobsterRow>::empty());
        while i < rows.len()
            invariant
                i <= rows@.len(),
                out@ == commands_of(rows@.take(i as int)),
            decreases rows@.len() - i,
        {
            assert(rows@.take(i + 1).drop_last() =~= rows@.take(i as int));
            assert(rows@.take(i + 1).last() == rows@[i as int]);
            match rows[i].to_command() {
                Some(c) => out.push(c),
                None => {},
            }
            i = i + 1;
        }
        assert(rows@.take(rows@.len() as int) =~= rows@);
        out
    }
}

impl Default for LobsterParser {
    fn default() -> (r: Self) {
        LobsterParser::new()
    }
}

} // verus!
