//! Byte-level text helpers over UTF-8: whitespace trimming and decimal integers.
use vstd::prelude::*;

verus! {

/// `b` is an ASCII whitespace byte (tab, line feed, vertical tab, form feed,
/// carriage return, space).
pub open spec fn is_ascii_ws(b: u8) -> bool {
    (9 <= b && b <= 13) || b == 32
}

/// `(a, b, c)` is the UTF-8 encoding of a three-byte whitespace character:
/// U+1680, U+2000..=U+200A, U+2028, U+2029, U+202F, U+205F or U+3000.
pub open spec fn is_ws3(a: u8, b: u8, c: u8) -> bool {
    ||| (a == 0xE1 && b == 0x9A && c == 0x80)
    ||| (a == 0xE2 && b == 0x80 && ((0x80 <= c && c <= 0x8A) || c == 0xA8 || c == 0xA9 || c == 0xAF))
    ||| (a == 0xE2 && b == 0x81 && c == 0x9F)
    ||| (a == 0xE3 && b == 0x80 && c == 0x80)
}

/// `(a, b)` is the UTF-8 encoding of U+0085 or U+00A0.
pub open spec fn is_ws2(a: u8, b: u8) -> bool {
    a == 0xC2 && (b == 0x85 || b == 0xA0)
}

/// Length of the whitespace character that `s` starts with, or 0 if it starts with
/// none. The whitespace characters are those with the Unicode `White_Space` property.
pub open spec fn ws_len_at_start(s: Seq<u8>) -> nat {
    if s.len() >= 1 && is_ascii_ws(s[0]) {
        1
    } else if s.len() >= 2 && is_ws2(s[0], s[1]) {
        2
    } else if s.len() >= 3 && is_ws3(s[0], s[1], s[2]) {
        3
    } else {
        0
    }
}

/// Length of the whitespace character that `s` ends with, or 0 if it ends with none.
pub open spec fn ws_len_at_end(s: Seq<u8>) -> nat {
    let n = s.len() as int;
    if n >= 1 && is_ascii_ws(s[n - 1]) {
        1
    } else if n >= 2 && is_ws2(s[n - 2], s[n - 1]) {
        2
    } else if n >= 3 && is_ws3(s[n - 3], s[n - 2], s[n - 1]) {
        3
    } else {
        0
    }
}

/// `s` without its leading whitespace.
pub open spec fn trim_start(s: Seq<u8>) -> Seq<u8>
    decreases s.len(),
{
    let k = ws_len_at_start(s);
    if k == 0 {
        s
    } else {
        trim_start(s.skip(k as int))
    }
}

/// `s` without its trailing whitespace.
pub open spec fn trim_end(s: Seq<u8>) -> Seq<u8>
    decreases s.len(),
{
    let k = ws_len_at_end(s);
    if k == 0 {
        s
    } else {
        trim_end(s.take(s.len() - k))
    }
}

/// `s` without leading and trailing whitespace, as `str::trim` leaves it.
pub open spec fn trim(s: Seq<u8>) -> Seq<u8> {
    trim_end(trim_start(s))
}

/// Why a decimal integer did not parse, as `std::num::IntErrorKind` reports it.
#[derive(Debug, Clone, Copy, PartialEq, Eq, Structural)]
pub enum IntErrorKind {
    /// The text is empty.
    Empty,
    /// The text holds a byte that is not a decimal digit.
    InvalidDigit,
    /// The value does not fit the integer type.
    PosOverflow,
}

pub open spec fn is_digit(b: u8) -> bool {
    48 <= b && b <= 57
}

/// Scan of the digits `d` from the left: the value so far, or the first failure.
pub open spec fn digits_value(d: Seq<u8>) -> Result<u64, IntErrorKind>
    decreases d.len(),
{
    if d.len() == 0 {
        Ok(0)
    } else {
        match digits_value(d.drop_last()) {
            Err(e) => Err(e),
            Ok(v) => if !is_digit(d.last()) {
                Err(IntErrorKind::InvalidDigit)
            } else if v * 10 + (d.last() - 48) > u64::MAX {
                Err(IntErrorKind::PosOverflow)
            } else {
                Ok((v * 10 + (d.last() - 48)) as u64)
            },
        }
    }
}

/// `s` parsed as a `u64` the way `str::parse::<u64>` does: an optional leading `+`,
/// then decimal digits only.
pub open spec fn parse_u64(s: Seq<u8>) -> Result<u64, IntErrorKind> {
    if s.len() == 0 {
        Err(IntErrorKind::Empty)
    } else if s.len() == 1 && (s[0] == 43 || s[0] == 45) {
        Err(IntErrorKind::InvalidDigit)
    } else if s[0] == 43 {
        digits_value(s.drop_first())
    } else {
        digits_value(s)
    }
}

/// Length of the whitespace character at the start of `b[lo..hi]`.
fn ws_at_start(b: &[u8], lo: usize, hi: usize) -> (k: usize)
    requires
        lo <= hi <= b@.len(),
    ensures
        k == ws_len_at_start(b@.subrange(lo as int, hi as int)),
{
    let ghost s = b@.subrange(lo as int, hi as int);
    let n = hi - lo;
    if n >= 1 && ((9 <= b[lo] && b[lo] <= 13) || b[lo] == 32) {
        return 1;
    }
    if n >= 2 && b[lo] == 0xC2 && (b[lo + 1] == 0x85 || b[lo + 1] == 0xA0) {
        return 2;
    }
    if n >= 3 {
        let (x, y, z) = (b[lo], b[lo + 1], b[lo + 2]);
        assert(s[0] == x && s[1] == y && s[2] == z);
        if (x == 0xE1 && y == 0x9A && z == 0x80) || (x == 0xE2 && y == 0x80 && ((0x80 <= z && z <= 0x8A)
            || z == 0xA8 || z == 0xA9 || z == 0xAF)) || (x == 0xE2 && y == 0x81 && z == 0x9F) || (x == 0xE3
            && y == 0x80 && z == 0x80) {
            return 3;
        }
    }
    0
}

/// Length of the whitespace character at the end of `b[lo..hi]`.
fn ws_at_end(b: &[u8], lo: usize, hi: usize) -> (k: usize)
    requires
        lo <= hi <= b@.len(),
    ensures
        k == ws_len_at_end(b@.subrange(lo as int, hi as int)),
{
    let ghost s = b@.subrange(lo as int, hi as int);
    let n = hi - lo;
    if n >= 1 && ((9 <= b[hi - 1] && b[hi - 1] <= 13) || b[hi - 1] == 32) {
        return 1;
    }
    if n >= 2 && b[hi - 2] == 0xC2 && (b[hi - 1] == 0x85 || b[hi - 1] == 0xA0) {
        return 2;
    }
    if n >= 3 {
        let (x, y, z) = (b[hi - 3], b[hi - 2], b[hi - 1]);
        assert(s[n - 3] == x && s[n - 2] == y && s[n - 1] == z);
        if (x == 0xE1 && y == 0x9A && z == 0x80) || (x == 0xE2 && y == 0x80 && ((0x80 <= z && z <= 0x8A)
            || z == 0xA8 || z == 0xA9 || z == 0xAF)) || (x == 0xE2 && y == 0x81 && z == 0x9F) || (x == 0xE3
            && y == 0x80 && z == 0x80) {
            return 3;
        }
    }
    0
}

/// The range of `b[lo..hi]` left after trimming whitespace from both ends.
pub fn trim_range(b: &[u8], lo: usize, hi: usize) -> (r: (usize, usize))
    requires
        lo <= hi <= b@.len(),
    ensures
        lo <= r.0 <= r.1 <= hi,
        b@.subrange(r.0 as int, r.1 as int) == trim(b@.subrange(lo as int, hi as int)),
{
    let mut a = lo;
    let mut done = false;
    while !done && a < hi
        invariant
            lo <= a <= hi <= b@.len(),
            trim_start(b@.subrange(a as int, hi as int)) == trim_start(b@.subrange(lo as int, hi as int)),
            done ==> ws_len_at_start(b@.subrange(a as int, hi as int)) == 0,
        decreases hi - a + (if done { 0int } else { 1int }),
    {
        let k = ws_at_start(b, a, hi);
        if k == 0 {
            done = true;
        } else {
            assert(b@.subrange(a as int, hi as int).skip(k as int) =~= b@.subrange(a + k, hi as int));
            a = a + k;
        }
    }
    assert(trim_start(b@.subrange(a as int, hi as int)) == b@.subrange(a as int, hi as int)) by {
        if a == hi {
            assert(ws_len_at_start(b@.subrange(a as int, hi as int)) == 0);
        }
    }
    let mut z = hi;
    let mut done2 = false;
    while !done2 && z > a
        invariant
            lo <= a <= z <= hi <= b@.len(),
            trim_end(b@.subrange(a as int, z as int)) == trim(b@.subrange(lo as int, hi as int)),
            done2 ==> ws_len_at_end(b@.subrange(a as int, z as int)) == 0,
        decreases z - a + (if done2 { 0int } else { 1int }),
    {
        let k = ws_at_end(b, a, z);
        if k == 0 {
            done2 = true;
        } else {
            assert(b@.subrange(a as int, z as int).take(z - a - k) =~= b@.subrange(a as int, z - k));
            z = z - k;
        }
    }
    assert(trim_end(b@.subrange(a as int, z as int)) == b@.subrange(a as int, z as int)) by {
        if a == z {
            assert(ws_len_at_end(b@.subrange(a as int, z as int)) == 0);
        }
    }
    (a, z)
}

/// A failure met while scanning a prefix stays the result for the whole text.
proof fn lemma_digits_error_stays(d: Seq<u8>, i: int)
    requires
        0 <= i <= d.len(),
        digits_value(d.take(i)) is Err,
    ensures
        digits_value(d) == digits_value(d.take(i)),
    decreases d.len() - i,
{
    if i < d.len() {
        assert(d.take(i + 1).drop_last() =~= d.take(i));
        lemma_digits_error_stays(d, i + 1);
    } else {
        assert(d.take(i) =~= d);
    }
}

/// `b[lo..hi]` parsed as a `u64` as `str::parse::<u64>` parses it.
pub fn parse_u64_range(b: &[u8], lo: usize, hi: usize) -> (r: Result<u64, IntErrorKind>)
    requires
        lo <= hi <= b@.len(),
    ensures
        r == parse_u64(b@.subrange(lo as int, hi as int)),
{
    let ghost s = b@.subrange(lo as int, hi as int);
    if lo == hi {
        return Err(IntErrorKind::Empty);
    }
    if hi - lo == 1 && (b[lo] == 43 || b[lo] == 45) {
        return Err(IntErrorKind::InvalidDigit);
    }
    let start = if b[lo] == 43 { lo + 1 } else { lo };
    let ghost d = b@.subrange(start as int, hi as int);
    assert(b@[lo as int] == 43 ==> (s.drop_first() =~= d));
    assert(b@[lo as int] != 43 ==> (s =~= d));
    assert(parse_u64(s) == digits_value(d));
    let mut acc: u64 = 0;
    let mut i = start;
    assert(d.take(0) =~= Seq::<u8>::empty());
    while i < hi
        invariant
            start <= i <= hi <= b@.len(),
            d == b@.subrange(start as int, hi as int),
            parse_u64(b@.subrange(lo as int, hi as int)) == digits_value(d),
            digits_value(d.take(i - start)) == Ok::<u64, IntErrorKind>(acc),
        decreases hi - i,
    {
        let c = b[i];
        assert(d.take(i - start + 1).drop_last() =~= d.take(i - start));
        assert(d.take(i - start + 1).last() == c);
        if c < 48 || c > 57 {
            assert(digits_value(d.take(i - start + 1)) == Err::<u64, IntErrorKind>(IntErrorKind::InvalidDigit));
            proof {
                lemma_digits_error_stays(d, i - start + 1);
            }
            assert(digits_value(d) == Err::<u64, IntErrorKind>(IntErrorKind::InvalidDigit));
            return Err(IntErrorKind::InvalidDigit);
        }
        let digit = (c - 48) as u64;
        if acc > 1844674407370955161 || (acc == 1844674407370955161 && digit > 5) {
            assert(acc * 10 + digit > u64::MAX);
            assert(digits_value(d.take(i - start + 1)) == Err::<u64, IntErrorKind>(IntErrorKind::PosOverflow));
            proof {
                lemma_digits_error_stays(d, i - start + 1);
            }
            return Err(IntErrorKind::PosOverflow);
        }
        acc = acc * 10 + digit;
        i = i + 1;
    }
    assert(d.take(hi - start) =~= d);
    Ok(acc)
}

} // verus!
