//! MoldUDP64 framing.
//!
//! ```text
//! session    : [u8; 10]  ASCII, right-padded with spaces
//! seq        : u64 BE    first message's sequence number
//! msg_count  : u16 BE    0 = heartbeat, 0xFFFF = end-of-session
//! then, msg_count times:
//! msg_len    : u16 BE
//! msg_bytes  : [u8; msg_len]
//! ```
//!
//! The decoder yields slices of the caller's buffer; the encoder allocates.
use vstd::prelude::*;
use vstd::slice::slice_subrange;
use vstd::string::StringSliceAdditionalSpecFns;
use vstd::utf8::valid_utf8;
use crate::feed::decode::text_of;
use crate::feed::wire::{
    be16_at, be16_bytes, be64_at, be64_bytes, push_all, push_be16, push_be64, read_be16, read_be64, lemma_be16_roundtrip,
    lemma_be64_roundtrip,
};
use crate::matching::text::trim_end;

verus! {

/// Failure to decode MoldUDP64 bytes.
#[derive(Debug, Clone, Copy, PartialEq, Eq, Structural)]
pub enum MoldDecodeError {
    HeaderTruncated { needed: usize, have: usize },
}

/// Size of the session identifier in bytes.
pub const SESSION_LEN: usize = 10;

/// Size of the packet header in bytes: session, seq, msg_count.
pub const HEADER_LEN: usize = SESSION_LEN + 8 + 2;

/// Size of the per-message length prefix in bytes.
pub const MSG_LEN_PREFIX: usize = 2;

/// `msg_count` of a heartbeat packet, which carries no messages.
pub const HEARTBEAT_MSG_COUNT: u16 = 0;

/// `msg_count` of an end-of-session packet, which carries no messages.
pub const END_OF_SESSION_MSG_COUNT: u16 = 0xFFFF;

/// Header of every MoldUDP64 packet.
#[derive(Debug, Clone, Copy, PartialEq, Eq)]
pub struct PacketHeader {
    /// Session identifier, right-padded with spaces.
    pub session: [u8; 10],
    /// Sequence number of the first message of the packet (or of the next expected
    /// message, for heartbeats and end-of-session).
    pub seq: u64,
    /// Raw `msg_count`; see [`PacketKind`].
    pub msg_count: u16,
}

/// `str::trim_end`. Stated: the bytes of the result are those of `s` without its
/// trailing whitespace characters.
#[verifier::external_body]
fn str_trim_end(s: &str) -> (r: &str)
    ensures
        r.spec_bytes() == trim_end(s.spec_bytes()),
{
    s.trim_end()
}

impl PacketHeader {
    /// Session as text without trailing spaces, or `None` if it is not UTF-8.
    pub fn session_str(&self) -> (r: Option<&str>)
        ensures
            match r {
                Some(t) => valid_utf8(self.session@) && t.spec_bytes() == trim_end(self.session@),
                None => !valid_utf8(self.session@),
            },
    {
        match text_of(self.session.as_slice()) {
            Some(s) => Some(str_trim_end(s)),
            None => None,
        }
    }
}

/// The messages of a packet body with `remaining` messages announced: each length
/// prefix and its bytes, until the count is reached or the body runs short.
pub open spec fn msgs_spec(buf: Seq<u8>, remaining: nat) -> Seq<Seq<u8>>
    decreases remaining,
{
    if remaining == 0 || buf.len() < 2 {
        seq![]
    } else {
        let total = 2 + be16_at(buf, 0);
        if buf.len() < total {
            seq![]
        } else {
            seq![buf.subrange(2, total)] + msgs_spec(buf.skip(total), (remaining - 1) as nat)
        }
    }
}

/// Iterator over the message slices of a packet body.
pub struct MsgIter<'a> {
    buf: &'a [u8],
    remaining: u16,
}

impl<'a> MsgIter<'a> {
    /// The body not yet read.
    pub closed spec fn rest(&self) -> Seq<u8> {
        self.buf@
    }

    /// Messages still announced.
    pub closed spec fn left(&self) -> nat {
        self.remaining as nat
    }

    /// The messages still to come.
    pub open spec fn msgs(&self) -> Seq<Seq<u8>> {
        msgs_spec(self.rest(), self.left())
    }

    pub fn new(buf: &'a [u8], msg_count: u16) -> (r: Self)
        ensures
            r.rest() == buf@,
            r.left() == msg_count,
    {
        MsgIter { buf, remaining: msg_count }
    }

    /// The next message, or `None` once the count is reached or the body runs short.
    pub fn next(&mut self) -> (r: Option<&'a [u8]>)
        ensures
            match r {
                Some(m) => old(self).msgs().len() > 0 && m@ == old(self).msgs()[0] && final(self).msgs()
                    == old(self).msgs().drop_first(),
                None => old(self).msgs().len() == 0 && final(self).msgs() == old(self).msgs(),
            },
    {
        let n = self.buf.len();
        if self.remaining == 0 || n < 2 {
            return None;
        }
        let total = 2 + read_be16(self.buf, 0) as usize;
        if n < total {
            return None;
        }
        let msg = slice_subrange(self.buf, 2, total);
        let ghost old_msgs = self.msgs();
        self.buf = slice_subrange(self.buf, total, n);
        self.remaining = self.remaining - 1;
        proof {
            assert(self.buf@ =~= old(self).buf@.skip(total as int));
            assert(old_msgs.drop_first() =~= self.msgs());
        }
        Some(msg)
    }

    /// All remaining messages, in order.
    pub fn collect_all(self) -> (r: Vec<&'a [u8]>)
        ensures
            r@.len() == self.msgs().len(),
            forall|i: int| 0 <= i < r@.len() ==> (#[trigger] r@[i])@ == self.msgs()[i],
    {
        let mut it = self;
        let mut out: Vec<&'a [u8]> = Vec::new();
        let ghost all = it.msgs();
        loop
            invariant
                all == self.msgs(),
                out@.len() + it.msgs().len() == all.len(),
                forall|i: int| 0 <= i < out@.len() ==> (#[trigger] out@[i])@ == all[i],
                forall|i: int| 0 <= i < it.msgs().len() ==> #[trigger] it.msgs()[i] == all[out@.len() + i],
            ensures
                out@.len() == all.len(),
                forall|i: int| 0 <= i < out@.len() ==> (#[trigger] out@[i])@ == all[i],
            decreases it.msgs().len(),
        {
            let ghost before = it.msgs();
            match it.next() {
                Some(m) => {
                    out.push(m);
                    assert forall|i: int| 0 <= i < it.msgs().len() implies #[trigger] it.msgs()[i] == all[out@.len()
                        + i] by {
                        assert(it.msgs()[i] == before[i + 1]);
                    }
                },
                None => {
                    break;
                },
            }
        }
        out
    }
}

/// Typed reading of a packet by `msg_count`.
pub enum PacketKind<'a> {
    Messages(MsgIter<'a>),
    Heartbeat,
    EndOfSession,
}

/// A decoded packet, borrowing from the receive buffer.
pub struct DecodedPacket<'a> {
    pub header: PacketHeader,
    pub kind: PacketKind<'a>,
}

/// `h` is the header at the start of `buf`.
pub open spec fn header_is(h: PacketHeader, buf: Seq<u8>) -> bool {
    &&& h.session@ == buf.take(10)
    &&& h.seq == be64_at(buf, 10)
    &&& h.msg_count == be16_at(buf, 18)
}

/// Parse only the 20-byte packet header.
pub fn parse_header(buf: &[u8]) -> (r: Result<PacketHeader, MoldDecodeError>)
    ensures
        buf@.len() < 20 ==> r == Err::<PacketHeader, MoldDecodeError>(
            MoldDecodeError::HeaderTruncated { needed: 20, have: buf@.len() as usize },
        ),
        buf@.len() >= 20 ==> (r matches Ok(h) && header_is(h, buf@)),
{
    let n = buf.len();
    if n < HEADER_LEN {
        return Err(MoldDecodeError::HeaderTruncated { needed: HEADER_LEN, have: n });
    }
    let mut session = [0u8; 10];
    let mut i: usize = 0;
    while i < 10
        invariant
            i <= 10,
            n == buf@.len(),
            n >= 20,
            forall|j: int| 0 <= j < i ==> session@[j] == buf@[j],
        decreases 10 - i,
    {
        session[i] = buf[i];
        i = i + 1;
    }
    assert(session@ =~= buf@.take(10));
    Ok(PacketHeader { session, seq: read_be64(buf, 10), msg_count: read_be16(buf, 18) })
}

/// Decode a packet: its header, and by `msg_count` a heartbeat, an end of session, or
/// an iterator over the messages of its body. Fails only on a truncated header;
/// malformed bodies make the iterator stop early.
pub fn decode_packet(buf: &[u8]) -> (r: Result<DecodedPacket<'_>, MoldDecodeError>)
    ensures
        buf@.len() < 20 ==> (r matches Err(MoldDecodeError::HeaderTruncated { needed, have }) && needed == 20
            && have == buf@.len()),
        buf@.len() >= 20 ==> (r matches Ok(p) && header_is(p.header, buf@) && (if p.header.msg_count == 0 {
            p.kind is Heartbeat
        } else if p.header.msg_count == 0xFFFF {
            p.kind is EndOfSession
        } else {
            p.kind matches PacketKind::Messages(it) && it.rest() == buf@.skip(20) && it.left()
                == p.header.msg_count
        })),
{
    let header = match parse_header(buf) {
        Ok(h) => h,
        Err(e) => {
            return Err(e);
        },
    };
    let kind = if header.msg_count == HEARTBEAT_MSG_COUNT {
        PacketKind::Heartbeat
    } else if header.msg_count == END_OF_SESSION_MSG_COUNT {
        PacketKind::EndOfSession
    } else {
        PacketKind::Messages(MsgIter::new(slice_subrange(buf, HEADER_LEN, buf.len()), header.msg_count))
    };
    assert(buf@.subrange(20, buf@.len() as int) =~= buf@.skip(20));
    Ok(DecodedPacket { header, kind })
}

/// A message with its length prefix; lengths are 16 bits wide.
pub open spec fn framed(m: Seq<u8>) -> Seq<u8> {
    be16_bytes((m.len() % 65536) as u16) + m
}

/// The body carrying `ms`, in order.
pub open spec fn body(ms: Seq<Seq<u8>>) -> Seq<u8>
    decreases ms.len(),
{
    if ms.len() == 0 {
        seq![]
    } else {
        body(ms.drop_last()) + framed(ms.last())
    }
}

/// The packet for `session`, `seq` and messages `ms`.
pub open spec fn packet_bytes(session: Seq<u8>, seq: u64, ms: Seq<Seq<u8>>) -> Seq<u8> {
    session + be64_bytes(seq) + be16_bytes((ms.len() % 65536) as u16) + body(ms)
}

/// Views of the message slices.
pub open spec fn slice_views(ms: Seq<&[u8]>) -> Seq<Seq<u8>> {
    Seq::new(ms.len(), |i: int| ms[i]@)
}

/// Encode a data packet carrying `itch_messages`; allocates (for replay senders).
/// A count of 0xFFFF is refused, as it announces an end of session.
pub fn encode_packet(session: &[u8; 10], seq: u64, itch_messages: &[&[u8]]) -> (r: Vec<u8>)
    requires
        itch_messages@.len() % 65536 != 65535,
    ensures
        r@ == packet_bytes(session@, seq, slice_views(itch_messages@)),
{
    let count = itch_messages.len();
    let msg_count = (count % 65536) as u16;
    let mut buf: Vec<u8> = Vec::new();
    push_all(&mut buf, session.as_slice());
    push_be64(&mut buf, seq);
    push_be16(&mut buf, msg_count);
    let ghost head = buf@;
    let ghost ms = slice_views(itch_messages@);
    let mut i: usize = 0;
    assert(ms.take(0) =~= Seq::<Seq<u8>>::empty());
    while i < count
        invariant
            i <= count == itch_messages@.len(),
            ms == slice_views(itch_messages@),
            buf@ == head + body(ms.take(i as int)),
        decreases count - i,
    {
        let m = itch_messages[i];
        push_be16(&mut buf, (m.len() % 65536) as u16);
        push_all(&mut buf, m);
        proof {
            assert(ms.take(i + 1).drop_last() =~= ms.take(i as int));
            assert(ms.take(i + 1).last() == m@);
            assert(buf@ =~= head + body(ms.take(i + 1)));
        }
        i = i + 1;
    }
    assert(ms.take(count as int) =~= ms);
    assert(buf@ =~= packet_bytes(session@, seq, ms));
    buf
}


/// The body of `ms` starts with the first message, framed.
proof fn lemma_body_front(ms: Seq<Seq<u8>>)
    requires
        ms.len() > 0,
    ensures
        body(ms) == framed(ms[0]) + body(ms.drop_first()),
    decreases ms.len(),
{
    if ms.len() == 1 {
        assert(ms.drop_first() =~= Seq::<Seq<u8>>::empty());
        assert(ms.drop_last() =~= Seq::<Seq<u8>>::empty());
        assert(body(ms.drop_last()) =~= Seq::<u8>::empty());
        assert(body(ms.drop_first()) =~= Seq::<u8>::empty());
        assert(ms.last() == ms[0]);
        assert(body(ms) =~= framed(ms[0]) + body(ms.drop_first()));
    } else {
        lemma_body_front(ms.drop_last());
        assert(ms.drop_last().drop_first() =~= ms.drop_first().drop_last());
        assert(ms.drop_first().last() == ms.last());
        assert(ms.drop_last()[0] == ms[0]);
        assert(body(ms) =~= framed(ms[0]) + body(ms.drop_first()));
    }
}

/// Reading `ms.len()` messages from the body of `ms` gives back `ms`, when every
/// message fits its 16-bit length prefix.
proof fn lemma_body_roundtrip(ms: Seq<Seq<u8>>)
    requires
        forall|i: int| 0 <= i < ms.len() ==> (#[trigger] ms[i]).len() < 65536,
    ensures
        msgs_spec(body(ms), ms.len()) == ms,
    decreases ms.len(),
{
    if ms.len() > 0 {
        lemma_body_front(ms);
        let m = ms[0];
        let rest = ms.drop_first();
        let b = body(ms);
        lemma_be16_roundtrip(m.len() as u16);
        assert(be16_at(b, 0) == be16_at(be16_bytes(m.len() as u16), 0));
        assert(b.subrange(2, 2 + m.len() as int) =~= m);
        assert(b.skip(2 + m.len() as int) =~= body(rest));
        lemma_body_roundtrip(rest);
        assert(msgs_spec(b, ms.len()) =~= seq![m] + rest);
        assert(seq![m] + rest =~= ms);
    } else {
        assert(msgs_spec(body(ms), 0) =~= ms);
    }
}

/// Decoding an encoded data packet gives back its session, sequence number, count
/// and messages, when there are 1 to 65534 messages of at most 65535 bytes each.
pub proof fn lemma_packet_roundtrip(session: Seq<u8>, seq: u64, ms: Seq<Seq<u8>>)
    requires
        session.len() == 10,
        1 <= ms.len() < 65535,
        forall|i: int| 0 <= i < ms.len() ==> (#[trigger] ms[i]).len() < 65536,
    ensures
        ({
            let p = packet_bytes(session, seq, ms);
            &&& p.len() >= 20
            &&& p.take(10) == session
            &&& be64_at(p, 10) == seq
            &&& be16_at(p, 18) == ms.len()
            &&& msgs_spec(p.skip(20), ms.len()) == ms
        }),
{
    let p = packet_bytes(session, seq, ms);
    lemma_be64_roundtrip(seq);
    lemma_be16_roundtrip(ms.len() as u16);
    assert(p.take(10) =~= session);
    assert(be64_at(p, 10) == be64_at(be64_bytes(seq), 0));
    assert(be16_at(p, 18) == be16_at(be16_bytes(ms.len() as u16), 0));
    assert(p.skip(20) =~= body(ms));
    lemma_body_roundtrip(ms);
}

} // verus!
