//! Bounded reorder buffer for datagrams: a watermark (`next_expected`) and a sliding
//! ring of `window` slots. Datagrams come out strictly in ascending sequence order.
use vstd::prelude::*;
use vstd::slice::slice_subrange;

verus! {

/// Raw timestamp taken when a datagram arrives.
pub type RawTs = u64;

/// Storage for one datagram payload.
pub type DatagramBytes = [u8; 1472];

/// Largest datagram payload a slot holds.
pub const SLOT_BYTES: usize = 1472;

/// One datagram, in order, ready to decode.
pub struct OrderedDatagram {
    len: usize,
    bytes: [u8; 1472],
    /// Time stamp taken when the payload was copied into the buffer.
    pub t0: RawTs,
}

impl OrderedDatagram {
    /// The payload.
    pub closed spec fn data(&self) -> Seq<u8> {
        self.bytes@.take(self.len as int)
    }

    /// The arrival time stamp.
    pub closed spec fn stamp(&self) -> RawTs {
        self.t0
    }

    /// Length of the payload, as stored.
    pub closed spec fn size(&self) -> nat {
        self.len as nat
    }

    pub fn as_slice(&self) -> (r: &[u8])
        requires
            self.size() <= SLOT_BYTES,
        ensures
            r@ == self.data(),
    {
        slice_subrange(self.bytes.as_slice(), 0, self.len)
    }

    pub fn len(&self) -> (r: usize)
        ensures
            r == self.size(),
    {
        self.len
    }

    pub fn is_empty(&self) -> (r: bool)
        ensures
            r == (self.size() == 0),
    {
        self.len == 0
    }
}

struct Slot {
    occupied: bool,
    seq: u64,
    len: usize,
    data: [u8; 1472],
    t0: RawTs,
}

/// A sequence number too far ahead of the watermark for the window.
#[derive(Debug, Clone, Copy, PartialEq, Eq, Structural)]
pub struct ReorderWindowExceeded {
    pub seq: u64,
    pub next_expected: u64,
    pub window: usize,
}

/// A payload longer than a slot.
#[derive(Debug, Clone, Copy, PartialEq, Eq, Structural)]
pub struct PayloadTooLarge {
    pub len: usize,
    pub max: usize,
}

/// Error of [`ReorderBuffer::push`].
#[derive(Debug, Clone, Copy, PartialEq, Eq, Structural)]
pub enum PushError {
    WindowExceeded(ReorderWindowExceeded),
    PayloadTooLarge(PayloadTooLarge),
}

/// Result of [`ReorderBuffer::push`].
#[derive(Debug, Clone, Copy, PartialEq, Eq, Structural)]
pub enum PushOutcome {
    /// Stored; `arrived_ahead` if it is beyond the watermark.
    Buffered { arrived_ahead: bool },
    /// Behind the watermark: already delivered, dropped.
    LateDuplicate,
    /// Already buffered, dropped.
    DuplicateSeq,
}

/// Counters of push outcomes.
#[derive(Debug, Clone, Copy, PartialEq, Eq, Structural)]
pub struct ReorderStats {
    pub packets_late_duplicate: u64,
    pub packets_duplicate_seq: u64,
    pub reorder_ahead_arrivals: u64,
}

impl Default for ReorderStats {
    fn default() -> (r: Self)
        ensures
            r == (ReorderStats { packets_late_duplicate: 0, packets_duplicate_seq: 0, reorder_ahead_arrivals: 0 }),
    {
        ReorderStats { packets_late_duplicate: 0, packets_duplicate_seq: 0, reorder_ahead_arrivals: 0 }
    }
}

impl ReorderStats {
    /// Every counter can still be incremented.
    pub open spec fn has_room(&self) -> bool {
        &&& self.packets_late_duplicate < u64::MAX
        &&& self.packets_duplicate_seq < u64::MAX
        &&& self.reorder_ahead_arrivals < u64::MAX
    }

    /// The counters after recording `outcome`.
    pub open spec fn after(self, outcome: PushOutcome) -> ReorderStats {
        match outcome {
            PushOutcome::Buffered { arrived_ahead } => if arrived_ahead {
                ReorderStats { reorder_ahead_arrivals: (self.reorder_ahead_arrivals + 1) as u64, ..self }
            } else {
                self
            },
            PushOutcome::LateDuplicate => ReorderStats {
                packets_late_duplicate: (self.packets_late_duplicate + 1) as u64,
                ..self
            },
            PushOutcome::DuplicateSeq => ReorderStats {
                packets_duplicate_seq: (self.packets_duplicate_seq + 1) as u64,
                ..self
            },
        }
    }

    /// Count one push outcome.
    pub fn record_push_ok(&mut self, outcome: PushOutcome)
        requires
            old(self).has_room(),
        ensures
            *final(self) == old(self).after(outcome),
    {
        match outcome {
            PushOutcome::Buffered { arrived_ahead } => {
                if arrived_ahead {
                    self.reorder_ahead_arrivals = self.reorder_ahead_arrivals + 1;
                }
            },
            PushOutcome::LateDuplicate => self.packets_late_duplicate = self.packets_late_duplicate + 1,
            PushOutcome::DuplicateSeq => self.packets_duplicate_seq = self.packets_duplicate_seq + 1,
        }
    }
}

/// Reorder ring accepting sequence numbers in `[next_expected, next_expected + window)`.
pub struct ReorderBuffer {
    window: usize,
    next_expected: u64,
    /// Slot of the datagram numbered `next_expected`.
    start: usize,
    slots: Vec<Slot>,
    stats: ReorderStats,
}

impl ReorderBuffer {
    /// Lowest sequence number not yet delivered.
    pub closed spec fn next(&self) -> u64 {
        self.next_expected
    }

    /// Number of slots.
    pub closed spec fn win(&self) -> nat {
        self.window as nat
    }

    pub closed spec fn counters(&self) -> ReorderStats {
        self.stats
    }

    /// Slot of the datagram `d` places after the watermark.
    closed spec fn index(&self, d: int) -> int {
        if self.start + d < self.window {
            self.start + d
        } else {
            self.start + d - self.window
        }
    }

    /// Places after the watermark of slot `j`.
    closed spec fn offset(&self, j: int) -> int {
        if j >= self.start {
            j - self.start
        } else {
            j + self.window - self.start
        }
    }

    /// The datagram buffered with sequence number `seq`, with its time stamp.
    pub closed spec fn entry(&self, seq: u64) -> Option<(Seq<u8>, RawTs)> {
        if self.next_expected <= seq < self.next_expected + self.window {
            let s = self.slots@[self.index(seq - self.next_expected)];
            if s.occupied {
                Some((s.data@.take(s.len as int), s.t0))
            } else {
                None
            }
        } else {
            None
        }
    }

    pub closed spec fn wf(&self) -> bool {
        &&& self.window >= 1
        &&& self.slots@.len() == self.window
        &&& self.start < self.window
        &&& forall|j: int|
            0 <= j < self.window && (#[trigger] self.slots@[j]).occupied ==> {
                &&& self.slots@[j].seq == self.next_expected + self.offset(j)
                &&& self.slots@[j].len <= SLOT_BYTES
            }
    }
}

impl View for ReorderBuffer {
    type V = Map<u64, (Seq<u8>, RawTs)>;

    /// The buffered datagrams by sequence number.
    closed spec fn view(&self) -> Map<u64, (Seq<u8>, RawTs)> {
        Map::new(|s: u64| self.entry(s) is Some, |s: u64| self.entry(s)->Some_0)
    }
}


/// What [`ReorderBuffer::push`] answers for a payload of `len` bytes numbered `seq`,
/// given the watermark `next`, the window `win` and the buffered datagrams `m`.
pub open spec fn push_result(next: u64, win: nat, m: Map<u64, (Seq<u8>, RawTs)>, seq: u64, len: nat) -> Result<
    PushOutcome,
    PushError,
> {
    if len > SLOT_BYTES {
        Err(PushError::PayloadTooLarge(PayloadTooLarge { len: len as usize, max: SLOT_BYTES }))
    } else if seq < next {
        Ok(PushOutcome::LateDuplicate)
    } else if seq - next >= win {
        Err(PushError::WindowExceeded(ReorderWindowExceeded { seq, next_expected: next, window: win as usize }))
    } else if m.contains_key(seq) {
        Ok(PushOutcome::DuplicateSeq)
    } else {
        Ok(PushOutcome::Buffered { arrived_ahead: seq > next })
    }
}

/// Entry `i` of `out` is the datagram numbered `first + i` of `m`.
pub open spec fn delivered_at(out: Seq<OrderedDatagram>, m: Map<u64, (Seq<u8>, RawTs)>, first: u64, i: int) -> bool {
    &&& m.contains_key((first + i) as u64)
    &&& out[i].data() == m[(first + i) as u64].0
    &&& out[i].stamp() == m[(first + i) as u64].1
}

/// `out` holds, in order, the datagrams numbered `first`, `first + 1`, ... of `m`.
pub open spec fn delivered(out: Seq<OrderedDatagram>, m: Map<u64, (Seq<u8>, RawTs)>, first: u64) -> bool {
    forall|i: int|
        0 <= i < out.len() ==> delivered_at(out, m, first, i)
}

proof fn lemma_delivered_push(out: Seq<OrderedDatagram>, d: OrderedDatagram, m: Map<u64, (Seq<u8>, RawTs)>, first: u64)
    requires
        delivered(out, m, first),
        m.contains_key((first + out.len()) as u64),
        d.data() == m[(first + out.len()) as u64].0,
        d.stamp() == m[(first + out.len()) as u64].1,
    ensures
        delivered(out.push(d), m, first),
{
    assert forall|i: int| 0 <= i < out.push(d).len() implies #[trigger] delivered_at(out.push(d), m, first, i) by {
        if i < out.len() {
            assert(out.push(d)[i] == out[i]);
            assert(delivered_at(out, m, first, i));
        } else {
            assert(i == out.len());
            assert(out.push(d)[i] == d);
            assert(((first + i) as u64) == ((first + out.len()) as u64));
        }
    }
}

impl ReorderBuffer {
    /// Every buffered sequence number lies in the window.
    pub proof fn lemma_keys_in_window(&self)
        requires
            self.wf(),
        ensures
            forall|s: u64| #[trigger] self@.contains_key(s) ==> self.next() <= s < self.next() + self.win(),
    {
    }

    /// An empty buffer expecting `first_seq` first, with `window` slots.
    pub fn new(first_seq: u64, window: usize) -> (r: Self)
        requires
            window >= 1,
        ensures
            r.wf(),
            r.next() == first_seq,
            r.win() == window,
            r@ == Map::<u64, (Seq<u8>, RawTs)>::empty(),
            r.counters() == (ReorderStats { packets_late_duplicate: 0, packets_duplicate_seq: 0, reorder_ahead_arrivals: 0 }),
    {
        let mut slots: Vec<Slot> = Vec::new();
        let mut i: usize = 0;
        while i < window
            invariant
                i <= window,
                slots@.len() == i,
                forall|j: int| 0 <= j < i ==> !(#[trigger] slots@[j]).occupied,
            decreases window - i,
        {
            slots.push(Slot { occupied: false, seq: 0, len: 0, data: [0u8; 1472], t0: 0 });
            i = i + 1;
        }
        let r = ReorderBuffer { window, next_expected: first_seq, start: 0, slots, stats: ReorderStats::default() };
        assert(r@ =~= Map::<u64, (Seq<u8>, RawTs)>::empty());
        r
    }

    pub fn next_expected(&self) -> (r: u64)
        ensures
            r == self.next(),
    {
        self.next_expected
    }

    pub fn stats(&self) -> (r: ReorderStats)
        ensures
            r == self.counters(),
    {
        self.stats
    }

    /// Slot of the datagram `d` places after the watermark.
    fn slot_of(&self, d: usize) -> (i: usize)
        requires
            self.wf(),
            d < self.window,
        ensures
            i == self.index(d as int),
            i < self.window,
            self.offset(i as int) == d,
    {
        if d < self.window - self.start {
            self.start + d
        } else {
            d - (self.window - self.start)
        }
    }

    /// Store a datagram (the MoldUDP64 bytes) under sequence number `seq`, stamped `t0`.
    /// Too long a payload or a number beyond the window is an error; a number behind
    /// the watermark or already buffered is dropped.
    #[verifier::spinoff_prover]
    pub fn push(&mut self, seq: u64, src: &[u8], t0: RawTs) -> (r: Result<PushOutcome, PushError>)
        requires
            old(self).wf(),
            old(self).counters().has_room(),
        ensures
            final(self).wf(),
            final(self).next() == old(self).next(),
            final(self).win() == old(self).win(),
            src@.len() > SLOT_BYTES ==> r == Err::<PushOutcome, PushError>(
                PushError::PayloadTooLarge(PayloadTooLarge { len: src@.len() as usize, max: SLOT_BYTES }),
            ) && final(self)@ == old(self)@ && final(self).counters() == old(self).counters(),
            src@.len() <= SLOT_BYTES && seq < old(self).next() ==> r == Ok::<PushOutcome, PushError>(
                PushOutcome::LateDuplicate,
            ) && final(self)@ == old(self)@ && final(self).counters() == old(self).counters().after(
                PushOutcome::LateDuplicate,
            ),
            src@.len() <= SLOT_BYTES && seq >= old(self).next() && seq - old(self).next() >= old(self).win() ==> r
                == Err::<PushOutcome, PushError>(
                PushError::WindowExceeded(
                    ReorderWindowExceeded { seq, next_expected: old(self).next(), window: old(self).win() as usize },
                ),
            ) && final(self)@ == old(self)@ && final(self).counters() == old(self).counters(),
            src@.len() <= SLOT_BYTES && seq >= old(self).next() && seq - old(self).next() < old(self).win()
                && old(self)@.contains_key(seq) ==> r == Ok::<PushOutcome, PushError>(PushOutcome::DuplicateSeq)
                && final(self)@ == old(self)@ && final(self).counters() == old(self).counters().after(
                PushOutcome::DuplicateSeq,
            ),
            src@.len() <= SLOT_BYTES && seq >= old(self).next() && seq - old(self).next() < old(self).win()
                && !old(self)@.contains_key(seq) ==> r == Ok::<PushOutcome, PushError>(
                PushOutcome::Buffered { arrived_ahead: seq > old(self).next() },
            ) && final(self)@ == old(self)@.insert(seq, (src@, t0)) && final(self).counters()
                == old(self).counters().after(PushOutcome::Buffered { arrived_ahead: seq > old(self).next() }),
    {
        let n = src.len();
        if n > SLOT_BYTES {
            return Err(PushError::PayloadTooLarge(PayloadTooLarge { len: n, max: SLOT_BYTES }));
        }
        if seq < self.next_expected {
            self.stats.record_push_ok(PushOutcome::LateDuplicate);
            return Ok(PushOutcome::LateDuplicate);
        }
        let dist = seq - self.next_expected;
        if dist >= self.window as u64 {
            return Err(
                PushError::WindowExceeded(
                    ReorderWindowExceeded { seq, next_expected: self.next_expected, window: self.window },
                ),
            );
        }
        let arrived_ahead = dist > 0;
        let i = self.slot_of(dist as usize);
        if self.slots[i].occupied {
            self.stats.record_push_ok(PushOutcome::DuplicateSeq);
            return Ok(PushOutcome::DuplicateSeq);
        }
        let ghost v0 = self@;
        let mut data = [0u8; 1472];
        let mut k: usize = 0;
        while k < n
            invariant
                k <= n <= SLOT_BYTES,
                n == src@.len(),
                data@.len() == SLOT_BYTES,
                forall|j: int| 0 <= j < k ==> data@[j] == src@[j],
            decreases n - k,
        {
            data[k] = src[k];
            k = k + 1;
        }
        assert(data@.take(n as int) =~= src@);
        self.slots[i] = Slot { occupied: true, seq, len: n, data, t0 };
        let outcome = PushOutcome::Buffered { arrived_ahead };
        self.stats.record_push_ok(outcome);
        proof {
            assert forall|j: int| 0 <= j < self.window && (#[trigger] self.slots@[j]).occupied implies {
                &&& self.slots@[j].seq == self.next_expected + self.offset(j)
                &&& self.slots@[j].len <= SLOT_BYTES
            } by {
                if j != i {
                    assert(self.slots@[j] == old(self).slots@[j]);
                }
            }
            assert forall|s: u64| #![auto] self.entry(s) == (if s == seq {
                Some((src@, t0))
            } else {
                old(self).entry(s)
            }) by {
                if s != seq && self.next_expected <= s < self.next_expected + self.window {
                    assert(self.index(s - self.next_expected) != i);
                }
            }
            assert(self@ =~= v0.insert(seq, (src@, t0)));
        }
        Ok(outcome)
    }

    /// Move the watermark past `next_expected` without delivering anything; nothing
    /// may be buffered under that number.
    pub fn advance_in_order(&mut self)
        requires
            old(self).wf(),
            !old(self)@.contains_key(old(self).next()),
            old(self).next() < u64::MAX,
        ensures
            final(self).wf(),
            final(self).next() == old(self).next() + 1,
            final(self).win() == old(self).win(),
            final(self)@ == old(self)@,
            final(self).counters() == old(self).counters(),
    {
        let ghost v0 = self@;
        assert(!self.slots@[self.start as int].occupied) by {
            assert(self.index(0) == self.start);
        }
        self.next_expected = self.next_expected + 1;
        self.start = if self.start + 1 == self.window { 0 } else { self.start + 1 };
        proof {
            assert forall|j: int| 0 <= j < self.window && (#[trigger] self.slots@[j]).occupied implies {
                &&& self.slots@[j].seq == self.next_expected + self.offset(j)
                &&& self.slots@[j].len <= SLOT_BYTES
            } by {
                assert(j != old(self).start);
                assert(old(self).offset(j) == self.offset(j) + 1);
            }
            assert forall|s: u64| #![auto] self.entry(s) == old(self).entry(s) by {
                if old(self).next_expected <= s < old(self).next_expected + self.window {
                    if s == old(self).next_expected {
                    } else {
                        assert(self.index(s - self.next_expected) == old(self).index(s - old(self).next_expected));
                    }
                } else if self.next_expected <= s < self.next_expected + self.window {
                    assert(s == old(self).next_expected + self.window);
                    assert(self.index(s - self.next_expected) == old(self).start);
                }
            }
            assert(self@ =~= v0);
        }
    }

    /// Take the datagram numbered `next_expected` if it is buffered, and move the
    /// watermark past it.
    pub fn pop_ready(&mut self) -> (r: Option<OrderedDatagram>)
        requires
            old(self).wf(),
            old(self)@.contains_key(old(self).next()) ==> old(self).next() < u64::MAX,
        ensures
            final(self).wf(),
            final(self).win() == old(self).win(),
            final(self).counters() == old(self).counters(),
            old(self)@.contains_key(old(self).next()) ==> (r matches Some(d) && d.data() == old(self)@[old(self).next()].0
                && d.stamp() == old(self)@[old(self).next()].1 && d.size() <= SLOT_BYTES && final(self).next()
                == old(self).next() + 1 && final(self)@ == old(self)@.remove(old(self).next())),
            !old(self)@.contains_key(old(self).next()) ==> (r is None && final(self)@ == old(self)@
                && final(self).next() == old(self).next()),
    {
        let st = self.start;
        assert(self.index(0) == st);
        if !self.slots[st].occupied {
            assert(self@ =~= old(self)@);
            return None;
        }
        let ghost v0 = self@;
        let len = self.slots[st].len;
        let bytes = self.slots[st].data;
        let t0 = self.slots[st].t0;
        self.slots[st].occupied = false;
        let d = OrderedDatagram { len, bytes, t0 };
        self.next_expected = self.next_expected + 1;
        self.start = if st + 1 == self.window { 0 } else { st + 1 };
        proof {
            assert forall|j: int| 0 <= j < self.window && (#[trigger] self.slots@[j]).occupied implies {
                &&& self.slots@[j].seq == self.next_expected + self.offset(j)
                &&& self.slots@[j].len <= SLOT_BYTES
            } by {
                assert(j != st);
                assert(self.slots@[j] == old(self).slots@[j]);
                assert(old(self).offset(j) == self.offset(j) + 1);
            }
            assert forall|s: u64| #![auto] self.entry(s) == (if s == old(self).next_expected {
                None
            } else {
                old(self).entry(s)
            }) by {
                if s != old(self).next_expected && old(self).next_expected <= s < old(self).next_expected
                    + self.window {
                    assert(self.index(s - self.next_expected) == old(self).index(s - old(self).next_expected));
                    assert(self.index(s - self.next_expected) != st);
                } else if self.next_expected <= s < self.next_expected + self.window && s
                    != old(self).next_expected {
                    assert(s == old(self).next_expected + self.window);
                    assert(self.index(s - self.next_expected) == st);
                }
            }
            assert(self@ =~= v0.remove(old(self).next_expected));
        }
        Some(d)
    }

    /// Take every datagram that is ready, in sequence order: those numbered
    /// `next_expected`, `next_expected + 1`, ... up to the first gap.
    pub fn drain_ready(&mut self) -> (r: Vec<OrderedDatagram>)
        requires
            old(self).wf(),
            old(self).next() + old(self).win() <= u64::MAX,
        ensures
            final(self).wf(),
            final(self).win() == old(self).win(),
            final(self).next() == old(self).next() + r@.len(),
            !final(self)@.contains_key(final(self).next()),
            delivered(r@, old(self)@, old(self).next()),
            final(self)@ == old(self)@.restrict(
                old(self)@.dom().filter(|s: u64| s >= old(self).next() + r@.len()),
            ),
    {
        let mut out: Vec<OrderedDatagram> = Vec::new();
        let ghost n0 = self.next();
        let ghost w = self.win();
        let ghost m0 = self@;
        proof {
            self.lemma_keys_in_window();
            assert(m0 =~= m0.restrict(m0.dom().filter(|s: u64| s >= n0 + 0)));
        }
        loop
            invariant
                self.wf(),
                self.win() == w,
                n0 + w <= u64::MAX,
                self.next() == n0 + out@.len(),
                self.next() <= n0 + w,
                forall|s: u64| #[trigger] self@.contains_key(s) ==> s < n0 + w,
                self@ == m0.restrict(m0.dom().filter(|s: u64| s >= n0 + out@.len())),
                delivered(out@, m0, n0),
            ensures
                self.wf(),
                self.win() == w,
                self.next() == n0 + out@.len(),
                !self@.contains_key(self.next()),
                self@ == m0.restrict(m0.dom().filter(|s: u64| s >= n0 + out@.len())),
                delivered(out@, m0, n0),
            decreases n0 + w - self.next(),
        {
            let ghost before = self@;
            let ghost nb = self.next();
            let ghost out0 = out@;
            match self.pop_ready() {
                Some(d) => {
                    out.push(d);
                    proof {
                        self.lemma_keys_in_window();
                        assert(before.contains_key(nb));
                        assert(m0.contains_key(nb) && before[nb] == m0[nb]);
                        assert(nb == (n0 + out0.len()) as u64);
                        assert(out@ == out0.push(d));
                        lemma_delivered_push(out0, d, m0, n0);
                        assert(delivered(out@, m0, n0));
                        assert(self@ =~= m0.restrict(m0.dom().filter(|s: u64| s >= n0 + out@.len())));
                    }
                },
                None => {
                    assert(out@ == out0);
                    break;
                },
            }
        }
        out
    }
}

} // verus!
