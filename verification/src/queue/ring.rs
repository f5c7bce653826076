//! Ring buffer over a power-of-two number of slots, indexed by a bit mask.
use vstd::prelude::*;

verus! {

/// `capacity` is a power of two: non-zero with a single bit set.
pub open spec fn is_power_of_two(capacity: usize) -> bool {
    capacity > 0 && capacity & ((capacity - 1) as usize) == 0
}

/// `mask` is `2^k - 1` for some `k < 32`.
pub open spec fn is_low_mask(mask: u32) -> bool {
    mask < 0x8000_0000 && mask & ((mask + 1) as u32) == 0
}

/// Stepping an index forward under a low mask wraps from the mask to zero.
proof fn lemma_step(x: u32, mask: u32)
    by (bit_vector)
    requires
        x <= mask,
        mask < 0x8000_0000,
        mask & ((mask + 1) as u32) == 0,
    ensures
        ((x + 1) as u32) & mask == (if x == mask { 0u32 } else { (x + 1) as u32 }),
{
}

/// A power of two that fits in `u32` leaves a low mask below it.
proof fn lemma_mask_of(capacity: usize)
    by (bit_vector)
    requires
        capacity > 0,
        capacity & ((capacity - 1) as usize) == 0,
        capacity <= 0xFFFF_FFFF,
    ensures
        ((capacity - 1) as u32) < 0x8000_0000,
        ((capacity - 1) as u32) & ((((capacity - 1) as u32) + 1) as u32) == 0,
{
}

/// Ring of slots with a head (next to read) and a tail (next to write). The queue
/// holds the slots from head up to tail, wrapping; one slot always stays free, so
/// at most `capacity - 1` values are held.
pub struct SpscRing<T> {
    buffer: Vec<Option<T>>,
    mask: u32,
    head: u32,
    tail: u32,
}

impl<T> SpscRing<T> {
    /// Number of slots.
    pub closed spec fn cap(&self) -> nat {
        self.buffer@.len()
    }

    /// Number of values held.
    pub closed spec fn count(&self) -> nat {
        if self.head <= self.tail {
            (self.tail - self.head) as nat
        } else {
            (self.tail + self.cap() - self.head) as nat
        }
    }

    /// Slot of the `i`-th value held.
    closed spec fn slot(&self, i: int) -> int {
        if self.head + i < self.cap() {
            self.head + i
        } else {
            self.head + i - self.cap()
        }
    }

    /// Slot `j` holds a value.
    closed spec fn live(&self, j: int) -> bool {
        if self.head <= self.tail {
            self.head <= j < self.tail
        } else {
            j >= self.head || j < self.tail
        }
    }

    /// The ring's slots agree with its indices.
    pub closed spec fn wf(&self) -> bool {
        &&& is_low_mask(self.mask)
        &&& self.buffer@.len() == self.mask + 1
        &&& self.head <= self.mask
        &&& self.tail <= self.mask
        &&& forall|j: int| 0 <= j < self.cap() ==> (#[trigger] self.buffer@[j] is Some <==> self.live(j))
    }
}

impl<T> View for SpscRing<T> {
    type V = Seq<T>;

    /// The values held, oldest first.
    closed spec fn view(&self) -> Seq<T> {
        Seq::new(self.count(), |i: int| self.buffer@[self.slot(i)]->Some_0)
    }
}

impl<T> SpscRing<T> {
    /// A well-formed ring holds fewer values than it has slots.
    pub proof fn lemma_room(&self)
        requires
            self.wf(),
        ensures
            self@.len() < self.cap(),
    {
    }

    /// An empty ring of `capacity` slots.
    pub fn new(capacity: usize) -> (r: Self)
        requires
            is_power_of_two(capacity),
            capacity <= u32::MAX,
        ensures
            r.wf(),
            r.cap() == capacity,
            r@ == Seq::<T>::empty(),
    {
        proof {
            lemma_mask_of(capacity);
        }
        let mut buffer: Vec<Option<T>> = Vec::new();
        let mut i: usize = 0;
        while i < capacity
            invariant
                i <= capacity,
                buffer@.len() == i,
                forall|j: int| 0 <= j < i ==> (#[trigger] buffer@[j]) is None,
            decreases capacity - i,
        {
            buffer.push(None);
            i = i + 1;
        }
        let r = SpscRing { buffer, mask: (capacity - 1) as u32, head: 0, tail: 0 };
        assert(r@ =~= Seq::<T>::empty());
        r
    }

    /// Number of slots.
    pub fn capacity(&self) -> (r: usize)
        ensures
            r == self.cap(),
    {
        self.buffer.len()
    }

    /// Whether no further value fits: `capacity - 1` values are held.
    pub fn is_full(&self) -> (r: bool)
        requires
            self.wf(),
        ensures
            r == (self@.len() + 1 == self.cap()),
    {
        proof {
            lemma_step(self.tail, self.mask);
        }
        (self.tail + 1) & self.mask == self.head
    }

    /// Whether no value is held.
    pub fn is_empty(&self) -> (r: bool)
        requires
            self.wf(),
        ensures
            r == (self@.len() == 0),
    {
        self.head == self.tail
    }

    /// Append `value` at the back, or hand it back if the ring is full.
    pub fn try_push(&mut self, value: T) -> (r: Result<(), T>)
        requires
            old(self).wf(),
        ensures
            final(self).wf(),
            final(self).cap() == old(self).cap(),
            old(self)@.len() + 1 == old(self).cap() ==> r == Err::<(), T>(value) && final(self)@ == old(self)@,
            old(self)@.len() + 1 < old(self).cap() ==> r is Ok && final(self)@ == old(self)@.push(value),
    {
        if self.is_full() {
            return Err(value);
        }
        let ghost v0 = self@;
        let ghost c = self.cap();
        let t = self.tail;
        proof {
            lemma_step(t, self.mask);
            assert(!self.live(t as int));
        }
        self.buffer.set(t as usize, Some(value));
        self.tail = (t + 1) & self.mask;
        proof {
            assert forall|j: int| 0 <= j < self.cap() implies (#[trigger] self.buffer@[j] is Some <==> self.live(j)) by {
                if j != t {
                    assert(self.buffer@[j] == old(self).buffer@[j]);
                }
            }
            assert forall|i: int| 0 <= i < v0.len() implies self.slot(i) == old(self).slot(i) by {}
            assert(self.slot(v0.len() as int) == t);
            assert(self@ =~= v0.push(value));
        }
        Ok(())
    }

    /// Take the value at the front, if any.
    pub fn try_pop(&mut self) -> (r: Option<T>)
        requires
            old(self).wf(),
        ensures
            final(self).wf(),
            final(self).cap() == old(self).cap(),
            old(self)@.len() == 0 ==> r is None && final(self)@ == old(self)@,
            old(self)@.len() > 0 ==> r == Some(old(self)@[0]) && final(self)@ == old(self)@.drop_first(),
    {
        if self.is_empty() {
            return None;
        }
        let ghost v0 = self@;
        let h = self.head;
        proof {
            lemma_step(h, self.mask);
            assert(self.live(h as int));
            assert(self.slot(0) == h);
        }
        let value = self.buffer[h as usize].take();
        self.head = (h + 1) & self.mask;
        proof {
            assert forall|j: int| 0 <= j < self.cap() implies (#[trigger] self.buffer@[j] is Some <==> self.live(j)) by {
                if j != h {
                    assert(self.buffer@[j] == old(self).buffer@[j]);
                }
            }
            assert forall|i: int| 0 <= i < v0.len() - 1 implies self.slot(i) == old(self).slot(i + 1) by {}
            assert(self@ =~= v0.drop_first());
        }
        value
    }
}

} // verus!
