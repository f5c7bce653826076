//! Single-producer/single-consumer queue: one ring shared by a producer handle and a
//! consumer handle, each of which may live on its own thread. The ring is guarded by
//! a reader-writer lock (vstd's `RwLock`) rather than by lock-free head and tail
//! atomics: each push and pop takes the lock for the moment it touches the ring.
use std::sync::Arc;
use vstd::prelude::*;
use vstd::rwlock::{RwLock, RwLockPredicate};
use crate::queue::ring::{SpscRing, is_power_of_two};

verus! {

/// Error returned when [`SpscQueue::new`] is given a capacity that is not a power of
/// two that fits in `u32`.
#[derive(Debug, Clone, Copy, PartialEq, Eq, Structural)]
pub struct NonPowerOfTwoCapacity {
    pub capacity: usize,
}

/// What the lock guarding a shared ring keeps true: the ring is well formed and has
/// `cap` slots.
pub struct RingOf {
    pub cap: nat,
}

impl<T> RwLockPredicate<SpscRing<T>> for RingOf {
    open spec fn inv(self, v: SpscRing<T>) -> bool {
        v.wf() && v.cap() == self.cap
    }
}

/// SPSC queue, before it is split into its two handles.
pub struct SpscQueue<T> {
    inner: Arc<RwLock<SpscRing<T>, RingOf>>,
    capacity: usize,
}

/// Producer handle of an SPSC queue. Only one producer exists per queue.
pub struct SpscProducer<T> {
    inner: Arc<RwLock<SpscRing<T>, RingOf>>,
    capacity: usize,
}

/// Consumer handle of an SPSC queue. Only one consumer exists per queue.
pub struct SpscConsumer<T> {
    inner: Arc<RwLock<SpscRing<T>, RingOf>>,
    capacity: usize,
}

impl<T> SpscQueue<T> {
    #[verifier::type_invariant]
    closed spec fn inv(self) -> bool {
        self.inner.pred().cap == self.capacity
    }

    /// Number of slots.
    pub closed spec fn cap(&self) -> nat {
        self.capacity as nat
    }

    /// A queue over `capacity` slots, of which `capacity - 1` can hold values.
    /// `capacity` must be a power of two that fits in `u32`.
    pub fn new(capacity: usize) -> (r: Result<Self, NonPowerOfTwoCapacity>)
        ensures
            (is_power_of_two(capacity) && capacity <= u32::MAX) ==> (r matches Ok(q) && q.cap() == capacity),
            !(is_power_of_two(capacity) && capacity <= u32::MAX) ==> r == Err::<Self, NonPowerOfTwoCapacity>(
                NonPowerOfTwoCapacity { capacity },
            ),
    {
        if !(capacity > 0 && (capacity & (capacity - 1)) == 0) {
            return Err(NonPowerOfTwoCapacity { capacity });
        }
        if capacity > 0xFFFF_FFFF {
            return Err(NonPowerOfTwoCapacity { capacity });
        }
        let ring = SpscRing::new(capacity);
        let lock = RwLock::new(ring, Ghost(RingOf { cap: capacity as nat }));
        Ok(SpscQueue { inner: Arc::new(lock), capacity })
    }

    /// Number of slots.
    pub fn capacity(&self) -> (r: usize)
        ensures
            r == self.cap(),
    {
        self.capacity
    }

    /// Split the queue into its producer and consumer handles.
    pub fn split(self) -> (r: (SpscProducer<T>, SpscConsumer<T>))
        ensures
            r.0.cap() == self.cap(),
            r.1.cap() == self.cap(),
    {
        proof {
            use_type_invariant(&self);
        }
        let p = SpscProducer { inner: self.inner.clone(), capacity: self.capacity };
        let c = SpscConsumer { inner: self.inner, capacity: self.capacity };
        (p, c)
    }
}

impl<T> SpscProducer<T> {
    #[verifier::type_invariant]
    closed spec fn inv(self) -> bool {
        self.inner.pred().cap == self.capacity
    }

    /// Number of slots.
    pub closed spec fn cap(&self) -> nat {
        self.capacity as nat
    }

    pub fn capacity(&self) -> (r: usize)
        ensures
            r == self.cap(),
    {
        self.capacity
    }

    /// Whether the queue held `capacity - 1` values when looked at. The consumer may
    /// take values at any time, so nothing is promised of the answer.
    pub fn is_full(&self) -> bool {
        let handle = self.inner.acquire_read();
        let full = handle.borrow().is_full();
        handle.release_read();
        full
    }

    /// Append `value` at the back of the queue, or hand it back if the queue is full.
    pub fn try_push(&mut self, value: T) -> (r: Result<(), T>)
        ensures
            r matches Err(v) ==> v == value,
    {
        proof {
            use_type_invariant(&*self);
        }
        let (mut ring, handle) = self.inner.acquire_write();
        proof {
            ring.lemma_room();
        }
        let r = ring.try_push(value);
        handle.release_write(ring);
        r
    }
}

impl<T> SpscConsumer<T> {
    #[verifier::type_invariant]
    closed spec fn inv(self) -> bool {
        self.inner.pred().cap == self.capacity
    }

    /// Number of slots.
    pub closed spec fn cap(&self) -> nat {
        self.capacity as nat
    }

    pub fn capacity(&self) -> (r: usize)
        ensures
            r == self.cap(),
    {
        self.capacity
    }

    /// Whether the queue held no value when looked at. The producer may add values
    /// at any time, so nothing is promised of the answer.
    pub fn is_empty(&self) -> bool {
        let handle = self.inner.acquire_read();
        let empty = handle.borrow().is_empty();
        handle.release_read();
        empty
    }

    /// Take the value at the front of the queue, if any.
    pub fn try_pop(&mut self) -> Option<T> {
        proof {
            use_type_invariant(&*self);
        }
        let (mut ring, handle) = self.inner.acquire_write();
        let r = ring.try_pop();
        handle.release_write(ring);
        r
    }
}

} // verus!
