//! Multi-producer/single-consumer queue: a bounded FIFO shared by any number of
//! producer handles and one consumer handle.
use std::collections::VecDeque;
use std::sync::Arc;
use vstd::prelude::*;
use vstd::rwlock::{RwLock, RwLockPredicate};

verus! {

/// FIFO of at most `capacity` values.
pub struct Bounded<T> {
    items: VecDeque<T>,
    capacity: usize,
}

impl<T> View for Bounded<T> {
    type V = Seq<T>;

    /// The values held, oldest first.
    closed spec fn view(&self) -> Seq<T> {
        self.items@
    }
}

impl<T> Bounded<T> {
    /// Largest number of values held.
    pub closed spec fn cap(&self) -> nat {
        self.capacity as nat
    }

    pub closed spec fn wf(&self) -> bool {
        self.items@.len() <= self.capacity
    }

    /// An empty FIFO for at most `capacity` values.
    pub fn new(capacity: usize) -> (r: Self)
        ensures
            r.wf(),
            r.cap() == capacity,
            r@ == Seq::<T>::empty(),
    {
        Bounded { items: VecDeque::new(), capacity }
    }

    pub fn capacity(&self) -> (r: usize)
        ensures
            r == self.cap(),
    {
        self.capacity
    }

    pub fn is_full(&self) -> (r: bool)
        requires
            self.wf(),
        ensures
            r == (self@.len() == self.cap()),
    {
        self.items.len() == self.capacity
    }

    pub fn is_empty(&self) -> (r: bool)
        ensures
            r == (self@.len() == 0),
    {
        self.items.len() == 0
    }

    /// Append `value` at the back, or hand it back if `capacity` values are held.
    pub fn try_push(&mut self, value: T) -> (r: Result<(), T>)
        requires
            old(self).wf(),
        ensures
            final(self).wf(),
            final(self).cap() == old(self).cap(),
            old(self)@.len() == old(self).cap() ==> r == Err::<(), T>(value) && final(self)@ == old(self)@,
            old(self)@.len() < old(self).cap() ==> r is Ok && final(self)@ == old(self)@.push(value),
    {
        if self.items.len() == self.capacity {
            return Err(value);
        }
        self.items.push_back(value);
        Ok(())
    }

    /// Take the value at the front, if any.
    pub fn try_pop(&mut self) -> (r: Option<T>)
        requires
            old(self).wf(),
        ensures
            final(self).wf(),
            final(self).cap() == old(self).cap(),
            old(self)@.len() == 0 ==> r is None && final(self)@ == old(self)@,
            old(self)@.len() > 0 ==> r == Some(old(self)@[0]) && final(self)@ == old(self)@.drop_first(),
    {
        self.items.pop_front()
    }
}

/// What the lock guarding a shared FIFO keeps true: it is well formed and bounded by `cap`.
pub struct BoundedOf {
    pub cap: nat,
}

impl<T> RwLockPredicate<Bounded<T>> for BoundedOf {
    open spec fn inv(self, v: Bounded<T>) -> bool {
        v.wf() && v.cap() == self.cap
    }
}

/// MPSC queue: [`MpscQueue::new`] gives a producer, which can be cloned for more
/// producers, and the one consumer.
pub struct MpscQueue<T> {
    _marker: std::marker::PhantomData<T>,
}

/// Producer handle of an MPSC queue. Clone it to get more producers.
pub struct MpscProducer<T> {
    inner: Arc<RwLock<Bounded<T>, BoundedOf>>,
    capacity: usize,
}

/// Consumer handle of an MPSC queue. Only one consumer exists per queue.
pub struct MpscConsumer<T> {
    inner: Arc<RwLock<Bounded<T>, BoundedOf>>,
    capacity: usize,
}

impl<T> MpscQueue<T> {
    /// A queue for at most `capacity` values: a cloneable producer and the consumer.
    pub fn new(capacity: usize) -> (r: (MpscProducer<T>, MpscConsumer<T>))
        ensures
            r.0.cap() == capacity,
            r.1.cap() == capacity,
    {
        let lock = RwLock::new(Bounded::new(capacity), Ghost(BoundedOf { cap: capacity as nat }));
        let inner = Arc::new(lock);
        (MpscProducer { inner: inner.clone(), capacity }, MpscConsumer { inner, capacity })
    }
}

impl<T> Clone for MpscProducer<T> {
    /// Another producer of the same queue.
    fn clone(&self) -> (r: Self)
        ensures
            r.cap() == self.cap(),
    {
        proof {
            use_type_invariant(self);
        }
        MpscProducer { inner: self.inner.clone(), capacity: self.capacity }
    }
}

impl<T> MpscProducer<T> {
    #[verifier::type_invariant]
    closed spec fn inv(self) -> bool {
        self.inner.pred().cap == self.capacity
    }

    /// Largest number of values the queue holds.
    pub closed spec fn cap(&self) -> nat {
        self.capacity as nat
    }

    /// Push `value`, or hand it back if the queue is full.
    pub fn push(&self, value: T) -> (r: Result<(), T>)
        ensures
            r matches Err(v) ==> v == value,
    {
        self.try_push(value)
    }

    /// Push `value` without blocking, or hand it back if the queue is full.
    pub fn try_push(&self, value: T) -> (r: Result<(), T>)
        ensures
            r matches Err(v) ==> v == value,
    {
        proof {
            use_type_invariant(self);
        }
        let (mut q, handle) = self.inner.acquire_write();
        let r = q.try_push(value);
        handle.release_write(q);
        r
    }

    pub fn capacity(&self) -> (r: usize)
        ensures
            r == self.cap(),
    {
        self.capacity
    }

    /// Whether the queue was full when looked at. Other producers and the consumer
    /// may act at any time, so nothing is promised of the answer.
    pub fn is_full(&self) -> bool {
        let handle = self.inner.acquire_read();
        let full = handle.borrow().is_full();
        handle.release_read();
        full
    }
}

impl<T> MpscConsumer<T> {
    #[verifier::type_invariant]
    closed spec fn inv(self) -> bool {
        self.inner.pred().cap == self.capacity
    }

    /// Largest number of values the queue holds.
    pub closed spec fn cap(&self) -> nat {
        self.capacity as nat
    }

    /// Take the value at the front, or `None` if the queue is empty; it does not wait
    /// for a value to arrive.
    pub fn pop(&mut self) -> Option<T> {
        self.try_pop()
    }

    /// Take the value at the front without blocking, or `None` if the queue is empty.
    pub fn try_pop(&mut self) -> Option<T> {
        proof {
            use_type_invariant(&*self);
        }
        let (mut q, handle) = self.inner.acquire_write();
        let r = q.try_pop();
        handle.release_write(q);
        r
    }

    pub fn capacity(&self) -> (r: usize)
        ensures
            r == self.cap(),
    {
        self.capacity
    }

    /// Whether the queue was empty when looked at. Producers may add values at any
    /// time, so nothing is promised of the answer.
    pub fn is_empty(&self) -> bool {
        let handle = self.inner.acquire_read();
        let empty = handle.borrow().is_empty();
        handle.release_read();
        empty
    }
}

} // verus!
