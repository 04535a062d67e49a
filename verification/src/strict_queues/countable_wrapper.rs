//! Adds operation counters to any strict sub-queue.
//!
//! The wrapper bumps an enqueue counter when delegating an enqueue and a
//! dequeue counter after a successful non-empty dequeue. The counters only
//! ever reflect real operations, and here they are exact, so their
//! difference is the number of items held. The enqueue counter doubles as
//! the version counter of the versioned extension: it ticks exactly once per
//! successful enqueue.

use core::marker::PhantomData;

use vstd::prelude::*;

use crate::strict_queues::{
    ConcurrentSubQueue, CountableConcurrentSubQueue, CountableVersionedConcurrentSubQueue,
};

verus! {

/// A sub-queue together with exact enqueue and dequeue counters.
pub struct CountableWrapper<S: ConcurrentSubQueue<T>, T> {
    queue: S,
    enq_count: usize,
    deq_count: usize,
    _phantom_data: PhantomData<T>,
}

impl<S: ConcurrentSubQueue<T>, T> ConcurrentSubQueue<T> for CountableWrapper<S, T> {
    type LockType = S::LockType;

    /// Conservation: the counters record exactly the operations the valid
    /// inner queue saw, so their difference is the number of items held.
    closed spec fn inv(&self) -> bool {
        &&& self.queue.inv()
        &&& self.enq_count as int == self.deq_count as int + self.queue.contents().len()
    }

    closed spec fn contents(&self) -> Seq<T> {
        self.queue.contents()
    }

    closed spec fn enq_total(&self) -> nat {
        self.enq_count as nat
    }

    closed spec fn deq_total(&self) -> nat {
        self.deq_count as nat
    }

    /// One more enqueue must not overflow the counter, and the inner queue
    /// must be ready as well.
    closed spec fn enqueue_ready(&self) -> bool {
        self.enq_count < usize::MAX && self.queue.enqueue_ready()
    }

    fn new() -> (q: Self) {
        CountableWrapper { queue: S::new(), enq_count: 0, deq_count: 0, _phantom_data: PhantomData }
    }

    fn new_lock() -> (l: S::LockType) {
        S::new_lock()
    }

    fn enqueue(&mut self, item: T, lock_type: &mut S::LockType) {
        self.enq_count = self.enq_count + 1;
        self.queue.enqueue(item, lock_type);
    }

    fn dequeue(&mut self, lock_type: &mut S::LockType) -> (r: Option<T>) {
        if let Some(item) = self.queue.dequeue(lock_type) {
            self.deq_count = self.deq_count + 1;
            Some(item)
        } else {
            None
        }
    }
}

impl<S: ConcurrentSubQueue<T>, T> CountableConcurrentSubQueue<T> for CountableWrapper<S, T> {
    fn enq_count(&self) -> (c: usize) {
        self.enq_count
    }

    fn deq_count(&self) -> (c: usize) {
        self.deq_count
    }
}

impl<S: ConcurrentSubQueue<T>, T> CountableVersionedConcurrentSubQueue<T> for CountableWrapper<
    S,
    T,
> {
    fn enq_version(&self) -> (v: usize) {
        self.enq_count
    }
}

} // verus!
