//! The strict sub-queue abstraction.
//!
//! A relaxed composer federates several strict FIFO queues. Any queue that
//! implements [`ConcurrentSubQueue`] can serve as such a building block; the
//! countable and versioned extensions add the operation counters that the
//! load-balancing composers read.

use vstd::prelude::*;

pub mod countable_wrapper;
pub mod ms;

verus! {

/// A strict FIFO queue usable as a sub-queue of a relaxed composer.
///
/// `LockType` is the per-thread state a caller must hold to operate on the
/// queue: whatever the implementation needs per caller thread (hazard-pointer
/// slots for a reclaiming queue, nothing for the arena model here).
///
/// The contract is exact FIFO: `enqueue` appends, `dequeue` removes the
/// oldest item, and absence is returned exactly on an empty queue.
pub trait ConcurrentSubQueue<T>: Sized {
    type LockType;

    /// Validity of the queue's representation. Constructors establish it and
    /// every operation preserves it.
    spec fn inv(&self) -> bool;

    /// The items currently held, oldest first.
    spec fn contents(&self) -> Seq<T>;

    /// How many items have ever been enqueued.
    spec fn enq_total(&self) -> nat;

    /// How many items have ever been dequeued.
    spec fn deq_total(&self) -> nat;

    /// Whether the implementation has room to record one more enqueue. This
    /// is a machine limit (a saturated operation counter), never a capacity
    /// bound: the queues themselves are unbounded.
    spec fn enqueue_ready(&self) -> bool;

    /// Creates a new concurrent queue, with default configuration
    fn new() -> (q: Self)
        ensures
            q.inv(),
            q.contents() == Seq::<T>::empty(),
            q.enq_total() == 0,
            q.deq_total() == 0,
            q.enqueue_ready(),
    ;

    fn new_lock() -> (l: Self::LockType);

    fn enqueue(&mut self, item: T, lock_type: &mut Self::LockType)
        requires
            old(self).inv(),
            old(self).enqueue_ready(),
        ensures
            final(self).inv(),
            final(self).contents() == old(self).contents().push(item),
            final(self).enq_total() == old(self).enq_total() + 1,
            final(self).deq_total() == old(self).deq_total(),
    ;

    fn dequeue(&mut self, lock_type: &mut Self::LockType) -> (r: Option<T>)
        requires
            old(self).inv(),
        ensures
            final(self).inv(),
            final(self).enq_total() == old(self).enq_total(),
            final(self).enqueue_ready() == old(self).enqueue_ready(),
            match r {
                Some(v) => {
                    &&& old(self).contents().len() > 0
                    &&& v == old(self).contents()[0]
                    &&& final(self).contents() == old(self).contents().drop_first()
                    &&& final(self).deq_total() == old(self).deq_total() + 1
                },
                None => {
                    &&& old(self).contents().len() == 0
                    &&& final(self).contents() == old(self).contents()
                    &&& final(self).deq_total() == old(self).deq_total()
                },
            },
    ;
}

/// A sub-queue that also reports how many operations it has seen. In this
/// library the counters are exact; the composers only ever use them as
/// balancing hints.
pub trait CountableConcurrentSubQueue<T>: ConcurrentSubQueue<T> {
    /// Both getters also state conservation: every item that went in and has
    /// not come out is still held, so the count difference is the length.
    fn enq_count(&self) -> (c: usize)
        requires
            self.inv(),
        ensures
            c as nat == self.enq_total(),
            self.enq_total() == self.deq_total() + self.contents().len(),
    ;

    fn deq_count(&self) -> (c: usize)
        requires
            self.inv(),
        ensures
            c as nat == self.deq_total(),
            self.enq_total() == self.deq_total() + self.contents().len(),
    ;
}

/// A countable sub-queue whose version counter ticks exactly once per
/// successful enqueue; a sweep that reads it twice and sees no change knows
/// that no enqueue completed in between.
pub trait CountableVersionedConcurrentSubQueue<T>: CountableConcurrentSubQueue<T> {
    fn enq_version(&self) -> (v: usize)
        requires
            self.inv(),
        ensures
            v as nat == self.enq_total(),
    ;
}

/// The contents of a queue that held `q` after enqueuing every item of
/// `items` in order, one [`ConcurrentSubQueue::enqueue`] at a time.
pub open spec fn pushed_all<T>(q: Seq<T>, items: Seq<T>) -> Seq<T>
    decreases items.len(),
{
    if items.len() == 0 {
        q
    } else {
        pushed_all(q.push(items[0]), items.drop_first())
    }
}

/// Single-threaded FIFO, enqueue half: enqueuing `items` in order appends
/// exactly `items`, so on an empty queue it leaves exactly `items`.
pub proof fn lemma_fifo_enqueues<T>(q: Seq<T>, items: Seq<T>)
    ensures
        pushed_all(q, items) == q + items,
    decreases items.len(),
{
    if items.len() == 0 {
        assert(pushed_all(q, items) =~= q + items);
    } else {
        lemma_fifo_enqueues(q.push(items[0]), items.drop_first());
        assert(q.push(items[0]) + items.drop_first() =~= q + items);
    }
}

/// Single-threaded FIFO, dequeue half: a queue holding `items` and dequeued
/// `k` times holds `items.skip(k)`, so the next dequeue returns `items[k]`
/// and leaves `items.skip(k + 1)`; after `items.len()` dequeues the queue
/// is empty and a further dequeue reports absence.
pub proof fn lemma_fifo_dequeues<T>(items: Seq<T>, k: int)
    requires
        0 <= k < items.len(),
    ensures
        items.skip(k)[0] == items[k],
        items.skip(k).drop_first() == items.skip(k + 1),
        items.skip(items.len() as int).len() == 0,
{
    assert(items.skip(k).drop_first() =~= items.skip(k + 1));
}

/// No duplication: a successful dequeue returns the queue's oldest item and
/// removes exactly that one occurrence — the old contents are the returned
/// item followed by the new contents, one occurrence fewer as a multiset.
pub proof fn lemma_dequeue_no_duplication<T>(q: Seq<T>, v: T, q2: Seq<T>)
    requires
        q.len() > 0,
        v == q[0],
        q2 == q.drop_first(),
    ensures
        q == seq![v] + q2,
        q.to_multiset() == q2.to_multiset().insert(v),
{
    broadcast use vstd::seq_lib::group_to_multiset_ensures;

    assert(q =~= seq![v] + q2);
    assert(q2 =~= q.remove(0));
    assert(q.to_multiset().count(v) >= 1);
    assert(q.to_multiset() =~= q2.to_multiset().insert(v));
}

} // verus!
