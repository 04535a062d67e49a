//! The DRa composer: power-of-`d`-choices by apparent length.
//!
//! `N` countable sub-queues and a choice parameter `d`. An enqueue samples
//! `d` lane indices at random and appends to the sampled lane with the
//! smallest apparent length (enqueue count minus dequeue count); a dequeue
//! samples `d` indices and removes from the sampled lane with the largest
//! apparent length. If that lane is empty the dequeue reports absence —
//! there is no global fallback, so absence only witnesses one empty lane.

use core::marker::PhantomData;

use vstd::prelude::*;

use crate::relaxed_queues::{popped_lane, pushed_lane};
use crate::rng::{gen_index, new_thread_rng};
use crate::strict_queues::{ConcurrentSubQueue, CountableConcurrentSubQueue};
use crate::{ConcurrentQueue, Relaxed};

verus! {

/// `N` countable sub-queues and the choice parameter `d`.
pub struct DRaQueue<SubQueue, T> {
    subqueues: Vec<SubQueue>,
    d: usize,
    _phantom_data: PhantomData<T>,
}

impl<T, S: CountableConcurrentSubQueue<T>> DRaQueue<S, T> {
    /// Validity: at least one sub-queue, `1 <= d <= N`, every sub-queue
    /// valid.
    pub closed spec fn wf(self) -> bool {
        &&& self.subqueues@.len() >= 1
        &&& 1 <= self.d as int <= self.subqueues@.len()
        &&& forall|i: int|
            0 <= i < self.subqueues@.len() ==> (#[trigger] self.subqueues@[i]).inv()
    }

    /// The number of sub-queues, fixed at construction.
    pub closed spec fn subqueue_count(self) -> nat {
        self.subqueues@.len()
    }

    /// The choice parameter.
    pub closed spec fn d_spec(self) -> int {
        self.d as int
    }

    /// The contents of each sub-queue, by index.
    pub closed spec fn lanes(self) -> Seq<Seq<T>> {
        self.subqueues@.map_values(|q: S| q.contents())
    }

    /// Whether every sub-queue can record one more enqueue. The enqueue
    /// target is sampled, so each lane must be ready.
    pub closed spec fn all_lanes_ready(self) -> bool {
        forall|i: int|
            0 <= i < self.subqueues@.len() ==> (#[trigger] self.subqueues@[i]).enqueue_ready()
    }

    pub fn new(queue_count: usize, d: usize) -> (q: Self)
        requires
            queue_count >= 1,
            1 <= d <= queue_count,
        ensures
            q.wf(),
            q.subqueue_count() == queue_count,
            q.d_spec() == d,
            forall|i: int| 0 <= i < queue_count ==> (#[trigger] q.lanes()[i]).len() == 0,
            q.all_lanes_ready(),
    {
        let mut subqueues: Vec<S> = Vec::new();
        let mut k: usize = 0;
        while k < queue_count
            invariant
                k <= queue_count,
                subqueues@.len() == k,
                forall|i: int| 0 <= i < k ==> (#[trigger] subqueues@[i]).inv(),
                forall|i: int| 0 <= i < k ==> (#[trigger] subqueues@[i]).contents().len() == 0,
                forall|i: int| 0 <= i < k ==> (#[trigger] subqueues@[i]).enqueue_ready(),
            decreases queue_count - k,
        {
            subqueues.push(S::new());
            k = k + 1;
        }
        DRaQueue { subqueues, d, _phantom_data: PhantomData }
    }

    /// Hands out a fresh per-thread handle holding the thread's sub-queue
    /// state and random number generator.
    pub fn register(&self) -> (h: DraQueueHandle<S, T>)
        requires
            self.wf(),
    {
        DraQueueHandle {
            lock: S::new_lock(),
            thread_rng: new_thread_rng(),
            _phantom_data: PhantomData,
        }
    }

    /// Appends `item` to the sampled lane with the smallest apparent length
    /// (ties: first observed).
    fn enqueue(&mut self, lock: &mut S::LockType, rng: &mut rand::rngs::ThreadRng, item: T)
        requires
            old(self).wf(),
            old(self).all_lanes_ready(),
        ensures
            final(self).wf(),
            final(self).subqueue_count() == old(self).subqueue_count(),
            final(self).d_spec() == old(self).d_spec(),
            exists|i: int|
                #[trigger] pushed_lane(old(self).lanes(), final(self).lanes(), item, i),
    {
        let n = self.subqueues.len();
        let ghost lanes0 = self.lanes();
        let mut best = gen_index(rng, n);
        let mut best_len = apparent_length(&self.subqueues[best]);
        let mut k: usize = 1;
        while k < self.d
            invariant
                self.wf(),
                self.lanes() == lanes0,
                n == self.subqueue_count(),
                best < n,
            decreases self.d as int - k,
        {
            let cand = gen_index(rng, n);
            let cand_len = apparent_length(&self.subqueues[cand]);
            if cand_len < best_len {
                best = cand;
                best_len = cand_len;
            }
            k = k + 1;
        }
        let q = &mut self.subqueues[best];
        q.enqueue(item, lock);
        proof {
            assert(self.lanes() =~= lanes0.update(best as int, lanes0[best as int].push(item)));
            assert(pushed_lane(lanes0, self.lanes(), item, best as int));
        }
    }

    /// Removes the oldest item of the sampled lane with the largest
    /// apparent length; if that lane is empty, reports absence without any
    /// global fallback.
    fn dequeue(&mut self, lock: &mut S::LockType, rng: &mut rand::rngs::ThreadRng) -> (r: Option<
        T,
    >)
        requires
            old(self).wf(),
        ensures
            final(self).wf(),
            final(self).subqueue_count() == old(self).subqueue_count(),
            final(self).d_spec() == old(self).d_spec(),
            match r {
                Some(v) => exists|i: int|
                    #[trigger] popped_lane(old(self).lanes(), final(self).lanes(), v, i),
                None => {
                    &&& exists|i: int|
                        0 <= i < old(self).subqueue_count() && (#[trigger] old(
                            self,
                        ).lanes()[i]).len() == 0
                    &&& final(self).lanes() == old(self).lanes()
                },
            },
    {
        let n = self.subqueues.len();
        let ghost lanes0 = self.lanes();
        let mut best = gen_index(rng, n);
        let mut best_len = apparent_length(&self.subqueues[best]);
        let mut k: usize = 1;
        while k < self.d
            invariant
                self.wf(),
                self.lanes() == lanes0,
                n == self.subqueue_count(),
                best < n,
                best_len == lanes0[best as int].len(),
            decreases self.d as int - k,
        {
            let cand = gen_index(rng, n);
            let cand_len = apparent_length(&self.subqueues[cand]);
            if cand_len >= best_len {
                best = cand;
                best_len = cand_len;
            }
            k = k + 1;
        }
        let q = &mut self.subqueues[best];
        let r = q.dequeue(lock);
        proof {
            if r is Some {
                assert(self.lanes() =~= lanes0.update(
                    best as int,
                    lanes0[best as int].drop_first(),
                ));
                assert(popped_lane(lanes0, self.lanes(), r->0, best as int));
            } else {
                assert(self.lanes() =~= lanes0);
            }
        }
        r
    }
}

impl<T, S: CountableConcurrentSubQueue<T>> ConcurrentQueue<T> for DRaQueue<S, T> {
    type QueueType = Relaxed;
}

/// The apparent length of a countable sub-queue: enqueues seen minus
/// dequeues seen, clamped at zero.
fn apparent_length<T, S: CountableConcurrentSubQueue<T>>(queue: &S) -> (len: usize)
    requires
        queue.inv(),
    ensures
        len == queue.contents().len(),
{
    let e = queue.enq_count();
    let d = queue.deq_count();
    if e >= d {
        e - d
    } else {
        0
    }
}

/// A per-thread handle: the thread's sub-queue state and random number
/// generator. A handle belongs to the queue that issued it.
pub struct DraQueueHandle<S: ConcurrentSubQueue<T>, T> {
    lock: S::LockType,
    thread_rng: rand::rngs::ThreadRng,
    _phantom_data: PhantomData<T>,
}

impl<T, S: CountableConcurrentSubQueue<T>> DraQueueHandle<S, T> {
    /// Appends `item` to one lane, chosen by `d`-choice on apparent length.
    pub fn enqueue(&mut self, queue: &mut DRaQueue<S, T>, item: T)
        requires
            old(queue).wf(),
            old(queue).all_lanes_ready(),
        ensures
            final(queue).wf(),
            final(queue).subqueue_count() == old(queue).subqueue_count(),
            final(queue).d_spec() == old(queue).d_spec(),
            exists|i: int|
                #[trigger] pushed_lane(old(queue).lanes(), final(queue).lanes(), item, i),
    {
        queue.enqueue(&mut self.lock, &mut self.thread_rng, item);
    }

    /// Removes the oldest item of one lane, chosen by `d`-choice on
    /// apparent length; absence witnesses one empty lane.
    pub fn dequeue(&mut self, queue: &mut DRaQueue<S, T>) -> (r: Option<T>)
        requires
            old(queue).wf(),
        ensures
            final(queue).wf(),
            final(queue).subqueue_count() == old(queue).subqueue_count(),
            final(queue).d_spec() == old(queue).d_spec(),
            match r {
                Some(v) => exists|i: int|
                    #[trigger] popped_lane(old(queue).lanes(), final(queue).lanes(), v, i),
                None => {
                    &&& exists|i: int|
                        0 <= i < old(queue).subqueue_count() && (#[trigger] old(
                            queue,
                        ).lanes()[i]).len() == 0
                    &&& final(queue).lanes() == old(queue).lanes()
                },
            },
    {
        queue.dequeue(&mut self.lock, &mut self.thread_rng)
    }
}

} // verus!
