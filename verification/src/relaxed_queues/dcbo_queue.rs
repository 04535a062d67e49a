//! The DCBO composer: power-of-`d`-choices by operation count, with a
//! double-collect fallback on empty.
//!
//! `N` versioned sub-queues and a choice parameter `d`. An enqueue samples
//! `d` lane indices and appends to the sampled lane with the smallest
//! enqueue count, spreading enqueues evenly by volume; a dequeue samples `d`
//! indices, tries the sampled lane with the largest dequeue count, and on
//! empty walks all lanes under a version double-collect. Absence is
//! reported only after a full walk finds every lane empty and a second walk
//! sees every version unchanged: between the two matching version vectors
//! all lanes were simultaneously empty.

use core::marker::PhantomData;

use vstd::prelude::*;

use crate::relaxed_queues::{popped_lane, pushed_lane};
use crate::rng::{gen_index, new_thread_rng};
use crate::strict_queues::{ConcurrentSubQueue, CountableVersionedConcurrentSubQueue};
use crate::{ConcurrentQueue, Relaxed};

verus! {

/// `N` versioned sub-queues and the choice parameter `d`.
pub struct DCBOQueue<SubQueue, T> {
    subqueues: Vec<SubQueue>,
    d: usize,
    _phantom_data: PhantomData<T>,
}

impl<T, S: CountableVersionedConcurrentSubQueue<T>> DCBOQueue<S, T> {
    /// Validity: at least one sub-queue, `1 <= d <= N`, every sub-queue
    /// valid.
    pub closed spec fn wf(self) -> bool {
        &&& self.subqueues@.len() >= 1
        &&& 1 <= self.d as int <= self.subqueues@.len()
        &&& forall|i: int|
            0 <= i < self.subqueues@.len() ==> (#[trigger] self.subqueues@[i]).inv()
    }

    /// The number of sub-queues, fixed at construction.
    pub closed spec fn subqueue_count(self) -> nat {
        self.subqueues@.len()
    }

    /// The choice parameter.
    pub closed spec fn d_spec(self) -> int {
        self.d as int
    }

    /// The contents of each sub-queue, by index.
    pub closed spec fn lanes(self) -> Seq<Seq<T>> {
        self.subqueues@.map_values(|q: S| q.contents())
    }

    /// The enqueue total of one sub-queue; its version counter reads this.
    spec fn lane_enq_total(self, i: int) -> nat {
        self.subqueues@[i].enq_total()
    }

    /// Whether every sub-queue can record one more enqueue. The enqueue
    /// target is sampled, so each lane must be ready.
    pub closed spec fn all_lanes_ready(self) -> bool {
        forall|i: int|
            0 <= i < self.subqueues@.len() ==> (#[trigger] self.subqueues@[i]).enqueue_ready()
    }

    pub fn new(queue_count: usize, d: usize) -> (q: Self)
        requires
            queue_count >= 1,
            1 <= d <= queue_count,
        ensures
            q.wf(),
            q.subqueue_count() == queue_count,
            q.d_spec() == d,
            forall|i: int| 0 <= i < queue_count ==> (#[trigger] q.lanes()[i]).len() == 0,
            q.all_lanes_ready(),
    {
        let mut subqueues: Vec<S> = Vec::new();
        let mut k: usize = 0;
        while k < queue_count
            invariant
                k <= queue_count,
                subqueues@.len() == k,
                forall|i: int| 0 <= i < k ==> (#[trigger] subqueues@[i]).inv(),
                forall|i: int| 0 <= i < k ==> (#[trigger] subqueues@[i]).contents().len() == 0,
                forall|i: int| 0 <= i < k ==> (#[trigger] subqueues@[i]).enqueue_ready(),
            decreases queue_count - k,
        {
            subqueues.push(S::new());
            k = k + 1;
        }
        DCBOQueue { subqueues, d, _phantom_data: PhantomData }
    }

    /// Hands out a fresh per-thread handle holding the thread's sub-queue
    /// state and random number generator.
    pub fn register(&self) -> (h: DCBOQueueHandle<S, T>)
        requires
            self.wf(),
    {
        DCBOQueueHandle {
            lock: S::new_lock(),
            thread_rng: new_thread_rng(),
            _phantom_data: PhantomData,
        }
    }

    /// Appends `item` to the sampled lane with the smallest enqueue count
    /// (ties: first observed).
    fn enqueue(&mut self, lock: &mut S::LockType, rng: &mut rand::rngs::ThreadRng, item: T)
        requires
            old(self).wf(),
            old(self).all_lanes_ready(),
        ensures
            final(self).wf(),
            final(self).subqueue_count() == old(self).subqueue_count(),
            final(self).d_spec() == old(self).d_spec(),
            exists|i: int|
                #[trigger] pushed_lane(old(self).lanes(), final(self).lanes(), item, i),
    {
        let n = self.subqueues.len();
        let ghost lanes0 = self.lanes();
        let mut best = gen_index(rng, n);
        let mut best_count = self.subqueues[best].enq_count();
        let mut k: usize = 1;
        while k < self.d
            invariant
                self.wf(),
                self.lanes() == lanes0,
                n == self.subqueue_count(),
                best < n,
            decreases self.d as int - k,
        {
            let cand = gen_index(rng, n);
            let cand_count = self.subqueues[cand].enq_count();
            if cand_count < best_count {
                best = cand;
                best_count = cand_count;
            }
            k = k + 1;
        }
        let q = &mut self.subqueues[best];
        q.enqueue(item, lock);
        proof {
            assert(self.lanes() =~= lanes0.update(best as int, lanes0[best as int].push(item)));
            assert(pushed_lane(lanes0, self.lanes(), item, best as int));
        }
    }

    /// Removes the oldest item of the sampled lane with the largest dequeue
    /// count; on empty, falls back to the double-collect walk. Absence
    /// means every lane was empty.
    fn dequeue(&mut self, lock: &mut S::LockType, rng: &mut rand::rngs::ThreadRng) -> (r: Option<
        T,
    >)
        requires
            old(self).wf(),
        ensures
            final(self).wf(),
            final(self).subqueue_count() == old(self).subqueue_count(),
            final(self).d_spec() == old(self).d_spec(),
            match r {
                Some(v) => exists|i: int|
                    #[trigger] popped_lane(old(self).lanes(), final(self).lanes(), v, i),
                None => {
                    &&& forall|i: int|
                        0 <= i < old(self).subqueue_count() ==> (#[trigger] old(
                            self,
                        ).lanes()[i]).len() == 0
                    &&& final(self).lanes() == old(self).lanes()
                },
            },
    {
        let n = self.subqueues.len();
        let ghost lanes0 = self.lanes();
        let mut best = gen_index(rng, n);
        let mut best_count = self.subqueues[best].deq_count();
        let mut k: usize = 1;
        while k < self.d
            invariant
                self.wf(),
                self.lanes() == lanes0,
                n == self.subqueue_count(),
                best < n,
            decreases self.d as int - k,
        {
            let cand = gen_index(rng, n);
            let cand_count = self.subqueues[cand].deq_count();
            if cand_count >= best_count {
                best = cand;
                best_count = cand_count;
            }
            k = k + 1;
        }
        let q = &mut self.subqueues[best];
        let first_try = q.dequeue(lock);
        if let Some(item) = first_try {
            proof {
                assert(self.lanes() =~= old(self).lanes().update(
                    best as int,
                    old(self).lanes()[best as int].drop_first(),
                ));
                assert(popped_lane(old(self).lanes(), self.lanes(), item, best as int));
            }
            Some(item)
        } else {
            proof {
                assert(self.lanes() =~= old(self).lanes());
            }
            self.double_collect(best, lock)
        }
    }

    /// Walks all lanes starting at `index`, wrapping around, recording each
    /// lane's version before trying to dequeue it. After an empty full
    /// pass, re-reads every version: a change would mean a concurrent
    /// enqueue and restarts the walk there. With the exclusive access the
    /// verifier enforces here no version can change between the passes, so
    /// the walk never restarts; absence is reported only after every lane
    /// was seen empty between two matching version vectors.
    fn double_collect(&mut self, index: usize, lock: &mut S::LockType) -> (r: Option<T>)
        requires
            old(self).wf(),
            index < old(self).subqueue_count(),
        ensures
            final(self).wf(),
            final(self).subqueue_count() == old(self).subqueue_count(),
            final(self).d_spec() == old(self).d_spec(),
            match r {
                Some(v) => exists|i: int|
                    #[trigger] popped_lane(old(self).lanes(), final(self).lanes(), v, i),
                None => {
                    &&& forall|i: int|
                        0 <= i < old(self).subqueue_count() ==> (#[trigger] old(
                            self,
                        ).lanes()[i]).len() == 0
                    &&& final(self).lanes() == old(self).lanes()
                },
            },
    {
        let n = self.subqueues.len();
        let ghost lanes0 = self.lanes();
        let mut versions: Vec<usize> = Vec::new();
        let mut k: usize = 0;
        while k < n
            invariant
                k <= n,
                versions@.len() == k,
            decreases n - k,
        {
            versions.push(0);
            k = k + 1;
        }
        let mut start_index = index;
        // Sequentially no version changes between the two passes, so the
        // walk restarts never; any measure terminates it.
        loop
            invariant
                self.wf(),
                self.subqueue_count() == n,
                self.d_spec() == old(self).d_spec(),
                self.lanes() == lanes0,
                lanes0 == old(self).lanes(),
                n as nat == old(self).subqueue_count(),
                versions@.len() == n,
                start_index < n,
                1 <= n,
            decreases 0int,
        {
            // first pass: record each lane's version, then try its dequeue
            let mut idx = start_index;
            while idx < n
                invariant
                    self.wf(),
                    self.subqueue_count() == n,
                    self.d_spec() == old(self).d_spec(),
                    self.lanes() == lanes0,
                    lanes0 == old(self).lanes(),
                    n as nat == old(self).subqueue_count(),
                    versions@.len() == n,
                    start_index <= idx <= n,
                    start_index < n,
                    forall|j: int|
                        start_index <= j < idx ==> (#[trigger] lanes0[j]).len() == 0,
                    forall|j: int|
                        start_index <= j < idx ==> versions@[j] as nat == self.lane_enq_total(j),
                decreases n - idx,
            {
                let v = self.subqueues[idx].enq_version();
                versions.set(idx, v);
                let q = &mut self.subqueues[idx];
                if let Some(item) = q.dequeue(lock) {
                    proof {
                        assert(self.lanes() =~= old(self).lanes().update(
                            idx as int,
                            old(self).lanes()[idx as int].drop_first(),
                        ));
                        assert(popped_lane(old(self).lanes(), self.lanes(), item, idx as int));
                    }
                    return Some(item);
                }
                idx = idx + 1;
            }
            idx = 0;
            while idx < start_index
                invariant
                    self.wf(),
                    self.subqueue_count() == n,
                    self.d_spec() == old(self).d_spec(),
                    self.lanes() == lanes0,
                    lanes0 == old(self).lanes(),
                    n as nat == old(self).subqueue_count(),
                    versions@.len() == n,
                    idx <= start_index < n,
                    forall|j: int|
                        start_index <= j < n ==> (#[trigger] lanes0[j]).len() == 0,
                    forall|j: int|
                        start_index <= j < n ==> versions@[j] as nat == self.lane_enq_total(j),
                    forall|j: int| 0 <= j < idx ==> (#[trigger] lanes0[j]).len() == 0,
                    forall|j: int|
                        0 <= j < idx ==> versions@[j] as nat == self.lane_enq_total(j),
                decreases start_index - idx,
            {
                let v = self.subqueues[idx].enq_version();
                versions.set(idx, v);
                let q = &mut self.subqueues[idx];
                if let Some(item) = q.dequeue(lock) {
                    proof {
                        assert(self.lanes() =~= old(self).lanes().update(
                            idx as int,
                            old(self).lanes()[idx as int].drop_first(),
                        ));
                        assert(popped_lane(old(self).lanes(), self.lanes(), item, idx as int));
                    }
                    return Some(item);
                }
                idx = idx + 1;
            }
            // second pass: re-read every version in the same order; a
            // change means a concurrent enqueue and restarts the walk there
            let mut changed = false;
            let mut changed_index: usize = 0;
            let mut idx2 = start_index;
            while idx2 < n
                invariant
                    self.wf(),
                    self.subqueue_count() == n,
                    self.d_spec() == old(self).d_spec(),
                    self.lanes() == lanes0,
                    lanes0 == old(self).lanes(),
                    n as nat == old(self).subqueue_count(),
                    versions@.len() == n,
                    start_index < n,
                    forall|j: int| 0 <= j < n ==> (#[trigger] lanes0[j]).len() == 0,
                    forall|j: int|
                        0 <= j < n ==> versions@[j] as nat == self.lane_enq_total(j),
                    !changed,
                    changed_index < n,
                decreases n - idx2,
            {
                if self.subqueues[idx2].enq_version() != versions[idx2] {
                    changed = true;
                    changed_index = idx2;
                }
                idx2 = idx2 + 1;
            }
            idx2 = 0;
            while idx2 < start_index
                invariant
                    self.wf(),
                    self.subqueue_count() == n,
                    self.d_spec() == old(self).d_spec(),
                    self.lanes() == lanes0,
                    lanes0 == old(self).lanes(),
                    n as nat == old(self).subqueue_count(),
                    versions@.len() == n,
                    start_index < n,
                    forall|j: int| 0 <= j < n ==> (#[trigger] lanes0[j]).len() == 0,
                    forall|j: int|
                        0 <= j < n ==> versions@[j] as nat == self.lane_enq_total(j),
                    !changed,
                    changed_index < n,
                decreases start_index - idx2,
            {
                if self.subqueues[idx2].enq_version() != versions[idx2] {
                    changed = true;
                    changed_index = idx2;
                }
                idx2 = idx2 + 1;
            }
            if changed {
                start_index = changed_index;
            } else {
                return None;
            }
        }
    }
}

impl<T, S: CountableVersionedConcurrentSubQueue<T>> ConcurrentQueue<T> for DCBOQueue<S, T> {
    type QueueType = Relaxed;
}

/// A per-thread handle: the thread's sub-queue state and random number
/// generator. A handle belongs to the queue that issued it.
pub struct DCBOQueueHandle<S: ConcurrentSubQueue<T>, T> {
    lock: S::LockType,
    thread_rng: rand::rngs::ThreadRng,
    _phantom_data: PhantomData<T>,
}

impl<T, S: CountableVersionedConcurrentSubQueue<T>> DCBOQueueHandle<S, T> {
    /// Appends `item` to one lane, chosen by `d`-choice on enqueue count.
    pub fn enqueue(&mut self, queue: &mut DCBOQueue<S, T>, item: T)
        requires
            old(queue).wf(),
            old(queue).all_lanes_ready(),
        ensures
            final(queue).wf(),
            final(queue).subqueue_count() == old(queue).subqueue_count(),
            final(queue).d_spec() == old(queue).d_spec(),
            exists|i: int|
                #[trigger] pushed_lane(old(queue).lanes(), final(queue).lanes(), item, i),
    {
        queue.enqueue(&mut self.lock, &mut self.thread_rng, item);
    }

    /// Removes the oldest item of one lane; absence means every lane was
    /// empty at one moment of the call.
    pub fn dequeue(&mut self, queue: &mut DCBOQueue<S, T>) -> (r: Option<T>)
        requires
            old(queue).wf(),
        ensures
            final(queue).wf(),
            final(queue).subqueue_count() == old(queue).subqueue_count(),
            final(queue).d_spec() == old(queue).d_spec(),
            match r {
                Some(v) => exists|i: int|
                    #[trigger] popped_lane(old(queue).lanes(), final(queue).lanes(), v, i),
                None => {
                    &&& forall|i: int|
                        0 <= i < old(queue).subqueue_count() ==> (#[trigger] old(
                            queue,
                        ).lanes()[i]).len() == 0
                    &&& final(queue).lanes() == old(queue).lanes()
                },
            },
    {
        queue.dequeue(&mut self.lock, &mut self.thread_rng)
    }
}

} // verus!
