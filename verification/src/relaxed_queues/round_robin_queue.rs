//! The round-robin composer.
//!
//! `N` sub-queues and, in each per-thread handle, an integer cursor. Every
//! operation first advances the cursor by one (wrapping at `N`) and works on
//! the sub-queue under it; a dequeue that finds that lane empty falls back
//! to scanning every lane in index order from the cursor. The cursor lives
//! in the handle, not in the queue, so fairness is per-thread by design and
//! enqueues by one thread round-robin deterministically.

use core::marker::PhantomData;

use vstd::prelude::*;

use crate::relaxed_queues::{first_from, next_cursor, popped_lane, pushed_lane};
use crate::strict_queues::ConcurrentSubQueue;
use crate::{ConcurrentQueue, Relaxed};

verus! {

/// `N` sub-queues; all routing state lives in the handles.
pub struct RoundRobinQueue<SubQueue, T> {
    subqueues: Vec<SubQueue>,
    _phantom_data: PhantomData<T>,
}

impl<T, S: ConcurrentSubQueue<T>> RoundRobinQueue<S, T> {
    /// Validity: at least one sub-queue, and every sub-queue valid.
    pub closed spec fn wf(self) -> bool {
        &&& self.subqueues@.len() >= 1
        &&& forall|i: int|
            0 <= i < self.subqueues@.len() ==> (#[trigger] self.subqueues@[i]).inv()
    }

    /// The number of sub-queues, fixed at construction.
    pub closed spec fn subqueue_count(self) -> nat {
        self.subqueues@.len()
    }

    /// The contents of each sub-queue, by index.
    pub closed spec fn lanes(self) -> Seq<Seq<T>> {
        self.subqueues@.map_values(|q: S| q.contents())
    }

    /// Whether sub-queue `i` can record one more enqueue.
    pub closed spec fn lane_ready(self, i: int) -> bool {
        self.subqueues@[i].enqueue_ready()
    }

    pub fn new(queue_count: usize) -> (q: Self)
        requires
            queue_count >= 1,
        ensures
            q.wf(),
            q.subqueue_count() == queue_count,
            forall|i: int| 0 <= i < queue_count ==> (#[trigger] q.lanes()[i]).len() == 0,
            forall|i: int| 0 <= i < queue_count ==> q.lane_ready(i),
    {
        let mut subqueues: Vec<S> = Vec::new();
        let mut k: usize = 0;
        while k < queue_count
            invariant
                k <= queue_count,
                subqueues@.len() == k,
                forall|i: int| 0 <= i < k ==> (#[trigger] subqueues@[i]).inv(),
                forall|i: int| 0 <= i < k ==> (#[trigger] subqueues@[i]).contents().len() == 0,
                forall|i: int| 0 <= i < k ==> (#[trigger] subqueues@[i]).enqueue_ready(),
            decreases queue_count - k,
        {
            subqueues.push(S::new());
            k = k + 1;
        }
        RoundRobinQueue { subqueues, _phantom_data: PhantomData }
    }

    /// Hands out a fresh per-thread handle with its cursor at the start.
    pub fn register(&self) -> (h: RoundRobinQueueHandle<S, T>)
        requires
            self.wf(),
        ensures
            0 <= h.cursor_spec() < self.subqueue_count(),
    {
        let lock = S::new_lock();
        RoundRobinQueueHandle { cursor: 0, lock, _phantom_data: PhantomData }
    }
}

impl<T, S: ConcurrentSubQueue<T>> ConcurrentQueue<T> for RoundRobinQueue<S, T> {
    type QueueType = Relaxed;
}

/// A per-thread handle: the thread's cursor and its per-thread sub-queue
/// state. A handle belongs to the queue that issued it.
pub struct RoundRobinQueueHandle<S: ConcurrentSubQueue<T>, T> {
    cursor: usize,
    lock: S::LockType,
    _phantom_data: PhantomData<T>,
}

impl<S: ConcurrentSubQueue<T>, T> RoundRobinQueueHandle<S, T> {
    /// The cursor position.
    pub closed spec fn cursor_spec(self) -> int {
        self.cursor as int
    }

    /// Advances the cursor by one, wrapping at the number of sub-queues.
    pub fn inc_cursor(&mut self, queue: &RoundRobinQueue<S, T>)
        requires
            0 <= old(self).cursor_spec() < queue.subqueue_count(),
        ensures
            final(self).cursor_spec() == next_cursor(
                old(self).cursor_spec(),
                queue.subqueue_count() as int,
            ),
    {
        proof {
            assert(queue.subqueues@.len() == queue.subqueues.len());
        }
        self.cursor = self.cursor + 1;
        if self.cursor >= queue.subqueues.len() {
            self.cursor = 0;
        }
    }

    /// Advances the cursor and appends `item` to the sub-queue under it.
    pub fn enqueue(&mut self, queue: &mut RoundRobinQueue<S, T>, item: T)
        requires
            old(queue).wf(),
            0 <= old(self).cursor_spec() < old(queue).subqueue_count(),
            old(queue).lane_ready(
                next_cursor(old(self).cursor_spec(), old(queue).subqueue_count() as int),
            ),
        ensures
            final(queue).wf(),
            final(queue).subqueue_count() == old(queue).subqueue_count(),
            final(self).cursor_spec() == next_cursor(
                old(self).cursor_spec(),
                old(queue).subqueue_count() as int,
            ),
            pushed_lane(
                old(queue).lanes(),
                final(queue).lanes(),
                item,
                final(self).cursor_spec(),
            ),
    {
        self.inc_cursor(queue);
        let c = self.cursor;
        let ghost lanes0 = queue.lanes();
        let q = &mut queue.subqueues[c];
        q.enqueue(item, &mut self.lock);
        proof {
            assert(queue.lanes() =~= lanes0.update(c as int, lanes0[c as int].push(item)));
        }
    }

    /// Advances the cursor and removes the oldest item of the first
    /// non-empty sub-queue in wrap order from it; absence means every
    /// sub-queue was empty.
    pub fn dequeue(&mut self, queue: &mut RoundRobinQueue<S, T>) -> (r: Option<T>)
        requires
            old(queue).wf(),
            0 <= old(self).cursor_spec() < old(queue).subqueue_count(),
        ensures
            final(queue).wf(),
            final(queue).subqueue_count() == old(queue).subqueue_count(),
            final(self).cursor_spec() == next_cursor(
                old(self).cursor_spec(),
                old(queue).subqueue_count() as int,
            ),
            match r {
                Some(v) => exists|i: int|
                    #[trigger] popped_lane(old(queue).lanes(), final(queue).lanes(), v, i)
                        && first_from(
                        old(queue).lanes(),
                        next_cursor(old(self).cursor_spec(), old(queue).subqueue_count() as int),
                        i,
                    ),
                None => {
                    &&& forall|i: int|
                        0 <= i < old(queue).subqueue_count() ==> (#[trigger] old(
                            queue,
                        ).lanes()[i]).len() == 0
                    &&& final(queue).lanes() == old(queue).lanes()
                },
            },
    {
        self.inc_cursor(queue);
        let c = self.cursor;
        let n = queue.subqueues.len();
        let ghost lanes0 = queue.lanes();
        let q0 = &mut queue.subqueues[c];
        if let Some(item) = q0.dequeue(&mut self.lock) {
            proof {
                assert(queue.lanes() =~= old(queue).lanes().update(
                    c as int,
                    old(queue).lanes()[c as int].drop_first(),
                ));
                assert(popped_lane(old(queue).lanes(), queue.lanes(), item, c as int));
                assert(first_from(old(queue).lanes(), c as int, c as int));
            }
            return Some(item);
        }
        // fallback to checking all queues, in index order from the cursor
        let mut idx: usize = c;
        while idx < n
            invariant
                queue.wf(),
                queue.subqueue_count() == n,
                queue.lanes() == lanes0,
                lanes0 == old(queue).lanes(),
                n as nat == old(queue).subqueue_count(),
                lanes0.len() == n,
                self.cursor_spec() == c as int,
                c as int == next_cursor(old(self).cursor_spec(), n as int),
                c < n,
                c <= idx <= n,
                forall|j: int| c <= j < idx ==> (#[trigger] lanes0[j]).len() == 0,
            decreases n - idx,
        {
            let q = &mut queue.subqueues[idx];
            if let Some(item) = q.dequeue(&mut self.lock) {
                proof {
                    assert(queue.lanes() =~= old(queue).lanes().update(
                        idx as int,
                        old(queue).lanes()[idx as int].drop_first(),
                    ));
                    assert(popped_lane(old(queue).lanes(), queue.lanes(), item, idx as int));
                    assert(first_from(old(queue).lanes(), c as int, idx as int));
                }
                return Some(item);
            }
            idx = idx + 1;
        }
        idx = 0;
        while idx < c
            invariant
                queue.wf(),
                queue.subqueue_count() == n,
                queue.lanes() == lanes0,
                lanes0 == old(queue).lanes(),
                n as nat == old(queue).subqueue_count(),
                lanes0.len() == n,
                self.cursor_spec() == c as int,
                c as int == next_cursor(old(self).cursor_spec(), n as int),
                c < n,
                idx <= c,
                forall|j: int| c <= j < n ==> (#[trigger] lanes0[j]).len() == 0,
                forall|j: int| 0 <= j < idx ==> (#[trigger] lanes0[j]).len() == 0,
            decreases c - idx,
        {
            let q = &mut queue.subqueues[idx];
            if let Some(item) = q.dequeue(&mut self.lock) {
                proof {
                    assert(queue.lanes() =~= old(queue).lanes().update(
                        idx as int,
                        old(queue).lanes()[idx as int].drop_first(),
                    ));
                    assert(popped_lane(old(queue).lanes(), queue.lanes(), item, idx as int));
                    assert(first_from(old(queue).lanes(), c as int, idx as int));
                }
                return Some(item);
            }
            idx = idx + 1;
        }
        None
    }
}

} // verus!
