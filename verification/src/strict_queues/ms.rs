//! The Michael-Scott FIFO queue.
//!
//! The queue is a singly linked list of nodes behind a sentinel. Here the
//! nodes live in an arena (a vector) in allocation order, and a link is the
//! index of the successor node. `head` is the index of the current sentinel:
//! nodes before it have been dequeued and retired, and their payloads were
//! already moved out, so a retired node never holds a payload to destroy.
//! `tail` is a lag-tolerant hint: it may trail the true last node, and
//! `enqueue` swings it forward before linking, as the helping step of the
//! concurrent protocol does.

use vstd::prelude::*;

use crate::strict_queues::ConcurrentSubQueue;
use crate::{ConcurrentQueue, Strict};

verus! {

/// A singly linked list cell. `next` is the arena index of the successor,
/// `None` on the last node. `data` is the payload; it is `None` on the
/// sentinel and on every retired node, whose payload was moved out by the
/// dequeue that retired it.
struct MsNode<T> {
    next: Option<usize>,
    data: Option<T>,
}

/// A strict FIFO queue: two cursors into an arena of linked nodes.
///
/// The list is never empty: `head` always points at a sentinel node whose
/// payload is invalid. Exactly the nodes strictly after the sentinel hold
/// valid payloads, and they are the queue's contents, oldest first.
pub struct MSQueue<T> {
    nodes: Vec<MsNode<T>>,
    head: usize,
    tail: usize,
}

impl<T> MSQueue<T> {
    /// Well-formedness: cursors in bounds, each node linked to its successor
    /// in allocation order, no payload on or before the sentinel, a payload
    /// on every node after it. Constructors establish it and every operation
    /// preserves it.
    pub closed spec fn wf(self) -> bool {
        &&& 1 <= self.nodes@.len()
        &&& self.head < self.nodes@.len()
        &&& self.tail < self.nodes@.len()
        &&& forall|i: int|
            0 <= i < self.nodes@.len() ==> (#[trigger] self.nodes@[i]).next == (if i + 1
                < self.nodes@.len() {
                Some((i + 1) as usize)
            } else {
                None::<usize>
            })
        &&& forall|i: int| 0 <= i <= self.head ==> (#[trigger] self.nodes@[i]).data is None
        &&& forall|i: int|
            self.head < i < self.nodes@.len() ==> (#[trigger] self.nodes@[i]).data is Some
    }

    /// How many items were ever enqueued: every node but the initial
    /// sentinel was allocated by an enqueue.
    pub closed spec fn enq_total_spec(self) -> nat {
        (self.nodes@.len() - 1) as nat
    }

    /// How many items were ever dequeued: every retirement advanced `head`.
    pub closed spec fn deq_total_spec(self) -> nat {
        self.head as nat
    }

    /// Empty queue: a lone sentinel with no payload.
    pub fn new() -> (q: Self)
        ensures
            q.wf(),
            q@ == Seq::<T>::empty(),
            q.enq_total_spec() == 0,
            q.deq_total_spec() == 0,
    {
        let q = MSQueue { nodes: vec![MsNode { next: None, data: None }], head: 0, tail: 0 };
        proof {
            assert(q@ =~= Seq::<T>::empty());
        }
        q
    }

    /// Appends `data` at the end of the list: walk the lag-tolerant `tail`
    /// hint to the true last node, link a fresh node after it, then swing
    /// `tail` onto the new node.
    pub fn enqueue(&mut self, data: T)
        requires
            old(self).wf(),
        ensures
            final(self).wf(),
            final(self)@ == old(self)@.push(data),
            final(self).enq_total_spec() == old(self).enq_total_spec() + 1,
            final(self).deq_total_spec() == old(self).deq_total_spec(),
    {
        let mut t: usize = self.tail;
        while self.nodes[t].next.is_some()
            invariant
                self.wf(),
                t < self.nodes@.len(),
            decreases self.nodes@.len() - t,
        {
            proof {
                assert(self.nodes@.len() == self.nodes.len());
                assert((self.nodes@[t as int]).next == Some((t + 1) as usize));
            }
            t = self.nodes[t].next.unwrap();
        }
        assert(t == self.nodes@.len() - 1);
        let new_index = self.nodes.len();
        self.nodes.push(MsNode { next: None, data: Some(data) });
        let last = &mut self.nodes[t];
        last.next = Some(new_index);
        self.tail = new_index;
        proof {
            assert(self@ =~= old(self)@.push(data));
        }
    }

    /// Removes and returns the oldest item, or reports absence if the
    /// sentinel is the last node. On success the payload is moved out of the
    /// sentinel's successor, which becomes the new sentinel; the former
    /// sentinel is retired carrying no payload.
    pub fn dequeue(&mut self) -> (r: Option<T>)
        requires
            old(self).wf(),
        ensures
            final(self).wf(),
            final(self).enq_total_spec() == old(self).enq_total_spec(),
            match r {
                Some(v) => {
                    &&& old(self)@.len() > 0
                    &&& v == old(self)@[0]
                    &&& final(self)@ == old(self)@.drop_first()
                    &&& final(self).deq_total_spec() == old(self).deq_total_spec() + 1
                },
                None => {
                    &&& old(self)@.len() == 0
                    &&& final(self)@ == old(self)@
                    &&& final(self).deq_total_spec() == old(self).deq_total_spec()
                },
            },
    {
        let h = self.head;
        match self.nodes[h].next {
            None => {
                // The sentinel has no successor: the queue is empty.
                None
            },
            Some(next) => {
                // Move the payload out of the successor, which becomes the
                // new sentinel; retire the former sentinel.
                let node = &mut self.nodes[next];
                let taken = node.data.take();
                self.head = next;
                proof {
                    assert(old(self).nodes@.len() == old(self).nodes.len());
                    assert((old(self).nodes@[h as int]).next == Some((h + 1) as usize));
                    assert(next == h + 1);
                    assert forall|k: int| 0 <= k < self@.len() implies self@[k] == old(
                        self,
                    )@.drop_first()[k] by {
                        assert(self.nodes@[next + 1 + k] == old(self).nodes@[next + 1 + k]);
                    }
                    assert(self@ =~= old(self)@.drop_first());
                }
                Some(taken.unwrap())
            },
        }
    }

    /// Conservation: every item that was enqueued and not dequeued is still
    /// held — the arena holds one node per enqueue ever made, and the
    /// sentinel cursor has passed one node per dequeue.
    pub proof fn lemma_conservation(self)
        requires
            self.wf(),
        ensures
            self.enq_total_spec() == self.deq_total_spec() + self@.len(),
    {
    }

    /// Hands the queue to a per-thread handle that performs enqueues and
    /// dequeues on it.
    pub fn register(self) -> (h: QueueHandle<T>)
        requires
            self.wf(),
        ensures
            h.wf(),
            h@ == self@,
    {
        QueueHandle::new(self)
    }
}

impl<T> View for MSQueue<T> {
    type V = Seq<T>;

    /// The payloads strictly after the sentinel, oldest first.
    closed spec fn view(&self) -> Seq<T> {
        Seq::new(
            (self.nodes@.len() - self.head - 1) as nat,
            |k: int| self.nodes@[self.head + 1 + k].data->0,
        )
    }
}

impl<T> ConcurrentSubQueue<T> for MSQueue<T> {
    /// The arena model reclaims nodes with ordinary ownership, so a caller
    /// thread needs no hazard-pointer slots.
    type LockType = ();

    closed spec fn inv(&self) -> bool {
        self.wf()
    }

    closed spec fn contents(&self) -> Seq<T> {
        self@
    }

    closed spec fn enq_total(&self) -> nat {
        self.enq_total_spec()
    }

    closed spec fn deq_total(&self) -> nat {
        self.deq_total_spec()
    }

    /// The arena is unbounded; an enqueue is always possible.
    closed spec fn enqueue_ready(&self) -> bool {
        true
    }

    fn new() -> (q: Self) {
        MSQueue::new()
    }

    fn new_lock() -> (l: ()) {
    }

    fn enqueue(&mut self, item: T, _lock_type: &mut ()) {
        self.enqueue(item);
    }

    fn dequeue(&mut self, _lock_type: &mut ()) -> (r: Option<T>) {
        self.dequeue()
    }
}

impl<T> ConcurrentQueue<T> for MSQueue<T> {
    type QueueType = Strict;
}

/// A per-thread token for operating on an [`MSQueue`]. The verified queue is
/// owned by exactly one handle at a time, so the handle holds it by value.
pub struct QueueHandle<T> {
    queue: MSQueue<T>,
}

impl<T> View for QueueHandle<T> {
    type V = Seq<T>;

    closed spec fn view(&self) -> Seq<T> {
        self.queue@
    }
}

impl<T> QueueHandle<T> {
    /// Validity of the owned queue.
    pub closed spec fn wf(self) -> bool {
        self.queue.wf()
    }

    pub fn new(queue: MSQueue<T>) -> (h: Self)
        requires
            queue.wf(),
        ensures
            h.wf(),
            h@ == queue@,
    {
        QueueHandle { queue }
    }

    pub fn enqueue(&mut self, data: T)
        requires
            old(self).wf(),
        ensures
            final(self).wf(),
            final(self)@ == old(self)@.push(data),
    {
        self.queue.enqueue(data);
    }

    pub fn dequeue(&mut self) -> (r: Option<T>)
        requires
            old(self).wf(),
        ensures
            final(self).wf(),
            match r {
                Some(v) => {
                    &&& old(self)@.len() > 0
                    &&& v == old(self)@[0]
                    &&& final(self)@ == old(self)@.drop_first()
                },
                None => {
                    &&& old(self)@.len() == 0
                    &&& final(self)@ == old(self)@
                },
            },
    {
        self.queue.dequeue()
    }
}

} // verus!
