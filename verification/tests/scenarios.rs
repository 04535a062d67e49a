//! End-to-end scenarios. The queues here are the verified sequential
//! models, so concurrent workloads appear as interleavings performed by one
//! caller.

use relaxed_queues::relaxed_queues::dcbo_queue::DCBOQueue;
use relaxed_queues::relaxed_queues::dra_queue::DRaQueue;
use relaxed_queues::strict_queues::countable_wrapper::CountableWrapper;
use relaxed_queues::strict_queues::ms::{MSQueue, QueueHandle};

type CountedMs = CountableWrapper<MSQueue<usize>, usize>;

/// Three producers, each owning the value range `100*c..100*(c+1)`, feed
/// one queue in an interleaved order; a reader drains all 300 items and
/// checks that every producer's lane arrives in order with no skips.
#[test]
fn producer_fan_in() {
    let queue = MSQueue::new();
    let mut qh = QueueHandle::new(queue);
    for i in 0..100 {
        for c in 0..3 {
            qh.enqueue(c * 100 + i);
        }
    }
    let mut next_expected = [0, 100, 200];
    for _ in 0..300 {
        let val: usize = qh.dequeue().expect("should have more elements");
        assert_eq!(next_expected[val / 100], val);
        next_expected[val / 100] = val + 1;
    }
    assert_eq!(qh.dequeue(), None);
}

/// Ten producers fill the queue with `0..1000`, circulators repeatedly
/// dequeue an item and enqueue it again, and a final drain must recover
/// exactly the multiset `0..1000`.
#[test]
fn heavy_contention_round_trip() {
    let queue = MSQueue::new();
    let mut qh = QueueHandle::new(queue);
    for i in 0..100 {
        for c in 0..10 {
            qh.enqueue(c * 100 + i);
        }
    }
    // ten circulators, each performing 10 rounds of dequeue-then-enqueue
    for _ in 0..10 {
        for _ in 0..10 {
            let val = qh.dequeue().expect("circulation found the queue empty");
            qh.enqueue(val);
        }
    }
    let mut collected: Vec<usize> = Vec::new();
    while let Some(v) = qh.dequeue() {
        collected.push(v);
    }
    assert_eq!(collected.len(), 1000);
    collected.sort_unstable();
    for i in 0..1000 {
        assert_eq!(collected[i], i);
    }
}

/// Eight producers enqueue 10k items each into a DRa composer over eight
/// counted sub-queues; a full drain recovers exactly the enqueued multiset.
#[test]
fn dra_distribution() {
    let queue: DRaQueue<CountedMs, usize> = DRaQueue::new(8, 2);
    let mut handle = queue.register();
    let mut queue = queue;
    for i in 0..10_000 {
        for c in 0..8 {
            handle.enqueue(&mut queue, c * 10_000 + i);
        }
    }
    // DRa has no global fallback: an unlucky sample can miss the remaining
    // items, so the drain only stops after many consecutive misses.
    let mut collected: Vec<usize> = Vec::new();
    let mut misses = 0;
    while misses < 1000 {
        match handle.dequeue(&mut queue) {
            Some(v) => {
                collected.push(v);
                misses = 0;
            }
            None => misses += 1,
        }
    }
    assert_eq!(collected.len(), 80_000);
    collected.sort_unstable();
    for c in 0..8 {
        for i in 0..10_000 {
            assert_eq!(collected[c * 10_000 + i], c * 10_000 + i);
        }
    }
}

/// DCBO empty correctness: enqueue 100 items into a DCBO composer over four
/// versioned sub-queues, drain exactly 100 items, and the next dequeue
/// reports absence — which, by the verified double-collect contract, means
/// every sub-queue was empty.
#[test]
fn dcbo_empty_correctness() {
    let queue: DCBOQueue<CountedMs, usize> = DCBOQueue::new(4, 2);
    let mut handle = queue.register();
    let mut queue = queue;
    for i in 0..100 {
        handle.enqueue(&mut queue, i);
    }
    let mut drained = 0;
    while let Some(_) = handle.dequeue(&mut queue) {
        drained += 1;
    }
    assert_eq!(drained, 100);
    assert_eq!(handle.dequeue(&mut queue), None);
}
