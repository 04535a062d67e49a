//! Behaviour of the sub-queue counters and of each relaxed composer.

use relaxed_queues::relaxed_queues::dcbo_queue::DCBOQueue;
use relaxed_queues::relaxed_queues::dra_queue::DRaQueue;
use relaxed_queues::relaxed_queues::round_robin_queue::RoundRobinQueue;
use relaxed_queues::strict_queues::countable_wrapper::CountableWrapper;
use relaxed_queues::strict_queues::ms::MSQueue;
use relaxed_queues::strict_queues::{
    ConcurrentSubQueue, CountableConcurrentSubQueue, CountableVersionedConcurrentSubQueue,
};

type CountedMs = CountableWrapper<MSQueue<u32>, u32>;

/// Conservation: counters record exactly the operations, so their
/// difference is the number of items held, and a drain recovers it.
#[test]
fn conservation_counts() {
    let mut q: CountedMs = ConcurrentSubQueue::new();
    let mut lock = CountedMs::new_lock();
    assert_eq!(q.enq_count(), 0);
    assert_eq!(q.deq_count(), 0);
    for i in 0..5 {
        q.enqueue(i, &mut lock);
    }
    assert_eq!(q.enq_count(), 5);
    assert_eq!(q.deq_count(), 0);
    assert_eq!(q.dequeue(&mut lock), Some(0));
    assert_eq!(q.dequeue(&mut lock), Some(1));
    assert_eq!(q.enq_count(), 5);
    assert_eq!(q.deq_count(), 2);
    let mut drained = 0;
    while let Some(_) = q.dequeue(&mut lock) {
        drained += 1;
    }
    assert_eq!(drained, 3);
    assert_eq!(q.enq_count(), 5);
    assert_eq!(q.deq_count(), 5);
    // a dequeue on empty is absence, not an error, and counts nothing
    assert_eq!(q.dequeue(&mut lock), None);
    assert_eq!(q.deq_count(), 5);
}

/// The version counter ticks exactly once per successful enqueue and is
/// untouched by dequeues.
#[test]
fn version_ticks_on_enqueue() {
    let mut q: CountedMs = ConcurrentSubQueue::new();
    let mut lock = CountedMs::new_lock();
    assert_eq!(q.enq_version(), 0);
    q.enqueue(7, &mut lock);
    assert_eq!(q.enq_version(), 1);
    q.enqueue(8, &mut lock);
    assert_eq!(q.enq_version(), 2);
    assert_eq!(q.dequeue(&mut lock), Some(7));
    assert_eq!(q.enq_version(), 2);
}

/// No duplication: every dequeued value was enqueued and had not been
/// returned before.
#[test]
fn no_duplication() {
    let queue = MSQueue::new();
    let mut qh = queue.register();
    for i in 0..50u32 {
        qh.enqueue(i);
    }
    let mut seen = [false; 50];
    while let Some(v) = qh.dequeue() {
        let idx = v as usize;
        assert!(idx < 50, "dequeued a value that was never enqueued");
        assert!(!seen[idx], "dequeued the same value twice");
        seen[idx] = true;
    }
    assert!(seen.iter().all(|s| *s));
}

/// One thread's round-robin handle spreads enqueues over the lanes
/// deterministically, and its dequeues walk the lanes in the same order, so
/// a lone thread sees its own FIFO order back.
#[test]
fn round_robin_cycle() {
    let queue: RoundRobinQueue<MSQueue<u32>, u32> = RoundRobinQueue::new(3);
    let mut handle = queue.register();
    let mut queue = queue;
    for i in 0..6 {
        handle.enqueue(&mut queue, i);
    }
    for i in 0..6 {
        assert_eq!(handle.dequeue(&mut queue), Some(i));
    }
    assert_eq!(handle.dequeue(&mut queue), None);
}

/// The round-robin fallback scan finds items wherever they sit: fill only
/// one lane of many, then dequeue with a cursor pointing elsewhere.
#[test]
fn round_robin_fallback_scan() {
    let queue: RoundRobinQueue<MSQueue<u32>, u32> = RoundRobinQueue::new(4);
    let mut producer = queue.register();
    let mut consumer = queue.register();
    let mut queue = queue;
    producer.enqueue(&mut queue, 41);
    producer.enqueue(&mut queue, 42);
    assert_eq!(consumer.dequeue(&mut queue), Some(41));
    assert_eq!(consumer.dequeue(&mut queue), Some(42));
    assert_eq!(consumer.dequeue(&mut queue), None);
}

/// A single-lane round robin is strict FIFO; every operation lands on the
/// one lane.
#[test]
fn round_robin_single_lane() {
    let queue: RoundRobinQueue<MSQueue<u32>, u32> = RoundRobinQueue::new(1);
    let mut handle = queue.register();
    let mut queue = queue;
    for i in 0..5 {
        handle.enqueue(&mut queue, i);
    }
    for i in 0..5 {
        assert_eq!(handle.dequeue(&mut queue), Some(i));
    }
    assert_eq!(handle.dequeue(&mut queue), None);
}

/// The largest admissible choice parameter, `d == N`: sampling as many
/// candidates as there are lanes still conserves every item.
#[test]
fn dra_full_choice() {
    let queue: DRaQueue<CountedMs, u32> = DRaQueue::new(3, 3);
    let mut handle = queue.register();
    let mut queue = queue;
    for i in 0..30 {
        handle.enqueue(&mut queue, i);
    }
    let mut seen = [false; 30];
    let mut misses = 0;
    while misses < 1000 {
        match handle.dequeue(&mut queue) {
            Some(v) => {
                let idx = v as usize;
                assert!(idx < 30);
                assert!(!seen[idx]);
                seen[idx] = true;
                misses = 0;
            }
            None => misses += 1,
        }
    }
    assert!(seen.iter().all(|s| *s));
}

/// A DRa composer over a single lane degenerates to strict FIFO.
#[test]
fn dra_single_lane_fifo() {
    let queue: DRaQueue<CountedMs, u32> = DRaQueue::new(1, 1);
    let mut handle = queue.register();
    let mut queue = queue;
    for i in 0..10 {
        handle.enqueue(&mut queue, i);
    }
    for i in 0..10 {
        assert_eq!(handle.dequeue(&mut queue), Some(i));
    }
    assert_eq!(handle.dequeue(&mut queue), None);
}

/// A DCBO composer over a single lane degenerates to strict FIFO, and its
/// absence answer comes from the double-collect walk.
#[test]
fn dcbo_single_lane_fifo() {
    let queue: DCBOQueue<CountedMs, u32> = DCBOQueue::new(1, 1);
    let mut handle = queue.register();
    let mut queue = queue;
    for i in 0..10 {
        handle.enqueue(&mut queue, i);
    }
    for i in 0..10 {
        assert_eq!(handle.dequeue(&mut queue), Some(i));
    }
    assert_eq!(handle.dequeue(&mut queue), None);
}

/// Conservation across a DRa composer: interleaved enqueues and dequeues
/// never let successful dequeues outnumber enqueues, and a final drain
/// recovers exactly the difference.
#[test]
fn dra_conservation() {
    let queue: DRaQueue<CountedMs, u32> = DRaQueue::new(4, 2);
    let mut handle = queue.register();
    let mut queue = queue;
    let mut enqueued = 0u32;
    let mut dequeued = 0u32;
    for round in 0..200u32 {
        handle.enqueue(&mut queue, round);
        enqueued += 1;
        if round % 3 == 0 {
            if handle.dequeue(&mut queue).is_some() {
                dequeued += 1;
            }
        }
    }
    assert!(dequeued <= enqueued);
    // DRa has no global fallback: an unlucky sample can miss the remaining
    // items, so the drain only stops after many consecutive misses.
    let mut drained = 0u32;
    let mut misses = 0;
    while misses < 1000 {
        match handle.dequeue(&mut queue) {
            Some(_) => {
                drained += 1;
                misses = 0;
            }
            None => misses += 1,
        }
    }
    assert_eq!(drained, enqueued - dequeued);
}
