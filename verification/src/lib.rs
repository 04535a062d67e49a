//! Concurrent multi-producer, multi-consumer FIFO queues, together with a
//! family of relaxed queues built by federating several strict sub-queues.
//!
//! The library is organised in layers. The strict layer offers the
//! Michael-Scott queue, modelled here as an arena of linked nodes behind a
//! sentinel, with a per-element FIFO contract. The sub-queue abstraction
//! ([`strict_queues::ConcurrentSubQueue`]) describes any strict queue usable
//! as a building block, and [`strict_queues::countable_wrapper::CountableWrapper`]
//! adds operation counters to one. The relaxed layer composes `N` sub-queues
//! under power-of-`d`-choices load balancing ([`relaxed_queues::dra_queue`],
//! [`relaxed_queues::dcbo_queue`]) or a round-robin cursor
//! ([`relaxed_queues::round_robin_queue`]).

use vstd::prelude::*;

pub mod relaxed_queues;
mod rng;
pub mod strict_queues;

verus! {

/// Marker for the ordering discipline a queue offers.
pub trait QueueType {
}

/// Marker: global FIFO is not preserved across sub-queues.
pub struct Relaxed;

impl QueueType for Relaxed {
}

/// Marker: the queue is strictly FIFO.
pub struct Strict;

impl QueueType for Strict {
}

/// A queue usable from many threads through per-thread handles, classified
/// by the ordering discipline it offers. Handles are obtained from the
/// queue's own `register`, and each bundles all per-thread mutable state the
/// operations need.
pub trait ConcurrentQueue<T> {
    type QueueType: QueueType;
}

} // verus!
