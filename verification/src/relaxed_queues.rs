//! Relaxed-order queue composers.
//!
//! A composer owns a fixed array of `N` strict sub-queues ("lanes") and
//! routes every operation to exactly one of them. Per-lane FIFO order is
//! preserved; global FIFO across lanes is deliberately given up. The shared
//! predicates here say precisely how one operation changes the lanes: an
//! enqueue appends to one lane, a dequeue removes the head of one lane, and
//! every other lane is untouched — the dequeued sequence of a composer is
//! therefore a merge of `N` FIFO subsequences.

use vstd::prelude::*;

pub mod dcbo_queue;
pub mod dra_queue;
pub mod round_robin_queue;

verus! {

/// One enqueue on lane `i`: it gains `v` at its end, all other lanes keep
/// their contents.
pub open spec fn pushed_lane<T>(
    old_lanes: Seq<Seq<T>>,
    new_lanes: Seq<Seq<T>>,
    v: T,
    i: int,
) -> bool {
    &&& 0 <= i < old_lanes.len()
    &&& new_lanes == old_lanes.update(i, old_lanes[i].push(v))
}

/// One successful dequeue on lane `i`: it was non-empty, `v` was its oldest
/// item and is removed, all other lanes keep their contents.
pub open spec fn popped_lane<T>(
    old_lanes: Seq<Seq<T>>,
    new_lanes: Seq<Seq<T>>,
    v: T,
    i: int,
) -> bool {
    &&& 0 <= i < old_lanes.len()
    &&& old_lanes[i].len() > 0
    &&& v == old_lanes[i][0]
    &&& new_lanes == old_lanes.update(i, old_lanes[i].drop_first())
}

/// The cursor position after one round-robin step over `n` lanes.
pub open spec fn next_cursor(c: int, n: int) -> int {
    if c + 1 < n {
        c + 1
    } else {
        0
    }
}

/// Whether lane `j` is visited strictly before lane `i` when walking all
/// `n` lanes in index order starting at `start` and wrapping at `n`.
pub open spec fn wrap_between(n: int, start: int, j: int, i: int) -> bool {
    if start <= i {
        start <= j < i
    } else {
        start <= j < n || 0 <= j < i
    }
}

/// `i` is the first lane with an item when walking from `start` in wrap
/// order: every lane visited before it is empty.
pub open spec fn first_from<T>(lanes: Seq<Seq<T>>, start: int, i: int) -> bool {
    forall|j: int|
        wrap_between(lanes.len() as int, start, j, i) ==> (#[trigger] lanes[j]).len() == 0
}

/// The total number of items held across all lanes.
pub open spec fn total_len<T>(lanes: Seq<Seq<T>>) -> nat
    decreases lanes.len(),
{
    if lanes.len() == 0 {
        0
    } else {
        lanes[0].len() + total_len(lanes.drop_first())
    }
}

/// Replacing one lane changes the total by the difference of that lane.
proof fn lemma_total_len_update<T>(lanes: Seq<Seq<T>>, i: int, lane: Seq<T>)
    requires
        0 <= i < lanes.len(),
    ensures
        total_len(lanes.update(i, lane)) + lanes[i].len() == total_len(lanes) + lane.len(),
    decreases lanes.len(),
{
    if i == 0 {
        assert(lanes.update(0, lane)[0] == lane);
        assert(lanes.update(0, lane).drop_first() =~= lanes.drop_first());
    } else {
        assert(lanes.update(i, lane)[0] == lanes[0]);
        assert(lanes.update(i, lane).drop_first() =~= lanes.drop_first().update(i - 1, lane));
        lemma_total_len_update(lanes.drop_first(), i - 1, lane);
    }
}

/// Conservation, enqueue half: a composer enqueue appends to exactly one
/// lane, so the total number of held items grows by exactly one.
pub proof fn lemma_pushed_lane_conserves<T>(
    old_lanes: Seq<Seq<T>>,
    new_lanes: Seq<Seq<T>>,
    v: T,
    i: int,
)
    requires
        pushed_lane(old_lanes, new_lanes, v, i),
    ensures
        total_len(new_lanes) == total_len(old_lanes) + 1,
{
    lemma_total_len_update(old_lanes, i, old_lanes[i].push(v));
}

/// Conservation, dequeue half: a successful composer dequeue removes the
/// head of exactly one lane, so the total number of held items shrinks by
/// exactly one; together the two halves give that successful dequeues never
/// outnumber enqueues and that a full drain recovers what was not dequeued.
pub proof fn lemma_popped_lane_conserves<T>(
    old_lanes: Seq<Seq<T>>,
    new_lanes: Seq<Seq<T>>,
    v: T,
    i: int,
)
    requires
        popped_lane(old_lanes, new_lanes, v, i),
    ensures
        total_len(new_lanes) + 1 == total_len(old_lanes),
{
    lemma_total_len_update(old_lanes, i, old_lanes[i].drop_first());
}

/// Relaxation bound: one composer dequeue takes the head of exactly one
/// lane and leaves every other lane untouched, so the sequence of dequeued
/// items is a merge of the lanes' FIFO orders — within a lane, items leave
/// in the order they arrived.
pub proof fn lemma_popped_lane_merge<T>(
    old_lanes: Seq<Seq<T>>,
    new_lanes: Seq<Seq<T>>,
    v: T,
    i: int,
)
    requires
        popped_lane(old_lanes, new_lanes, v, i),
    ensures
        old_lanes[i] == seq![v] + new_lanes[i],
        forall|j: int| 0 <= j < old_lanes.len() && j != i ==> new_lanes[j] == old_lanes[j],
{
    assert(old_lanes[i] =~= seq![v] + new_lanes[i]);
}

} // verus!
