//! Laws that relate several container operations, stated over the same
//! sequence views and resizing predicates that the operations' own contracts
//! use.

use vstd::prelude::*;

use crate::array_deque::{needs_grow, resize_target, shrinks_at};
use crate::array_stack::stack_shrinks_at;

verus! {

/// Indexing invariant: the containers' contracts state every operation as a
/// transformation of the sequence view that `get` reads, so after any history
/// of operations `get(m)` returns the value the history placed at position
/// `m`.  Spelled out for one step: after an insertion at `i`, position `i`
/// answers the new value, earlier positions answer as before, and later ones
/// answer what stood one position earlier; after a removal at `i`, positions
/// from `i` on answer what stood one position later.
pub proof fn lemma_indexing_invariant<T>(s: Seq<T>, i: int, x: T, m: int)
    requires
        0 <= i <= s.len(),
    ensures
        0 <= m < i ==> s.insert(i, x)[m] == s[m],
        m == i ==> s.insert(i, x)[m] == x,
        i < m <= s.len() ==> s.insert(i, x)[m] == s[m - 1],
        i < s.len() && i <= m < s.len() - 1 ==> s.remove(i)[m] == s[m + 1],
        0 <= m < i && i < s.len() ==> s.remove(i)[m] == s[m],
{
}

/// Round trip of `set` and `get`: `set(i, x)` turns the view `s` into
/// `s.update(i, x)` and hands back `Some(s[i])`, so a following `get(i)`
/// returns `x` while every other position still answers as before.
pub proof fn lemma_set_get_round_trip<T>(s: Seq<T>, i: int, x: T)
    requires
        0 <= i < s.len(),
    ensures
        s.update(i, x).len() == s.len(),
        s.update(i, x)[i] == x,
        forall|m: int| 0 <= m < s.len() && m != i ==> s.update(i, x)[m] == s[m],
{
}

/// Once a circular-buffer container has just been reallocated for `m`
/// elements it holds `resize_target(m)` slots, so inserting one more element
/// does not grow the buffer, and removing that element again does not shrink
/// it: add/remove alternation around the shrink boundary reallocates at most
/// once and then reaches a steady state.
pub proof fn lemma_resize_no_thrash(m: int)
    requires
        1 <= m,
    ensures
        !needs_grow(m, resize_target(m)),
        !shrinks_at(m, resize_target(m)),
{
}

/// The same steady state for the stack's looser shrink rule: after a
/// reallocation for `m` elements, one more insertion does not grow the
/// buffer and removing that element again does not shrink it.
pub proof fn lemma_stack_resize_no_thrash(m: int)
    requires
        1 <= m,
    ensures
        !needs_grow(m, resize_target(m)),
        !stack_shrinks_at(m, resize_target(m)),
{
}

/// One operation of queue usage on the deque: insert at position `size()`
/// or remove at position `0`.
pub enum QueueOp {
    Enqueue,
    Dequeue,
}

/// Element count and buffer length of a circular-buffer container, the two
/// quantities its resizing policy depends on.
pub ghost struct BufferShape {
    pub len: int,
    pub cap: int,
}

/// A shape the container can actually have: the count fits the buffer.
pub open spec fn shape_ok(s: BufferShape) -> bool {
    0 <= s.len <= s.cap
}

/// How one queue-usage operation changes the shape, mirroring the capacity
/// clauses in the contracts of `ArrayDeque::add` and `ArrayDeque::remove`.
pub open spec fn step_shape(s: BufferShape, op: QueueOp) -> BufferShape {
    match op {
        QueueOp::Enqueue => if needs_grow(s.len, s.cap) {
            BufferShape { len: s.len + 1, cap: resize_target(s.len) }
        } else {
            BufferShape { len: s.len + 1, cap: s.cap }
        },
        QueueOp::Dequeue => if s.len == 0 {
            s
        } else if shrinks_at(s.len - 1, s.cap) {
            BufferShape { len: s.len - 1, cap: resize_target(s.len - 1) }
        } else {
            BufferShape { len: s.len - 1, cap: s.cap }
        },
    }
}

/// The element moves one queue-usage operation performs.  Inserting at the
/// tail and removing at the head shift nothing (the shifted span is empty),
/// so the only moves are the elements a reallocation copies.
pub open spec fn step_moves(s: BufferShape, op: QueueOp) -> int {
    match op {
        QueueOp::Enqueue => if needs_grow(s.len, s.cap) {
            s.len
        } else {
            0
        },
        QueueOp::Dequeue => if s.len == 0 {
            0
        } else if shrinks_at(s.len - 1, s.cap) {
            s.len - 1
        } else {
            0
        },
    }
}

/// The element moves a whole sequence of queue-usage operations performs.
pub open spec fn total_moves(s: BufferShape, ops: Seq<QueueOp>) -> int
    decreases ops.len(),
{
    if ops.len() == 0 {
        0
    } else {
        step_moves(s, ops[0]) + total_moves(step_shape(s, ops[0]), ops.drop_first())
    }
}

/// The potential charged to a shape: its distance from the balanced point
/// `cap == 2 * len` that every reallocation re-establishes.
pub open spec fn potential(s: BufferShape) -> int {
    if 2 * s.len >= s.cap {
        2 * s.len - s.cap
    } else {
        s.cap - 2 * s.len
    }
}

/// Each queue-usage operation pays its element moves out of at most three
/// units plus the drop in potential.
proof fn lemma_step_amortized(s: BufferShape, op: QueueOp)
    requires
        shape_ok(s),
    ensures
        shape_ok(step_shape(s, op)),
        step_moves(s, op) + potential(step_shape(s, op)) <= 3 + potential(s),
{
}

proof fn lemma_total_moves_bound(s: BufferShape, ops: Seq<QueueOp>)
    requires
        shape_ok(s),
    ensures
        total_moves(s, ops) <= 3 * ops.len() + potential(s),
    decreases ops.len(),
{
    if ops.len() > 0 {
        lemma_step_amortized(s, ops[0]);
        lemma_total_moves_bound(step_shape(s, ops[0]), ops.drop_first());
    }
}

/// Amortized bound for queue usage: over any sequence of `N` interleaved
/// inserts at the tail and removals at the head, starting from the empty
/// container, the total element-move work is at most `3 * N` — linear in the
/// number of operations, even though a single reallocation moves up to all
/// current elements.
pub proof fn lemma_amortized_queue_bound(ops: Seq<QueueOp>)
    ensures
        total_moves(BufferShape { len: 0, cap: 0 }, ops) <= 3 * ops.len(),
{
    lemma_total_moves_bound(BufferShape { len: 0, cap: 0 }, ops);
}

} // verus!
