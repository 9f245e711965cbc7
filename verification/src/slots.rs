//! Shared helpers for the array-backed containers: wrap-around index
//! arithmetic over a circular buffer, and allocation of a buffer of empty
//! slots.

use vstd::prelude::*;

verus! {

/// The physical slot that logical position `i` occupies in a circular buffer
/// of `cap` slots whose head offset is `j`.  Equals `(j + i) mod cap` for the
/// intended ranges `0 <= j < cap` and `0 <= i <= cap`.
pub open spec fn slot_index(j: int, i: int, cap: int) -> int {
    if j + i < cap {
        j + i
    } else {
        j + i - cap
    }
}

/// The logical position that physical slot `p` holds: the inverse of
/// `slot_index`.  Equals `(p - j) mod cap` for `0 <= j < cap` and
/// `0 <= p < cap`.
pub open spec fn logical_pos(j: int, p: int, cap: int) -> int {
    if p >= j {
        p - j
    } else {
        p + cap - j
    }
}

/// `slot_index` and `logical_pos` invert one another, so distinct logical
/// positions occupy distinct physical slots.
pub proof fn lemma_slot_index_inverse(j: int, cap: int, i: int, p: int)
    requires
        0 <= j < cap,
        0 <= i < cap,
        0 <= p < cap,
    ensures
        logical_pos(j, slot_index(j, i, cap), cap) == i,
        slot_index(j, logical_pos(j, p, cap), cap) == p,
        0 <= logical_pos(j, p, cap) < cap,
        0 <= slot_index(j, i, cap) < cap,
{
}

/// Computes `slot_index` executably, without overflow and without a modulo on
/// values that could exceed the buffer length.
pub(crate) fn wrap_index(j: usize, i: usize, cap: usize) -> (p: usize)
    requires
        j < cap,
        i <= cap,
    ensures
        p == slot_index(j as int, i as int, cap as int),
        p < cap,
{
    if i < cap - j {
        j + i
    } else {
        i - (cap - j)
    }
}

/// A fresh backing buffer of `n` empty slots.
pub(crate) fn allocate_with<T>(n: usize) -> (v: Vec<Option<T>>)
    ensures
        v@.len() == n,
        forall|k: int| 0 <= k < n ==> (#[trigger] v@[k]) is None,
{
    let mut v: Vec<Option<T>> = Vec::new();
    while v.len() < n
        invariant
            v@.len() <= n,
            forall|k: int| 0 <= k < v@.len() ==> (#[trigger] v@[k]) is None,
        decreases n - v@.len(),
    {
        v.push(None);
    }
    v
}

} // verus!
