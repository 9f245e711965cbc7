//! A dynamic array over a circular buffer, equally suited to list, queue and
//! deque use: constant-time indexed access, and insertion or removal at
//! position `i` costing `O(1 + min(i, n - i))` element moves.

use vstd::prelude::*;

use crate::slots::{allocate_with, lemma_slot_index_inverse, logical_pos, slot_index, wrap_index};

verus! {

/// When does an insertion into a buffer of `cap` slots holding `n` elements
/// force a reallocation?
pub open spec fn needs_grow(n: int, cap: int) -> bool {
    n + 1 > cap
}

/// When does a buffer of `cap` slots holding `n` elements (after a removal)
/// get reallocated to a smaller one?
pub open spec fn shrinks_at(n: int, cap: int) -> bool {
    3 * n < cap
}

/// The capacity a reallocation chooses for `n` elements: double the element
/// count, and never zero.
pub open spec fn resize_target(n: int) -> int {
    if n == 0 {
        1
    } else {
        2 * n
    }
}

/// The buffer during an insertion shift, described slot by slot: logical
/// positions below the travelling hole `h` still hold their old values, the
/// hole itself is empty, positions from `h` up to `n0` hold the old value of
/// the position just before them, and everything past the window is empty.
spec fn insert_gap_state<T>(s0: Seq<T>, n0: int, h: int, d: int) -> Option<T> {
    if d < h {
        Some(s0[d])
    } else if d == h {
        None
    } else if d <= n0 {
        Some(s0[d - 1])
    } else {
        None
    }
}

/// The buffer while a removal at position `i` shifts the front part `[0, i)`
/// one step toward the hole, which has travelled down to position `h`.
spec fn remove_front_state<T>(s0: Seq<T>, n0: int, i: int, h: int, d: int) -> Option<T> {
    if d < h {
        Some(s0[d])
    } else if d == h {
        None
    } else if d <= i {
        Some(s0[d - 1])
    } else if d < n0 {
        Some(s0[d])
    } else {
        None
    }
}

/// The buffer while a removal at position `i` shifts the back part `(i, n0)`
/// one step toward the hole, which has travelled up to position `h`.
spec fn remove_back_state<T>(s0: Seq<T>, n0: int, i: int, h: int, d: int) -> Option<T> {
    if d < i {
        Some(s0[d])
    } else if d < h {
        Some(s0[d + 1])
    } else if d == h {
        None
    } else if d < n0 {
        Some(s0[d])
    } else {
        None
    }
}

/// List implementation over a backing array addressed through a wrap-around
/// head offset.  Logical position `i` lives in physical slot
/// `(head + i) mod capacity`; every slot outside the logical window holds
/// `None`.
pub struct ArrayDeque<T> {
    a: Vec<Option<T>>,
    j: usize,
    n: usize,
}

impl<T> View for ArrayDeque<T> {
    type V = Seq<T>;

    /// The logical sequence the container holds.
    closed spec fn view(&self) -> Seq<T> {
        let jj = self.j as int;
        let cap = self.a@.len() as int;
        Seq::new(self.n as nat, |i: int| self.a@[slot_index(jj, i, cap)]->0)
    }
}

impl<T> ArrayDeque<T> {
    /// The length of the backing buffer.
    pub closed spec fn spec_capacity(&self) -> int {
        self.a@.len() as int
    }

    /// Internal consistency: the element count fits the buffer, the head
    /// offset is a valid slot, and a slot is occupied exactly when it lies in
    /// the logical window — no stale element is left outside it.
    pub closed spec fn well_formed(&self) -> bool {
        &&& self.n <= self.a@.len()
        &&& if self.a@.len() == 0 {
            self.j == 0
        } else {
            self.j < self.a@.len()
        }
        &&& forall|p: int|
            0 <= p < self.a@.len() ==> ((#[trigger] self.a@[p]) is Some <==> logical_pos(
                self.j as int,
                p,
                self.a@.len() as int,
            ) < self.n)
    }

    /// Generate empty ArrayDeque
    pub fn new() -> (r: Self)
        ensures
            r.well_formed(),
            r@ == Seq::<T>::empty(),
            r.spec_capacity() == 0,
    {
        let r = ArrayDeque { a: allocate_with(0), j: 0, n: 0 };
        proof {
            assert(r@ =~= Seq::<T>::empty());
        }
        r
    }

    /// Return internally allocated capacity of the backing array.
    pub fn capacity(&self) -> (c: usize)
        ensures
            c == self.spec_capacity(),
    {
        self.a.len()
    }

    /// Return the length of the list.
    pub fn size(&self) -> (n: usize)
        requires
            self.well_formed(),
        ensures
            n == self@.len(),
    {
        self.n
    }

    /// Validate whether the given index is within the range of the list.
    fn within_bound(&self, i: usize) -> (r: bool)
        requires
            self.well_formed(),
        ensures
            r == (i < self@.len()),
    {
        i < self.n
    }

    /// Return the value at position `i`, or `None` when `i` is out of range.
    pub fn get(&self, i: usize) -> (r: Option<&T>)
        requires
            self.well_formed(),
        ensures
            i < self@.len() ==> r is Some && *r->0 == self@[i as int],
            i >= self@.len() ==> r is None,
    {
        if !self.within_bound(i) {
            None
        } else {
            let p = wrap_index(self.j, i, self.a.len());
            proof {
                lemma_slot_index_inverse(self.j as int, self.a@.len() as int, i as int, p as int);
                assert(self@[i as int] == self.a@[p as int]->0);
            }
            self.a[p].as_ref()
        }
    }

    /// Replace the value at position `i`, returning the value the slot held.
    /// Calling this with `i` out of range is a contract violation, not a
    /// recoverable condition, so it is ruled out by precondition.
    pub fn set(&mut self, i: usize, x: T) -> (r: Option<T>)
        requires
            old(self).well_formed(),
            i < old(self)@.len(),
        ensures
            final(self).well_formed(),
            final(self)@ == old(self)@.update(i as int, x),
            r == Some(old(self)@[i as int]),
            final(self).spec_capacity() == old(self).spec_capacity(),
    {
        let ghost cap = self.a@.len() as int;
        let p = wrap_index(self.j, i, self.a.len());
        proof {
            lemma_slot_index_inverse(self.j as int, cap, i as int, p as int);
            assert(old(self)@[i as int] == self.a@[p as int]->0);
        }
        let prev = self.a[p].take();
        self.a.set(p, Some(x));
        proof {
            assert(self.well_formed());
            assert forall|m: int| 0 <= m < self.n && m != i as int implies self@[m] == old(self)@[m] by {
                lemma_slot_index_inverse(self.j as int, cap, m, p as int);
            }
            assert(self@ =~= old(self)@.update(i as int, x));
        }
        prev
    }

    /// Reallocate the backing buffer to twice the element count (at least one
    /// slot), packing the elements into slots `[0, count)` and resetting the
    /// head offset.
    fn resize(&mut self)
        requires
            old(self).well_formed(),
            old(self).n <= usize::MAX / 2,
        ensures
            final(self).well_formed(),
            final(self)@ == old(self)@,
            final(self).spec_capacity() == resize_target(old(self)@.len() as int),
    {
        let target = if self.n == 0 {
            1
        } else {
            self.n * 2
        };
        let mut new_array: Vec<Option<T>> = allocate_with(target);
        let ghost s0 = self@;
        let ghost n0 = self.n as int;
        let ghost j0 = self.j as int;
        let ghost cap0 = self.a@.len() as int;
        proof {
            assert forall|q: int| 0 <= q < cap0 implies #[trigger] self.a@[q] == (if logical_pos(
                j0,
                q,
                cap0,
            ) < n0 {
                Some(s0[logical_pos(j0, q, cap0)])
            } else {
                None::<T>
            }) by {
                lemma_slot_index_inverse(j0, cap0, 0, q);
            }
        }
        let mut k: usize = 0;
        while k < self.n
            invariant
                k <= n0,
                self.n == n0,
                self.j == j0,
                self.a@.len() == cap0,
                n0 <= cap0,
                n0 <= target,
                s0.len() == n0,
                if cap0 == 0 {
                    j0 == 0
                } else {
                    j0 < cap0
                },
                new_array@.len() == target,
                forall|q: int|
                    0 <= q < target ==> (#[trigger] new_array@[q]) == (if q < k {
                        Some(s0[q])
                    } else {
                        None::<T>
                    }),
                forall|q: int|
                    0 <= q < cap0 ==> (#[trigger] self.a@[q]) == (if k <= logical_pos(j0, q, cap0)
                        < n0 {
                        Some(s0[logical_pos(j0, q, cap0)])
                    } else {
                        None::<T>
                    }),
            decreases n0 - k,
        {
            let p = wrap_index(self.j, k, self.a.len());
            proof {
                lemma_slot_index_inverse(j0, cap0, k as int, p as int);
            }
            let v = self.a[p].take();
            new_array.set(k, v);
            k += 1;
        }
        self.a = new_array;
        self.j = 0;
        proof {
            assert(self.well_formed());
            assert(self@ =~= s0);
        }
    }

    /// Insert `x` at position `i` (`i == size()` appends), shifting the
    /// cheaper of the two sides of the window by one step; the buffer grows
    /// when it is full.
    #[verifier::rlimit(80)]
    pub fn add(&mut self, i: usize, x: T)
        requires
            old(self).well_formed(),
            i <= old(self)@.len(),
            old(self)@.len() < usize::MAX / 2,
        ensures
            final(self).well_formed(),
            final(self)@ == old(self)@.insert(i as int, x),
            final(self)@.len() == old(self)@.len() + 1,
            !needs_grow(old(self)@.len() as int, old(self).spec_capacity()) ==> final(self).spec_capacity() == old(self).spec_capacity(),
            needs_grow(old(self)@.len() as int, old(self).spec_capacity()) ==> final(self).spec_capacity() == resize_target(old(self)@.len() as int),
    {
        if self.n + 1 > self.a.len() {
            self.resize();
        }
        let ghost pre = *self;
        let ghost s0 = self@;
        let ghost n0 = self.n as int;
        let ghost cap = self.a@.len() as int;
        proof {
            assert(n0 < cap);
        }
        if i < self.n / 2 {
            // Open a slot at logical position 0 by moving the head back one
            // slot, then shift the elements before `i` one step toward it.
            self.j = if self.j == 0 {
                self.a.len() - 1
            } else {
                self.j - 1
            };
            let ghost j1 = self.j as int;
            proof {
                assert forall|q: int| 0 <= q < cap implies #[trigger] self.a@[q]
                    == insert_gap_state(s0, n0, 0, logical_pos(j1, q, cap)) by {
                    lemma_slot_index_inverse(j1, cap, 0, q);
                    lemma_slot_index_inverse(pre.j as int, cap, 0, q);
                    assert(s0.len() == n0);
                    if 1 <= logical_pos(j1, q, cap) <= n0 {
                        let d = logical_pos(j1, q, cap) - 1;
                        assert(s0[d] == pre.a@[slot_index(pre.j as int, d, cap)]->0);
                        lemma_slot_index_inverse(pre.j as int, cap, d, q);
                    }
                }
            }
            let mut k: usize = 0;
            while k < i
                invariant
                    k <= i,
                    i <= n0,
                    n0 < cap,
                    self.n == n0,
                    self.j == j1,
                    0 <= j1 < cap,
                    self.a@.len() == cap,
                    s0.len() == n0,
                    forall|q: int|
                        0 <= q < cap ==> (#[trigger] self.a@[q]) == insert_gap_state(
                            s0,
                            n0,
                            k as int,
                            logical_pos(j1, q, cap),
                        ),
                decreases i - k,
            {
                let src = wrap_index(self.j, k + 1, self.a.len());
                let dst = wrap_index(self.j, k, self.a.len());
                proof {
                    lemma_slot_index_inverse(j1, cap, k as int + 1, src as int);
                    lemma_slot_index_inverse(j1, cap, k as int, dst as int);
                }
                let v = self.a[src].take();
                self.a.set(dst, v);
                k += 1;
            }
        } else {
            // Shift the elements from `i` to the end one step toward the
            // empty slot just past the window.
            let ghost j1 = self.j as int;
            proof {
                assert forall|q: int| 0 <= q < cap implies #[trigger] self.a@[q]
                    == insert_gap_state(s0, n0, n0, logical_pos(j1, q, cap)) by {
                    lemma_slot_index_inverse(j1, cap, 0, q);
                    if logical_pos(j1, q, cap) < n0 {
                        let d = logical_pos(j1, q, cap);
                        assert(s0[d] == self.a@[slot_index(j1, d, cap)]->0);
                        lemma_slot_index_inverse(j1, cap, d, q);
                    }
                }
            }
            let mut k: usize = self.n;
            while k > i
                invariant
                    i <= k <= n0,
                    i <= n0,
                    n0 < cap,
                    self.n == n0,
                    self.j == j1,
                    0 <= j1 < cap,
                    self.a@.len() == cap,
                    s0.len() == n0,
                    forall|q: int|
                        0 <= q < cap ==> (#[trigger] self.a@[q]) == insert_gap_state(
                            s0,
                            n0,
                            k as int,
                            logical_pos(j1, q, cap),
                        ),
                decreases k,
            {
                let src = wrap_index(self.j, k - 1, self.a.len());
                let dst = wrap_index(self.j, k, self.a.len());
                proof {
                    lemma_slot_index_inverse(j1, cap, k as int - 1, src as int);
                    lemma_slot_index_inverse(j1, cap, k as int, dst as int);
                }
                let v = self.a[src].take();
                self.a.set(dst, v);
                k -= 1;
            }
        }
        let p = wrap_index(self.j, i, self.a.len());
        proof {
            lemma_slot_index_inverse(self.j as int, cap, i as int, p as int);
        }
        self.a.set(p, Some(x));
        self.n = self.n + 1;
        proof {
            assert(self.well_formed());
            assert forall|m: int| 0 <= m <= n0 implies self@[m] == s0.insert(i as int, x)[m] by {
                lemma_slot_index_inverse(self.j as int, cap, m, p as int);
            }
            assert(self@ =~= s0.insert(i as int, x));
        }
    }

    /// Remove and return the element at position `i`, or `None` (leaving the
    /// container unchanged) when `i` is out of range.  The cheaper side of
    /// the window shifts by one step to close the gap; the buffer shrinks
    /// when fewer than a third of its slots remain in use.
    #[verifier::rlimit(80)]
    pub fn remove(&mut self, i: usize) -> (r: Option<T>)
        requires
            old(self).well_formed(),
        ensures
            final(self).well_formed(),
            i < old(self)@.len() ==> final(self)@.len() == old(self)@.len() - 1,
            i >= old(self)@.len() ==> final(self)@.len() == old(self)@.len(),
            i < old(self)@.len() ==> r == Some(old(self)@[i as int]) && final(self)@ == old(self)@.remove(i as int),
            i >= old(self)@.len() ==> r is None && final(self)@ == old(self)@ && final(self).spec_capacity() == old(self).spec_capacity(),
            i < old(self)@.len() && !shrinks_at(old(self)@.len() - 1, old(self).spec_capacity())
                ==> final(self).spec_capacity() == old(self).spec_capacity(),
            i < old(self)@.len() && shrinks_at(old(self)@.len() - 1, old(self).spec_capacity())
                ==> final(self).spec_capacity() == resize_target(old(self)@.len() - 1),
    {
        if !self.within_bound(i) {
            return None;
        }
        let ghost s0 = self@;
        let ghost n0 = self.n as int;
        let ghost cap = self.a@.len() as int;
        let ghost j0 = self.j as int;
        let p = wrap_index(self.j, i, self.a.len());
        proof {
            lemma_slot_index_inverse(j0, cap, i as int, p as int);
            assert(s0[i as int] == self.a@[p as int]->0);
        }
        let x = self.a[p].take();
        proof {
            assert(x == Some(s0[i as int]));
        }
        if i < self.n / 2 {
            // Close the gap from the front: shift `[0, i)` one step toward
            // the hole, then advance the head offset.
            proof {
                assert forall|q: int| 0 <= q < cap implies #[trigger] self.a@[q]
                    == remove_front_state(s0, n0, i as int, i as int, logical_pos(j0, q, cap)) by {
                    lemma_slot_index_inverse(j0, cap, 0, q);
                    if logical_pos(j0, q, cap) < n0 && logical_pos(j0, q, cap) != i as int {
                        let d = logical_pos(j0, q, cap);
                        assert(s0[d] == old(self).a@[slot_index(j0, d, cap)]->0);
                        lemma_slot_index_inverse(j0, cap, d, q);
                    }
                }
            }
            let mut k: usize = i;
            while k > 0
                invariant
                    k <= i,
                    i < n0,
                    n0 <= cap,
                    self.n == n0,
                    self.j == j0,
                    0 <= j0 < cap,
                    self.a@.len() == cap,
                    s0.len() == n0,
                    forall|q: int|
                        0 <= q < cap ==> (#[trigger] self.a@[q]) == remove_front_state(
                            s0,
                            n0,
                            i as int,
                            k as int,
                            logical_pos(j0, q, cap),
                        ),
                decreases k,
            {
                let src = wrap_index(self.j, k - 1, self.a.len());
                let dst = wrap_index(self.j, k, self.a.len());
                proof {
                    lemma_slot_index_inverse(j0, cap, k as int - 1, src as int);
                    lemma_slot_index_inverse(j0, cap, k as int, dst as int);
                }
                let v = self.a[src].take();
                self.a.set(dst, v);
                k -= 1;
            }
            self.j = wrap_index(self.j, 1, self.a.len());
            proof {
                assert forall|q: int| 0 <= q < cap implies #[trigger] self.a@[q]
                    == remove_back_state(s0, n0, i as int, n0 - 1, logical_pos(
                    self.j as int,
                    q,
                    cap,
                )) by {
                    lemma_slot_index_inverse(j0, cap, 0, q);
                    lemma_slot_index_inverse(self.j as int, cap, 0, q);
                }
            }
        } else {
            // Close the gap from the back: shift `(i, n0)` one step toward
            // the hole.
            proof {
                assert forall|q: int| 0 <= q < cap implies #[trigger] self.a@[q]
                    == remove_back_state(s0, n0, i as int, i as int, logical_pos(j0, q, cap)) by {
                    lemma_slot_index_inverse(j0, cap, 0, q);
                    if logical_pos(j0, q, cap) < n0 && logical_pos(j0, q, cap) != i as int {
                        let d = logical_pos(j0, q, cap);
                        assert(s0[d] == old(self).a@[slot_index(j0, d, cap)]->0);
                        lemma_slot_index_inverse(j0, cap, d, q);
                    }
                }
            }
            let mut k: usize = i;
            while k + 1 < self.n
                invariant
                    i <= k < n0,
                    n0 <= cap,
                    self.n == n0,
                    self.j == j0,
                    0 <= j0 < cap,
                    self.a@.len() == cap,
                    s0.len() == n0,
                    forall|q: int|
                        0 <= q < cap ==> (#[trigger] self.a@[q]) == remove_back_state(
                            s0,
                            n0,
                            i as int,
                            k as int,
                            logical_pos(j0, q, cap),
                        ),
                decreases n0 - k,
            {
                let src = wrap_index(self.j, k + 1, self.a.len());
                let dst = wrap_index(self.j, k, self.a.len());
                proof {
                    lemma_slot_index_inverse(j0, cap, k as int + 1, src as int);
                    lemma_slot_index_inverse(j0, cap, k as int, dst as int);
                }
                let v = self.a[src].take();
                self.a.set(dst, v);
                k += 1;
            }
        }
        self.n = self.n - 1;
        proof {
            assert(self.well_formed());
            assert forall|m: int| 0 <= m < n0 - 1 implies self@[m] == s0.remove(i as int)[m] by {
                lemma_slot_index_inverse(self.j as int, cap, m, 0);
            }
            assert(self@ =~= s0.remove(i as int));
        }
        if self.n <= usize::MAX / 3 && 3 * self.n < self.a.len() {
            proof {
                assert(shrinks_at(n0 - 1, cap));
            }
            self.resize();
        } else {
            proof {
                assert(!shrinks_at(n0 - 1, cap));
            }
        }
        x
    }
}

impl<T> Default for ArrayDeque<T> {
    /// An empty container, as `new` makes it.
    fn default() -> (r: Self)
        ensures
            r.well_formed(),
            r@ == Seq::<T>::empty(),
            r.spec_capacity() == 0,
    {
        Self::new()
    }
}

} // verus!
