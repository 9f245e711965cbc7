//! A FIFO queue over the same circular-buffer scheme as the deque: adding at
//! the tail and removing at the head each touch a single slot, so both are
//! amortized constant time.

use vstd::prelude::*;

use crate::array_deque::{needs_grow, resize_target};
use crate::slots::{allocate_with, lemma_slot_index_inverse, logical_pos, slot_index, wrap_index};

verus! {

/// List implementation with a backing array addressed through a wrap-around
/// head offset, optimized for the FIFO queue interface.
pub struct ArrayQueue<T> {
    a: Vec<Option<T>>,
    j: usize,
    n: usize,
}

impl<T> View for ArrayQueue<T> {
    type V = Seq<T>;

    /// The logical sequence the queue holds, head first.
    closed spec fn view(&self) -> Seq<T> {
        let jj = self.j as int;
        let cap = self.a@.len() as int;
        Seq::new(self.n as nat, |i: int| self.a@[slot_index(jj, i, cap)]->0)
    }
}

impl<T> ArrayQueue<T> {
    /// The length of the backing buffer.
    pub closed spec fn spec_capacity(&self) -> int {
        self.a@.len() as int
    }

    /// Internal consistency: the element count fits the buffer, the head
    /// offset is a valid slot, and a slot is occupied exactly when it lies in
    /// the logical window.
    pub closed spec fn well_formed(&self) -> bool {
        &&& self.n <= self.a@.len()
        &&& if self.a@.len() == 0 {
            self.j == 0
        } else {
            self.j < self.a@.len()
        }
        &&& forall|p: int|
            0 <= p < self.a@.len() ==> ((#[trigger] self.a@[p]) is Some <==> logical_pos(
                self.j as int,
                p,
                self.a@.len() as int,
            ) < self.n)
    }

    /// Generate empty ArrayQueue
    pub fn new() -> (r: Self)
        ensures
            r.well_formed(),
            r@ == Seq::<T>::empty(),
            r.spec_capacity() == 0,
    {
        let r = ArrayQueue { a: allocate_with(0), j: 0, n: 0 };
        proof {
            assert(r@ =~= Seq::<T>::empty());
        }
        r
    }

    /// Return internally allocated capacity of the backing array.
    pub fn capacity(&self) -> (c: usize)
        ensures
            c == self.spec_capacity(),
    {
        self.a.len()
    }

    /// Reallocate the backing buffer to twice the element count (at least one
    /// slot), packing the elements into slots `[0, count)` and resetting the
    /// head offset.
    fn resize(&mut self)
        requires
            old(self).well_formed(),
            old(self).n <= usize::MAX / 2,
        ensures
            final(self).well_formed(),
            final(self)@ == old(self)@,
            final(self).spec_capacity() == resize_target(old(self)@.len() as int),
    {
        let target = if self.n == 0 {
            1
        } else {
            self.n * 2
        };
        let mut new_array: Vec<Option<T>> = allocate_with(target);
        let ghost s0 = self@;
        let ghost n0 = self.n as int;
        let ghost j0 = self.j as int;
        let ghost cap0 = self.a@.len() as int;
        proof {
            assert forall|q: int| 0 <= q < cap0 implies #[trigger] self.a@[q] == (if logical_pos(
                j0,
                q,
                cap0,
            ) < n0 {
                Some(s0[logical_pos(j0, q, cap0)])
            } else {
                None::<T>
            }) by {
                lemma_slot_index_inverse(j0, cap0, 0, q);
            }
        }
        let mut k: usize = 0;
        while k < self.n
            invariant
                k <= n0,
                self.n == n0,
                self.j == j0,
                self.a@.len() == cap0,
                n0 <= cap0,
                n0 <= target,
                s0.len() == n0,
                if cap0 == 0 {
                    j0 == 0
                } else {
                    j0 < cap0
                },
                new_array@.len() == target,
                forall|q: int|
                    0 <= q < target ==> (#[trigger] new_array@[q]) == (if q < k {
                        Some(s0[q])
                    } else {
                        None::<T>
                    }),
                forall|q: int|
                    0 <= q < cap0 ==> (#[trigger] self.a@[q]) == (if k <= logical_pos(j0, q, cap0)
                        < n0 {
                        Some(s0[logical_pos(j0, q, cap0)])
                    } else {
                        None::<T>
                    }),
            decreases n0 - k,
        {
            let p = wrap_index(self.j, k, self.a.len());
            proof {
                lemma_slot_index_inverse(j0, cap0, k as int, p as int);
            }
            let v = self.a[p].take();
            new_array.set(k, v);
            k += 1;
        }
        self.a = new_array;
        self.j = 0;
        proof {
            assert(self.well_formed());
            assert(self@ =~= s0);
        }
    }

    /// Validate whether the given index is within the range of the list.
    fn within_bound(&self, i: usize) -> (r: bool)
        requires
            self.well_formed(),
        ensures
            r == (i < self@.len()),
    {
        i < self.a.len() && i < self.n
    }

    /// Append `x` at the tail of the queue; the buffer grows when it is
    /// full.  Always succeeds.
    pub fn add(&mut self, x: T) -> (r: bool)
        requires
            old(self).well_formed(),
            old(self)@.len() < usize::MAX / 2,
        ensures
            final(self).well_formed(),
            r == true,
            final(self)@.len() == old(self)@.len() + 1,
            final(self)@ == old(self)@.push(x),
            !needs_grow(old(self)@.len() as int, old(self).spec_capacity()) ==> final(self).spec_capacity() == old(self).spec_capacity(),
            needs_grow(old(self)@.len() as int, old(self).spec_capacity()) ==> final(self).spec_capacity() == resize_target(old(self)@.len() as int),
    {
        if self.n + 1 > self.a.len() {
            self.resize();
        }
        let ghost s0 = self@;
        let ghost n0 = self.n as int;
        let ghost cap = self.a@.len() as int;
        proof {
            assert(n0 < cap);
        }
        let pos = wrap_index(self.j, self.n, self.a.len());
        proof {
            lemma_slot_index_inverse(self.j as int, cap, n0, pos as int);
        }
        self.a.set(pos, Some(x));
        self.n += 1;
        proof {
            assert(self.well_formed());
            assert forall|m: int| 0 <= m < n0 implies self@[m] == s0[m] by {
                lemma_slot_index_inverse(self.j as int, cap, m, pos as int);
            }
            assert(self@ =~= s0.push(x));
        }
        true
    }

    /// Remove and return the element at the head of the queue, or `None`
    /// (leaving the queue unchanged) when it is empty.
    pub fn remove(&mut self) -> (r: Option<T>)
        requires
            old(self).well_formed(),
        ensures
            final(self).well_formed(),
            final(self).spec_capacity() == old(self).spec_capacity(),
            old(self)@.len() > 0 ==> final(self)@.len() == old(self)@.len() - 1,
            old(self)@.len() == 0 ==> r is None && final(self)@ == old(self)@,
            old(self)@.len() > 0 ==> r == Some(old(self)@[0]) && final(self)@ == old(self)@.subrange(1, old(self)@.len() as int),
    {
        if self.n == 0 {
            return None;
        }
        let ghost s0 = self@;
        let ghost n0 = self.n as int;
        let ghost cap = self.a@.len() as int;
        let ghost j0 = self.j as int;
        proof {
            lemma_slot_index_inverse(j0, cap, 0, j0);
            assert(s0[0] == self.a@[slot_index(j0, 0, cap)]->0);
        }
        let x = self.a[self.j].take();
        self.j = wrap_index(self.j, 1, self.a.len());
        self.n -= 1;
        proof {
            assert(x == Some(s0[0]));
            assert forall|q: int| 0 <= q < cap implies ((#[trigger] self.a@[q]) is Some
                <==> logical_pos(self.j as int, q, cap) < n0 - 1) by {
                lemma_slot_index_inverse(j0, cap, 0, q);
                lemma_slot_index_inverse(self.j as int, cap, 0, q);
            }
            assert(self.well_formed());
            assert forall|m: int| 0 <= m < n0 - 1 implies self@[m] == s0[m + 1] by {
                lemma_slot_index_inverse(self.j as int, cap, m, 0);
                lemma_slot_index_inverse(j0, cap, m + 1, 0);
            }
            assert(self@ =~= s0.subrange(1, n0));
        }
        x
    }

    /// Return the length of the queue.
    pub fn size(&self) -> (n: usize)
        requires
            self.well_formed(),
        ensures
            n == self@.len(),
    {
        self.n
    }

    /// Return the value at position `i` (counted from the head), or `None`
    /// when `i` is out of range.
    pub fn get(&self, i: usize) -> (r: Option<&T>)
        requires
            self.well_formed(),
        ensures
            i < self@.len() ==> r is Some && *r->0 == self@[i as int],
            i >= self@.len() ==> r is None,
    {
        if !self.within_bound(i) {
            None
        } else {
            let p = wrap_index(self.j, i, self.a.len());
            proof {
                lemma_slot_index_inverse(self.j as int, self.a@.len() as int, i as int, p as int);
                assert(self@[i as int] == self.a@[p as int]->0);
            }
            self.a[p].as_ref()
        }
    }

    /// Replace the value at position `i`, returning the value the slot held.
    /// Calling this with `i` out of range is a contract violation, not a
    /// recoverable condition, so it is ruled out by precondition.
    pub fn set(&mut self, i: usize, x: T) -> (r: Option<T>)
        requires
            old(self).well_formed(),
            i < old(self)@.len(),
        ensures
            final(self).well_formed(),
            final(self)@ == old(self)@.update(i as int, x),
            r == Some(old(self)@[i as int]),
            final(self).spec_capacity() == old(self).spec_capacity(),
    {
        let ghost cap = self.a@.len() as int;
        let p = wrap_index(self.j, i, self.a.len());
        proof {
            lemma_slot_index_inverse(self.j as int, cap, i as int, p as int);
            assert(old(self)@[i as int] == self.a@[p as int]->0);
        }
        let prev = self.a[p].take();
        self.a.set(p, Some(x));
        proof {
            assert(self.well_formed());
            assert forall|m: int| 0 <= m < self.n && m != i as int implies self@[m] == old(self)@[m] by {
                lemma_slot_index_inverse(self.j as int, cap, m, p as int);
            }
            assert(self@ =~= old(self)@.update(i as int, x));
        }
        prev
    }
}

impl<T> Default for ArrayQueue<T> {
    /// An empty container, as `new` makes it.
    fn default() -> (r: Self)
        ensures
            r.well_formed(),
            r@ == Seq::<T>::empty(),
            r.spec_capacity() == 0,
    {
        Self::new()
    }
}

} // verus!
