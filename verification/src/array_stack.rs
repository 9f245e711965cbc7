//! A growable array without wrap-around, optimized for the stack interface:
//! `get` and `set` in constant time, `add(i, x)` and `remove(i)` in
//! `O(1 + n - i)` element moves, so pushing and popping at the tail is
//! amortized constant time.

use vstd::prelude::*;

use crate::array_deque::{needs_grow, resize_target};
use crate::slots::allocate_with;

verus! {

/// When does this container's buffer of `cap` slots holding `n` elements
/// (after a removal) get reallocated to a smaller one?  The threshold is
/// looser than the grow trigger, so add/remove alternation does not thrash.
pub open spec fn stack_shrinks_at(n: int, cap: int) -> bool {
    cap >= 3 * n
}

/// List implementation with a backing array used from position 0 upward:
/// logical position `i` lives in physical slot `i`, and every slot at or
/// past the element count holds `None`.
pub struct ArrayStack<T> {
    a: Vec<Option<T>>,
    n: usize,
}

impl<T> View for ArrayStack<T> {
    type V = Seq<T>;

    /// The logical sequence the container holds.
    closed spec fn view(&self) -> Seq<T> {
        Seq::new(self.n as nat, |i: int| self.a@[i]->0)
    }
}

impl<T> ArrayStack<T> {
    /// The length of the backing buffer.
    pub closed spec fn spec_capacity(&self) -> int {
        self.a@.len() as int
    }

    /// Internal consistency: the element count fits the buffer, and a slot is
    /// occupied exactly when its index is below the element count.
    pub closed spec fn well_formed(&self) -> bool {
        &&& self.n <= self.a@.len()
        &&& forall|p: int|
            0 <= p < self.a@.len() ==> ((#[trigger] self.a@[p]) is Some <==> p < self.n)
    }

    /// Generate empty ArrayStack.
    pub fn new() -> (r: Self)
        ensures
            r.well_formed(),
            r@ == Seq::<T>::empty(),
            r.spec_capacity() == 0,
    {
        ArrayStack::with_capacity(0)
    }

    /// Generate an empty ArrayStack whose buffer already holds `i` slots.
    pub fn with_capacity(i: usize) -> (r: Self)
        ensures
            r.well_formed(),
            r@ == Seq::<T>::empty(),
            r.spec_capacity() == i,
    {
        let r = ArrayStack { a: allocate_with(i), n: 0 };
        proof {
            assert(r@ =~= Seq::<T>::empty());
        }
        r
    }

    /// Return internally allocated capacity of the backing array.
    pub fn capacity(&self) -> (c: usize)
        ensures
            c == self.spec_capacity(),
    {
        self.a.len()
    }

    /// Validate whether the given index is within a range of the list.
    fn within_bound(&self, i: usize) -> (r: bool)
        requires
            self.well_formed(),
        ensures
            r == (i < self@.len()),
    {
        i < self.a.len() && i < self.n
    }

    /// Reallocate the backing buffer to twice the element count (at least one
    /// slot), keeping the elements in slots `[0, count)`.
    fn resize(&mut self)
        requires
            old(self).well_formed(),
            old(self).n <= usize::MAX / 2,
        ensures
            final(self).well_formed(),
            final(self)@ == old(self)@,
            final(self).spec_capacity() == resize_target(old(self)@.len() as int),
    {
        let target = if self.n == 0 {
            1
        } else {
            self.n * 2
        };
        let mut new_array: Vec<Option<T>> = allocate_with(target);
        let ghost s0 = self@;
        let ghost n0 = self.n as int;
        let mut k: usize = 0;
        while k < self.n
            invariant
                k <= n0,
                self.n == n0,
                n0 <= self.a@.len(),
                n0 <= target,
                s0.len() == n0,
                new_array@.len() == target,
                forall|q: int|
                    0 <= q < target ==> (#[trigger] new_array@[q]) == (if q < k {
                        Some(s0[q])
                    } else {
                        None::<T>
                    }),
                forall|q: int|
                    k <= q < n0 ==> (#[trigger] self.a@[q]) == Some(s0[q]),
            decreases n0 - k,
        {
            let v = self.a[k].take();
            new_array.set(k, v);
            k += 1;
        }
        self.a = new_array;
        proof {
            assert(self.well_formed());
            assert(self@ =~= s0);
        }
    }

    /// Return the length of the list.
    pub fn size(&self) -> (n: usize)
        requires
            self.well_formed(),
        ensures
            n == self@.len(),
    {
        self.n
    }

    /// Return the value at position `i`, or `None` when `i` is out of range.
    pub fn get(&self, i: usize) -> (r: Option<&T>)
        requires
            self.well_formed(),
        ensures
            i < self@.len() ==> r is Some && *r->0 == self@[i as int],
            i >= self@.len() ==> r is None,
    {
        if !self.within_bound(i) {
            None
        } else {
            self.a[i].as_ref()
        }
    }

    /// Replace the value at position `i`, returning the value the slot held.
    /// Calling this with `i` out of range is a contract violation, not a
    /// recoverable condition, so it is ruled out by precondition.
    pub fn set(&mut self, i: usize, x: T) -> (r: Option<T>)
        requires
            old(self).well_formed(),
            i < old(self)@.len(),
        ensures
            final(self).well_formed(),
            final(self)@ == old(self)@.update(i as int, x),
            r == Some(old(self)@[i as int]),
            final(self).spec_capacity() == old(self).spec_capacity(),
    {
        let prev = self.a[i].take();
        self.a.set(i, Some(x));
        proof {
            assert(self.well_formed());
            assert(self@ =~= old(self)@.update(i as int, x));
        }
        prev
    }

    /// Insert `x` at position `i` (`i == size()` appends), shifting the
    /// elements from `i` on one step toward the tail; the buffer grows when
    /// it is full.
    pub fn add(&mut self, i: usize, x: T)
        requires
            old(self).well_formed(),
            i <= old(self)@.len(),
            old(self)@.len() < usize::MAX / 2,
        ensures
            final(self).well_formed(),
            final(self)@ == old(self)@.insert(i as int, x),
            final(self)@.len() == old(self)@.len() + 1,
            !needs_grow(old(self)@.len() as int, old(self).spec_capacity()) ==> final(self).spec_capacity() == old(self).spec_capacity(),
            needs_grow(old(self)@.len() as int, old(self).spec_capacity()) ==> final(self).spec_capacity() == resize_target(old(self)@.len() as int),
    {
        if self.n + 1 > self.a.len() {
            self.resize();
        }
        let ghost s0 = self@;
        let ghost n0 = self.n as int;
        let ghost cap = self.a@.len() as int;
        proof {
            assert(n0 < cap);
        }
        if i >= self.n {
            self.a.set(self.n, Some(x));
        } else {
            let mut k: usize = self.n;
            while k > i
                invariant
                    i <= k <= n0,
                    n0 < cap,
                    self.n == n0,
                    self.a@.len() == cap,
                    s0.len() == n0,
                    forall|q: int|
                        0 <= q < cap ==> (#[trigger] self.a@[q]) == (if q < k {
                            if q < n0 {
                                Some(s0[q])
                            } else {
                                None::<T>
                            }
                        } else if q == k {
                            None::<T>
                        } else if q <= n0 {
                            Some(s0[q - 1])
                        } else {
                            None::<T>
                        }),
                decreases k,
            {
                let v = self.a[k - 1].take();
                self.a.set(k, v);
                k -= 1;
            }
            self.a.set(i, Some(x));
        }
        self.n += 1;
        proof {
            assert(self.well_formed());
            assert(self@ =~= s0.insert(i as int, x));
        }
    }

    /// Remove and return the element at position `i`, or `None` (leaving the
    /// container unchanged) when `i` is out of range.  The elements past `i`
    /// shift one step toward the head; the buffer shrinks when at most a
    /// third of its slots remain in use.
    pub fn remove(&mut self, i: usize) -> (r: Option<T>)
        requires
            old(self).well_formed(),
        ensures
            final(self).well_formed(),
            i < old(self)@.len() ==> final(self)@.len() == old(self)@.len() - 1,
            i >= old(self)@.len() ==> final(self)@.len() == old(self)@.len(),
            i < old(self)@.len() ==> r == Some(old(self)@[i as int]) && final(self)@ == old(self)@.remove(i as int),
            i >= old(self)@.len() ==> r is None && final(self)@ == old(self)@ && final(self).spec_capacity() == old(self).spec_capacity(),
            i < old(self)@.len() && !stack_shrinks_at(old(self)@.len() - 1, old(self).spec_capacity()) ==> final(self).spec_capacity() == old(self).spec_capacity(),
            i < old(self)@.len() && stack_shrinks_at(old(self)@.len() - 1, old(self).spec_capacity()) ==> final(self).spec_capacity() == resize_target(old(self)@.len() - 1),
    {
        if !self.within_bound(i) {
            return None;
        }
        let ghost s0 = self@;
        let ghost n0 = self.n as int;
        let ghost cap = self.a@.len() as int;
        proof {
            assert(s0[i as int] == self.a@[i as int]->0);
        }
        let x = self.a[i].take();
        proof {
            assert(x == Some(s0[i as int]));
        }
        let mut k: usize = i;
        while k + 1 < self.n
            invariant
                i <= k < n0,
                n0 <= cap,
                self.n == n0,
                self.a@.len() == cap,
                s0.len() == n0,
                forall|q: int|
                    0 <= q < cap ==> (#[trigger] self.a@[q]) == (if q < i {
                        Some(s0[q])
                    } else if q < k {
                        Some(s0[q + 1])
                    } else if q == k {
                        None::<T>
                    } else if q < n0 {
                        Some(s0[q])
                    } else {
                        None::<T>
                    }),
            decreases n0 - k,
        {
            let v = self.a[k + 1].take();
            self.a.set(k, v);
            k += 1;
        }
        self.n -= 1;
        proof {
            assert(self.well_formed());
            assert(self@ =~= s0.remove(i as int));
        }
        if self.n <= usize::MAX / 3 && self.a.len() >= 3 * self.n {
            proof {
                assert(stack_shrinks_at(n0 - 1, cap));
            }
            self.resize();
        } else {
            proof {
                vstd::std_specs::vec::axiom_spec_len(&self.a);
                if self.n > usize::MAX / 3 {
                    assert(3 * (n0 - 1) > usize::MAX as int);
                }
                assert(!stack_shrinks_at(n0 - 1, cap));
            }
        }
        x
    }

    /// Add a value at the tail of the stack.
    pub fn push(&mut self, x: T)
        requires
            old(self).well_formed(),
            old(self)@.len() < usize::MAX / 2,
        ensures
            final(self).well_formed(),
            final(self)@ == old(self)@.push(x),
            !needs_grow(old(self)@.len() as int, old(self).spec_capacity()) ==> final(self).spec_capacity() == old(self).spec_capacity(),
            needs_grow(old(self)@.len() as int, old(self).spec_capacity()) ==> final(self).spec_capacity() == resize_target(old(self)@.len() as int),
    {
        let n = self.size();
        self.add(n, x);
        proof {
            assert(old(self)@.insert(old(self)@.len() as int, x) =~= old(self)@.push(x));
        }
    }

    /// Remove and return the last-added value, or `None` (leaving the stack
    /// unchanged) when it is empty.
    pub fn pop(&mut self) -> (r: Option<T>)
        requires
            old(self).well_formed(),
        ensures
            final(self).well_formed(),
            old(self)@.len() == 0 ==> r is None && final(self)@ == old(self)@ && final(self).spec_capacity() == old(self).spec_capacity(),
            old(self)@.len() > 0 ==> r == Some(old(self)@.last()) && final(self)@ == old(self)@.drop_last(),
            old(self)@.len() > 0 && !stack_shrinks_at(old(self)@.len() - 1, old(self).spec_capacity()) ==> final(self).spec_capacity() == old(self).spec_capacity(),
            old(self)@.len() > 0 && stack_shrinks_at(old(self)@.len() - 1, old(self).spec_capacity()) ==> final(self).spec_capacity() == resize_target(old(self)@.len() - 1),
    {
        if self.n == 0 {
            return None;
        }
        let n = self.size();
        let r = self.remove(n - 1);
        proof {
            assert(old(self)@.remove(old(self)@.len() - 1) =~= old(self)@.drop_last());
        }
        r
    }
}

impl<T> Default for ArrayStack<T> {
    /// An empty container, as `new` makes it.
    fn default() -> (r: Self)
        ensures
            r.well_formed(),
            r@ == Seq::<T>::empty(),
            r.spec_capacity() == 0,
    {
        Self::new()
    }
}

} // verus!
