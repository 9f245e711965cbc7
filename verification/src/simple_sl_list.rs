//! A minimal singly-linked list of owned nodes, used as a LIFO stack:
//! push and pop work at the head in constant time.

use vstd::prelude::*;

verus! {

/// Node owns its data and the rest of the chain.
pub struct Node<T> {
    element: T,
    next: Option<Box<Node<T>>>,
}

/// The sequence a chain of nodes holds, from the head node onward.
pub closed spec fn link_view<T>(l: Option<Box<Node<T>>>) -> Seq<T>
    decreases l,
{
    match l {
        None => Seq::empty(),
        Some(node) => seq![node.element] + link_view(node.next),
    }
}

impl<T> View for Node<T> {
    type V = Seq<T>;

    /// The sequence this node's chain holds, its own element first.
    closed spec fn view(&self) -> Seq<T> {
        seq![self.element] + link_view(self.next)
    }
}

impl<T> Node<T> {
    /// Generate a Node holding `x` with no successor.
    pub fn new(x: T) -> (r: Self)
        ensures
            r@ == seq![x],
    {
        let r = Node { element: x, next: None };
        proof {
            assert(r@ =~= seq![x]);
        }
        r
    }

    /// Chain a new head node holding `x` in front of `next`.
    fn new_link(x: T, next: Option<Box<Node<T>>>) -> (l: Option<Box<Node<T>>>)
        ensures
            link_view(l) == seq![x] + link_view(next),
    {
        Some(Box::new(Node { element: x, next }))
    }
}

/// Singly-Linked List represents a simple implementation of List.
pub struct SimpleSLList<T> {
    head: Option<Box<Node<T>>>,
    n: usize,
}

impl<T> View for SimpleSLList<T> {
    type V = Seq<T>;

    /// The sequence the list holds, head (most recently pushed) first.
    closed spec fn view(&self) -> Seq<T> {
        link_view(self.head)
    }
}

impl<T> SimpleSLList<T> {
    /// The stored element count agrees with the chain.
    pub closed spec fn well_formed(&self) -> bool {
        self.n == self@.len()
    }

    /// Generate empty SimpleSLList
    pub fn new() -> (r: Self)
        ensures
            r.well_formed(),
            r@ == Seq::<T>::empty(),
    {
        SimpleSLList { head: None, n: 0 }
    }

    /// Return the number of elements
    pub fn size(&self) -> (n: usize)
        requires
            self.well_formed(),
        ensures
            n == self@.len(),
    {
        self.n
    }

    /// Add `x` at the head of the list.
    pub fn push(&mut self, x: T)
        requires
            old(self).well_formed(),
            old(self)@.len() < usize::MAX,
        ensures
            final(self).well_formed(),
            final(self)@ == seq![x] + old(self)@,
    {
        let u = Node::new_link(x, self.head.take());
        self.head = u;
        self.n += 1;
    }

    /// Remove and return the head element, or `None` when the list is empty.
    pub fn pop(&mut self) -> (r: Option<T>)
        requires
            old(self).well_formed(),
        ensures
            final(self).well_formed(),
            old(self)@.len() == 0 ==> r is None && final(self)@ == old(self)@,
            old(self)@.len() > 0 ==> r == Some(old(self)@[0]) && final(self)@ == old(self)@.drop_first(),
    {
        match self.head.take() {
            Some(node) => {
                let node = *node;
                proof {
                    assert(old(self)@ == seq![node.element] + link_view(node.next));
                    assert(old(self)@.drop_first() =~= link_view(node.next));
                }
                self.head = node.next;
                self.n -= 1;
                Some(node.element)
            },
            None => None,
        }
    }

    /// Borrow the head element, or `None` when the list is empty.
    pub fn first(&self) -> (r: Option<&T>)
        requires
            self.well_formed(),
        ensures
            self@.len() == 0 ==> r is None,
            self@.len() > 0 ==> r is Some && *r->0 == self@[0],
    {
        match &self.head {
            Some(node) => Some(&node.element),
            None => None,
        }
    }
}

impl<T> Default for SimpleSLList<T> {
    /// An empty container, as `new` makes it.
    fn default() -> (r: Self)
        ensures
            r.well_formed(),
            r@ == Seq::<T>::empty(),
    {
        Self::new()
    }
}

} // verus!
