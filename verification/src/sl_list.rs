//! A singly-linked list of owned nodes serving both interfaces: as a stack,
//! push and pop work at the head; as a queue, values enter at the tail and
//! leave at the head.

use vstd::prelude::*;

verus! {

/// Node owns its data and the rest of the chain.
pub struct Node<T> {
    element: T,
    next: Option<Box<Node<T>>>,
}

/// The sequence a chain of nodes holds, from the head node onward.
pub closed spec fn link_view<T>(l: Option<Box<Node<T>>>) -> Seq<T>
    decreases l,
{
    match l {
        None => Seq::empty(),
        Some(node) => seq![node.element] + link_view(node.next),
    }
}

impl<T> View for Node<T> {
    type V = Seq<T>;

    /// The sequence this node's chain holds, its own element first.
    closed spec fn view(&self) -> Seq<T> {
        seq![self.element] + link_view(self.next)
    }
}

impl<T> Node<T> {
    /// Generate a Node holding `x` with no successor.
    pub fn new(x: T) -> (r: Self)
        ensures
            r@ == seq![x],
    {
        let r = Node { element: x, next: None };
        proof {
            assert(r@ =~= seq![x]);
        }
        r
    }

    /// Chain a new head node holding `x` in front of `next`.
    fn new_link(x: T, next: Option<Box<Node<T>>>) -> (l: Option<Box<Node<T>>>)
        ensures
            link_view(l) == seq![x] + link_view(next),
    {
        Some(Box::new(Node { element: x, next }))
    }
}

/// Rebuild the chain with `x` appended after its last node.
fn append_link<T>(l: Option<Box<Node<T>>>, x: T) -> (r: Option<Box<Node<T>>>)
    ensures
        link_view(r) == link_view(l).push(x),
    decreases l,
{
    match l {
        None => {
            let r = Node::new_link(x, None);
            proof {
                assert(link_view(r) =~= link_view(l).push(x));
            }
            r
        },
        Some(node) => {
            let mut inner = *node;
            let ghost tail0 = inner.next;
            inner.next = append_link(inner.next, x);
            let r = Some(Box::new(inner));
            proof {
                assert(link_view(r) =~= (seq![inner.element] + link_view(tail0)).push(x));
            }
            r
        },
    }
}

/// Singly-Linked List represents an implementation of List.
pub struct SLList<T> {
    head: Option<Box<Node<T>>>,
    n: usize,
}

impl<T> View for SLList<T> {
    type V = Seq<T>;

    /// The sequence the list holds, head first.
    closed spec fn view(&self) -> Seq<T> {
        link_view(self.head)
    }
}

impl<T> SLList<T> {
    /// The stored element count agrees with the chain.
    pub closed spec fn well_formed(&self) -> bool {
        self.n == self@.len()
    }

    /// Generate empty SLList
    pub fn new() -> (r: Self)
        ensures
            r.well_formed(),
            r@ == Seq::<T>::empty(),
    {
        SLList { head: None, n: 0 }
    }

    /// Return the number of elements
    pub fn size(&self) -> (n: usize)
        requires
            self.well_formed(),
        ensures
            n == self@.len(),
    {
        self.n
    }

    /// Add `x` at the head of the list.
    pub fn push(&mut self, x: T)
        requires
            old(self).well_formed(),
            old(self)@.len() < usize::MAX,
        ensures
            final(self).well_formed(),
            final(self)@ == seq![x] + old(self)@,
    {
        let u = Node::new_link(x, self.head.take());
        self.head = u;
        self.n += 1;
    }

    /// Remove and return the head element, or `None` when the list is empty.
    pub fn pop(&mut self) -> (r: Option<T>)
        requires
            old(self).well_formed(),
        ensures
            final(self).well_formed(),
            old(self)@.len() == 0 ==> r is None && final(self)@ == old(self)@,
            old(self)@.len() > 0 ==> r == Some(old(self)@[0]) && final(self)@ == old(self)@.drop_first(),
    {
        match self.head.take() {
            Some(node) => {
                let node = *node;
                proof {
                    assert(old(self)@ == seq![node.element] + link_view(node.next));
                    assert(old(self)@.drop_first() =~= link_view(node.next));
                }
                self.head = node.next;
                self.n -= 1;
                Some(node.element)
            },
            None => None,
        }
    }

    /// Append `x` at the tail of the list.  Always succeeds.
    pub fn add(&mut self, x: T) -> (r: bool)
        requires
            old(self).well_formed(),
            old(self)@.len() < usize::MAX,
        ensures
            final(self).well_formed(),
            r == true,
            final(self)@ == old(self)@.push(x),
    {
        let l = self.head.take();
        self.head = append_link(l, x);
        self.n += 1;
        true
    }

    /// Remove and return the head element, or `None` when the list is empty.
    pub fn remove(&mut self) -> (r: Option<T>)
        requires
            old(self).well_formed(),
        ensures
            final(self).well_formed(),
            old(self)@.len() == 0 ==> r is None && final(self)@ == old(self)@,
            old(self)@.len() > 0 ==> r == Some(old(self)@[0]) && final(self)@ == old(self)@.drop_first(),
    {
        self.pop()
    }

    /// Borrow the head element, or `None` when the list is empty.
    pub fn first(&self) -> (r: Option<&T>)
        requires
            self.well_formed(),
        ensures
            self@.len() == 0 ==> r is None,
            self@.len() > 0 ==> r is Some && *r->0 == self@[0],
    {
        match &self.head {
            Some(node) => Some(&node.element),
            None => None,
        }
    }

    /// Borrow the tail element, or `None` when the list is empty.
    pub fn last(&self) -> (r: Option<&T>)
        requires
            self.well_formed(),
        ensures
            self@.len() == 0 ==> r is None,
            self@.len() > 0 ==> r is Some && *r->0 == self@.last(),
    {
        last_of_link(&self.head)
    }
}

/// Borrow the last element of a chain, or `None` when it is empty.
fn last_of_link<T>(l: &Option<Box<Node<T>>>) -> (r: Option<&T>)
    ensures
        link_view(*l).len() == 0 ==> r is None,
        link_view(*l).len() > 0 ==> r is Some && *r->0 == link_view(*l).last(),
    decreases *l,
{
    match l {
        None => None,
        Some(node) => {
            if node.next.is_some() {
                let r = last_of_link(&node.next);
                proof {
                    assert(link_view(*l).last() == link_view(node.next).last());
                }
                r
            } else {
                proof {
                    assert(link_view(*l).last() == node.element);
                }
                Some(&node.element)
            }
        },
    }
}

impl<T> Default for SLList<T> {
    /// An empty container, as `new` makes it.
    fn default() -> (r: Self)
        ensures
            r.well_formed(),
            r@ == Seq::<T>::empty(),
    {
        Self::new()
    }
}

} // verus!
