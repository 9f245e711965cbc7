use containers::array_deque::ArrayDeque;
use containers::array_queue::ArrayQueue;
use containers::array_stack::ArrayStack;
use containers::simple_sl_list::SimpleSLList;
use containers::sl_list::SLList;

#[test]
fn deque_fifo_usage() {
    let mut q: ArrayDeque<i32> = ArrayDeque::new();
    let n = q.size();
    q.add(n, 1);
    let n = q.size();
    q.add(n, 2);
    let n = q.size();
    q.add(n, 3);
    assert_eq!(q.remove(0), Some(1));
    assert_eq!(q.remove(0), Some(2));
    assert_eq!(q.remove(0), Some(3));
    assert_eq!(q.remove(0), None);
    assert_eq!(q.size(), 0);
}

#[test]
fn deque_capacity_growth_and_shrink() {
    let mut q: ArrayDeque<i32> = ArrayDeque::new();
    assert_eq!(q.capacity(), 0);
    // Growing doubles the buffer (from one slot upward).
    let expected_caps = [1, 2, 4, 4, 8, 8, 8, 8, 16];
    for v in 1..=9 {
        let n = q.size();
        q.add(n, v);
        assert_eq!(q.capacity(), expected_caps[(v - 1) as usize]);
    }
    // Shrinking halves lazily: only when under a third of the slots is used.
    assert_eq!(q.remove(0), Some(1));
    assert_eq!(q.capacity(), 16);
    assert_eq!(q.remove(0), Some(2));
    assert_eq!(q.capacity(), 16);
    assert_eq!(q.remove(0), Some(3));
    assert_eq!(q.capacity(), 16);
    assert_eq!(q.remove(0), Some(4));
    assert_eq!(q.capacity(), 10);
    assert_eq!(q.remove(0), Some(5));
    assert_eq!(q.capacity(), 10);
    assert_eq!(q.remove(0), Some(6));
    assert_eq!(q.capacity(), 6);
    assert_eq!(q.size(), 3);
    // Add/remove alternation right at the shrink boundary: after the one
    // reallocation above, no further reallocation happens.
    for v in [10, 11, 12] {
        let n = q.size();
        q.add(n, v);
        assert_eq!(q.capacity(), 6);
        assert_eq!(q.remove(n), Some(v));
        assert_eq!(q.capacity(), 6);
    }
    // A full buffer of six doubles to twelve on the seventh insertion.
    for v in [13, 14, 15] {
        let n = q.size();
        q.add(n, v);
    }
    assert_eq!(q.size(), 6);
    assert_eq!(q.capacity(), 6);
    let n = q.size();
    q.add(n, 16);
    assert_eq!(q.size(), 7);
    assert_eq!(q.capacity(), 12);
    assert_eq!(q.get(0), Some(&7));
    assert_eq!(q.get(6), Some(&16));
}

#[test]
fn deque_mid_removal_back_half() {
    let mut q: ArrayDeque<i32> = ArrayDeque::new();
    for v in [10, 20, 30, 40, 50, 60] {
        let n = q.size();
        q.add(n, v);
    }
    // Removing in the back half shifts only the back; the front stays put.
    assert_eq!(q.remove(4), Some(50));
    assert_eq!(q.size(), 5);
    assert_eq!(q.get(0), Some(&10));
    assert_eq!(q.get(1), Some(&20));
    assert_eq!(q.get(2), Some(&30));
    assert_eq!(q.get(3), Some(&40));
    assert_eq!(q.get(4), Some(&60));
}

#[test]
fn deque_wrap_around_indexing() {
    let mut q: ArrayDeque<i32> = ArrayDeque::new();
    for v in [1, 2, 3, 4] {
        let n = q.size();
        q.add(n, v);
    }
    assert_eq!(q.capacity(), 4);
    assert_eq!(q.remove(0), Some(1));
    // The next append wraps around the end of the four-slot buffer.
    q.add(3, 5);
    assert_eq!(q.capacity(), 4);
    assert_eq!(q.get(0), Some(&2));
    assert_eq!(q.get(3), Some(&5));
    // Inserting at the very front moves the head offset back.
    q.add(0, 9);
    assert_eq!(q.get(0), Some(&9));
    assert_eq!(q.get(1), Some(&2));
    // A front-half insertion shifts only the elements before it.
    q.add(1, 7);
    assert_eq!(q.get(0), Some(&9));
    assert_eq!(q.get(1), Some(&7));
    assert_eq!(q.get(2), Some(&2));
    assert_eq!(q.get(3), Some(&3));
    assert_eq!(q.get(4), Some(&4));
    assert_eq!(q.get(5), Some(&5));
    assert_eq!(q.get(6), None);
}

#[test]
fn deque_set_get_round_trip() {
    let mut q: ArrayDeque<i32> = ArrayDeque::new();
    q.add(0, 2);
    q.add(0, 1);
    assert_eq!(q.set(1, 5), Some(2));
    assert_eq!(q.get(1), Some(&5));
    assert_eq!(q.get(0), Some(&1));
}

#[test]
fn array_queue_wrap_around() {
    let mut q: ArrayQueue<i32> = ArrayQueue::new();
    for v in [1, 2, 3, 4] {
        q.add(v);
    }
    assert_eq!(q.remove(), Some(1));
    assert_eq!(q.remove(), Some(2));
    // These two appends reuse the vacated front slots.
    q.add(5);
    q.add(6);
    assert_eq!(q.capacity(), 4);
    assert_eq!(q.size(), 4);
    assert_eq!(q.get(0), Some(&3));
    assert_eq!(q.get(1), Some(&4));
    assert_eq!(q.get(2), Some(&5));
    assert_eq!(q.get(3), Some(&6));
    assert_eq!(q.set(2, 50), Some(5));
    assert_eq!(q.get(2), Some(&50));
}

#[test]
fn array_stack_set_round_trip_and_empty() {
    let mut s: ArrayStack<i32> = ArrayStack::new();
    assert_eq!(s.pop(), None);
    assert_eq!(s.remove(3), None);
    assert_eq!(s.size(), 0);
    s.push(8);
    assert_eq!(s.set(0, 9), Some(8));
    assert_eq!(s.get(0), Some(&9));
    assert_eq!(s.pop(), Some(9));
    assert_eq!(s.pop(), None);
}

#[test]
fn linked_list_defaults_empty() {
    let mut a: SimpleSLList<i32> = SimpleSLList::default();
    assert_eq!(a.size(), 0);
    assert_eq!(a.pop(), None);
    let mut b: SLList<i32> = SLList::default();
    assert_eq!(b.size(), 0);
    assert_eq!(b.remove(), None);
    let c: ArrayDeque<i32> = ArrayDeque::default();
    assert_eq!(c.size(), 0);
    assert_eq!(c.capacity(), 0);
    let d: ArrayQueue<i32> = ArrayQueue::default();
    assert_eq!(d.size(), 0);
    let e: ArrayStack<i32> = ArrayStack::default();
    assert_eq!(e.size(), 0);
}
