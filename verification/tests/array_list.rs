use containers::array_deque::ArrayDeque;
use containers::array_queue::ArrayQueue;
use containers::array_stack::ArrayStack;

#[test]
fn array_deque_list_test() {
    let mut list: ArrayDeque<i32> = ArrayDeque::new();
    assert_eq!(list.size(), 0);
    assert_eq!(list.get(0), None);

    list.add(0, 2);
    assert_eq!(list.get(0), Some(&2));
    assert_eq!(list.size(), 1);

    list.add(0, 1);
    assert_eq!(list.get(0), Some(&1));
    assert_eq!(list.get(1), Some(&2));
    assert_eq!(list.size(), 2);

    assert_eq!(list.remove(0), Some(1));
    assert_eq!(list.get(0), Some(&2));
    assert_eq!(list.size(), 1);

    assert_eq!(list.set(0, 5), Some(2));
    assert_eq!(list.get(0), Some(&5));

    assert_eq!(list.remove(0), Some(5));
    assert_eq!(list.size(), 0);
    assert_eq!(list.get(0), None);
}

#[test]
fn queue_test() {
    let mut queue: ArrayQueue<i32> = ArrayQueue::new();
    assert_eq!(queue.add(1), true);
    assert_eq!(queue.add(2), true);
    assert_eq!(queue.add(3), true);
    assert_eq!(queue.remove(), Some(1));
    assert_eq!(queue.remove(), Some(2));
    assert_eq!(queue.remove(), Some(3));
    assert_eq!(queue.remove(), None);
}

#[test]
fn capacity_test() {
    // [Some(b), Some(r), Some(e), Some(d), None, None]
    let mut list: ArrayStack<char> = ArrayStack::with_capacity(6);
    assert_eq!(list.capacity(), 6);
    assert_eq!(list.size(), 0);
    list.add(0, 'b');
    list.add(1, 'r');
    list.add(2, 'e');
    list.add(3, 'd');
    assert_eq!(list.capacity(), 6);
    assert_eq!(list.size(), 4);

    list.add(2, 'e');
    assert_eq!(list.capacity(), 6);
    assert_eq!(list.size(), 5);
    list.add(5, 'r');
    assert_eq!(list.capacity(), 6);
    assert_eq!(list.size(), 6);
    list.add(5, 'e');
    assert_eq!(list.capacity(), 12);
    assert_eq!(list.size(), 7);

    assert_eq!(list.remove(4), Some('d'));
    assert_eq!(list.capacity(), 12);
    assert_eq!(list.size(), 6);
    assert_eq!(list.remove(4), Some('e'));
    assert_eq!(list.capacity(), 12);
    assert_eq!(list.size(), 5);
    assert_eq!(list.remove(4), Some('r'));
    assert_eq!(list.capacity(), 8);
    assert_eq!(list.size(), 4);
    assert_eq!(list.set(2, 'i'), Some('e'));
    // [Some(b), Some(r), Some(i), Some(e)]
    assert_eq!(list.get(0), Some(&'b'));
    assert_eq!(list.get(1), Some(&'r'));
    assert_eq!(list.get(2), Some(&'i'));
    assert_eq!(list.get(3), Some(&'e'));
}

#[test]
fn array_stack_list_test() {
    let mut list: ArrayStack<i32> = ArrayStack::new();
    assert_eq!(list.size(), 0);
    assert_eq!(list.get(0), None);

    list.add(0, 2);
    assert_eq!(list.get(0), Some(&2));
    assert_eq!(list.size(), 1);

    list.add(0, 1);
    assert_eq!(list.get(0), Some(&1));
    assert_eq!(list.get(1), Some(&2));
    assert_eq!(list.size(), 2);

    assert_eq!(list.remove(0), Some(1));
    assert_eq!(list.get(0), Some(&2));
    assert_eq!(list.size(), 1);

    assert_eq!(list.set(0, 5), Some(2));
    assert_eq!(list.get(0), Some(&5));

    assert_eq!(list.remove(0), Some(5));
    assert_eq!(list.size(), 0);
    assert_eq!(list.get(0), None);
}

#[test]
fn stack_test() {
    let mut stack: ArrayStack<i32> = ArrayStack::new();
    assert_eq!(stack.size(), 0);
    assert_eq!(stack.get(0), None);

    stack.push(2);
    assert_eq!(stack.get(0), Some(&2));
    assert_eq!(stack.size(), 1);

    stack.push(1);
    assert_eq!(stack.get(0), Some(&2));
    assert_eq!(stack.get(1), Some(&1));
    assert_eq!(stack.size(), 2);

    assert_eq!(stack.pop(), Some(1));
    assert_eq!(stack.get(0), Some(&2));
    assert_eq!(stack.size(), 1);

    assert_eq!(stack.pop(), Some(2));
    assert_eq!(stack.size(), 0);
    assert_eq!(stack.get(0), None);
}
