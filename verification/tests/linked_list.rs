use containers::simple_sl_list::SimpleSLList;
use containers::sl_list::SLList;

#[test]
fn simple_sl_list_test_stack() {
    let mut list: SimpleSLList<char> = SimpleSLList::new();
    list.push('a');
    list.push('b');
    list.push('c');
    list.push('d');
    list.push('e');
    assert_eq!(list.size(), 5);
    assert_eq!(list.first(), Some(&'e'));

    assert_eq!(list.pop(), Some('e'));
    assert_eq!(list.size(), 4);
    assert_eq!(list.first(), Some(&'d'));
    assert_eq!(list.pop(), Some('d'));
    assert_eq!(list.size(), 3);
    assert_eq!(list.first(), Some(&'c'));

    assert_eq!(list.pop(), Some('c'));
    assert_eq!(list.size(), 2);
    assert_eq!(list.first(), Some(&'b'));

    assert_eq!(list.pop(), Some('b'));
    assert_eq!(list.size(), 1);
    assert_eq!(list.first(), Some(&'a'));

    list.push('x');
    assert_eq!(list.size(), 2);
    assert_eq!(list.first(), Some(&'x'));

    assert_eq!(list.pop(), Some('x'));
    assert_eq!(list.size(), 1);
    assert_eq!(list.first(), Some(&'a'));

    assert_eq!(list.pop(), Some('a'));
    assert_eq!(list.size(), 0);
    assert_eq!(list.first(), None);

    assert_eq!(list.pop(), None);
    assert_eq!(list.size(), 0);
    assert_eq!(list.first(), None);
}

#[test]
fn sl_list_test_stack() {
    let mut list: SLList<char> = SLList::new();
    list.push('a');
    list.push('b');
    list.push('c');
    list.push('d');
    list.push('e');
    assert_eq!(list.size(), 5);
    assert_eq!(list.first(), Some(&'e'));
    assert_eq!(list.last(), Some(&'a'));

    assert_eq!(list.pop(), Some('e'));
    assert_eq!(list.size(), 4);
    assert_eq!(list.first(), Some(&'d'));
    assert_eq!(list.last(), Some(&'a'));
    assert_eq!(list.pop(), Some('d'));
    assert_eq!(list.size(), 3);
    assert_eq!(list.first(), Some(&'c'));
    assert_eq!(list.last(), Some(&'a'));

    assert_eq!(list.pop(), Some('c'));
    assert_eq!(list.size(), 2);
    assert_eq!(list.first(), Some(&'b'));
    assert_eq!(list.last(), Some(&'a'));

    assert_eq!(list.pop(), Some('b'));
    assert_eq!(list.size(), 1);
    assert_eq!(list.first(), Some(&'a'));
    assert_eq!(list.last(), Some(&'a'));

    list.push('x');
    assert_eq!(list.size(), 2);
    assert_eq!(list.first(), Some(&'x'));
    assert_eq!(list.last(), Some(&'a'));

    assert_eq!(list.pop(), Some('x'));
    assert_eq!(list.size(), 1);
    assert_eq!(list.first(), Some(&'a'));
    assert_eq!(list.last(), Some(&'a'));

    assert_eq!(list.pop(), Some('a'));
    assert_eq!(list.size(), 0);
    assert_eq!(list.first(), None);
    assert_eq!(list.last(), None);

    assert_eq!(list.pop(), None);
    assert_eq!(list.size(), 0);
    assert_eq!(list.first(), None);
    assert_eq!(list.last(), None);
}

#[test]
fn test_queue() {
    let mut list: SLList<char> = SLList::new();
    list.add('a');
    assert_eq!(list.size(), 1);
    assert_eq!(list.remove(), Some('a'));
    list.add('a');
    list.add('b');
    list.add('c');
    list.add('d');
    list.add('e');
    assert_eq!(list.size(), 5);
    assert_eq!(list.first(), Some(&'a'));
    assert_eq!(list.last(), Some(&'e'));

    assert_eq!(list.remove(), Some('a'));
    assert_eq!(list.size(), 4);

    assert_eq!(list.first(), Some(&'b'));
    assert_eq!(list.last(), Some(&'e'));
    assert_eq!(list.remove(), Some('b'));
    assert_eq!(list.size(), 3);
    assert_eq!(list.first(), Some(&'c'));
    assert_eq!(list.last(), Some(&'e'));

    assert_eq!(list.remove(), Some('c'));
    assert_eq!(list.size(), 2);
    assert_eq!(list.first(), Some(&'d'));
    assert_eq!(list.last(), Some(&'e'));

    assert_eq!(list.remove(), Some('d'));
    assert_eq!(list.size(), 1);
    assert_eq!(list.first(), Some(&'e'));
    assert_eq!(list.last(), Some(&'e'));

    list.add('x');
    assert_eq!(list.size(), 2);
    assert_eq!(list.first(), Some(&'e'));
    assert_eq!(list.last(), Some(&'x'));

    assert_eq!(list.remove(), Some('e'));
    assert_eq!(list.size(), 1);
    assert_eq!(list.first(), Some(&'x'));
    assert_eq!(list.last(), Some(&'x'));

    assert_eq!(list.remove(), Some('x'));
    assert_eq!(list.size(), 0);
    assert_eq!(list.first(), None);
    assert_eq!(list.last(), None);

    assert_eq!(list.remove(), None);
    assert_eq!(list.size(), 0);
    assert_eq!(list.first(), None);
    assert_eq!(list.last(), None);
}
