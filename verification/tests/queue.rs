use bytekv::{Error, Queue};

#[test]
fn queue_clone() {
    let mut q1 = Queue::<i32, 3>::new();
    assert_eq!(q1.push(1), Ok(()));
    assert_eq!(q1.push(2), Ok(()));
    assert_eq!(q1.push(3), Ok(()));
    assert_eq!(q1.size(), 3);
    assert_eq!(q1.is_full(), true);
    assert_eq!(q1.is_empty(), false);

    let mut q2 = q1.clone();
    assert_eq!(q2.pop(), Some(1));
    assert_eq!(q2.pop(), Some(2));
    assert_eq!(q2.pop(), Some(3));
    assert_eq!(q2.size(), 0);
    assert_eq!(q2.is_full(), false);
    assert_eq!(q2.is_empty(), true);

    assert_eq!(q1.size(), 3);
    assert_eq!(q1.is_full(), true);
    assert_eq!(q1.is_empty(), false);
}

#[test]
fn queue() {
    let mut q = Queue::<i32, 3>::new();

    assert_eq!(q.size(), 0);
    assert_eq!(q.capacity(), 3);
    assert_eq!(q.is_full(), false);
    assert_eq!(q.is_empty(), true);
    assert_eq!(q.peek(), None);

    assert_eq!(q.pop(), None);

    assert_eq!(q.push(1), Ok(()));
    assert_eq!(q.peek(), Some(&1));
    assert_eq!(q.push(2), Ok(()));
    assert_eq!(q.peek(), Some(&1));
    assert_eq!(q.push(3), Ok(()));
    assert_eq!(q.peek(), Some(&1));
    assert_eq!(q.push(4), Err(Error::Full));
    assert_eq!(q.size(), 3);
    assert_eq!(q.is_full(), true);
    assert_eq!(q.is_empty(), false);

    assert_eq!(q.pop(), Some(1));
    assert_eq!(q.peek(), Some(&2));
    assert_eq!(q.pop(), Some(2));
    assert_eq!(q.peek(), Some(&3));
    assert_eq!(q.pop(), Some(3));

    assert_eq!(q.push(4), Ok(()));
    assert_eq!(q.peek(), Some(&4));
    assert_eq!(q.push(5), Ok(()));
    assert_eq!(q.peek(), Some(&4));
    assert_eq!(q.push(6), Ok(()));
    assert_eq!(q.peek(), Some(&4));
    assert_eq!(q.push_overwrite(7), Some(4));
    assert_eq!(q.peek(), Some(&5));
    assert_eq!(q.push_overwrite(8), Some(5));
    assert_eq!(q.peek(), Some(&6));
    assert_eq!(q.push_overwrite(9), Some(6));
    assert_eq!(q.peek(), Some(&7));

    assert_eq!(q.pop(), Some(7));
    assert_eq!(q.peek(), Some(&8));
    assert_eq!(q.pop(), Some(8));
    assert_eq!(q.peek(), Some(&9));
    assert_eq!(q.pop(), Some(9));
    assert_eq!(q.peek(), None);

    assert_eq!(q.pop(), None);
    assert_eq!(q.size(), 0);
    assert_eq!(q.capacity(), 3);
    assert_eq!(q.is_full(), false);
    assert_eq!(q.is_empty(), true);
}

#[test]
fn queue_push_overwrite_below_capacity() {
    let mut q = Queue::<u8, 2>::new();
    assert_eq!(q.push_overwrite(10), None);
    assert_eq!(q.push_overwrite(20), None);
    assert_eq!(q.push_overwrite(30), Some(10));
    assert_eq!(q.pop(), Some(20));
    assert_eq!(q.pop(), Some(30));
    assert_eq!(q.pop(), None);
}
