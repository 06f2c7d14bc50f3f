use bytekv::{Error, Stack};

#[test]
fn stack_clone() {
    let mut s1 = Stack::<i32, 3>::new();
    assert_eq!(s1.push(1), Ok(()));
    assert_eq!(s1.push(2), Ok(()));
    assert_eq!(s1.push(3), Ok(()));
    assert_eq!(s1.size(), 3);
    assert_eq!(s1.is_full(), true);
    assert_eq!(s1.is_empty(), false);

    let mut s2 = s1.clone();
    assert_eq!(s2.pop(), Some(3));
    assert_eq!(s2.pop(), Some(2));
    assert_eq!(s2.pop(), Some(1));
    assert_eq!(s2.size(), 0);
    assert_eq!(s2.is_full(), false);
    assert_eq!(s2.is_empty(), true);

    assert_eq!(s1.size(), 3);
    assert_eq!(s1.is_full(), true);
    assert_eq!(s1.is_empty(), false);
}

#[test]
fn stack() {
    let mut s = Stack::<i32, 3>::new();

    assert_eq!(s.size(), 0);
    assert_eq!(s.capacity(), 3);
    assert_eq!(s.is_full(), false);
    assert_eq!(s.is_empty(), true);
    assert_eq!(s.as_slice(), &[]);
    assert_eq!(s.as_mut_slice(), &[]);

    assert_eq!(s.pop(), None);

    assert_eq!(s.push(1), Ok(()));
    assert_eq!(s.peek(), Some(&1));
    assert_eq!(s.push(2), Ok(()));
    assert_eq!(s.peek(), Some(&2));
    assert_eq!(s.push(3), Ok(()));
    assert_eq!(s.peek(), Some(&3));
    assert_eq!(s.push(4), Err(Error::Full));
    assert_eq!(s.size(), 3);
    assert_eq!(s.is_full(), true);
    assert_eq!(s.is_empty(), false);
    assert_eq!(s.as_slice(), &[1, 2, 3]);
    assert_eq!(s.as_mut_slice(), &[1, 2, 3]);

    assert_eq!(s.pop(), Some(3));
    assert_eq!(s.peek(), Some(&2));
    assert_eq!(s.pop(), Some(2));
    assert_eq!(s.peek(), Some(&1));
    assert_eq!(s.pop(), Some(1));
    assert_eq!(s.as_slice(), &[]);
    assert_eq!(s.as_mut_slice(), &[]);

    assert_eq!(s.push(4), Ok(()));
    assert_eq!(s.peek(), Some(&4));
    assert_eq!(s.as_slice(), &[4]);
    assert_eq!(s.as_mut_slice(), &[4]);
    assert_eq!(s.push(5), Ok(()));
    assert_eq!(s.peek(), Some(&5));
    assert_eq!(s.as_slice(), &[4, 5]);
    assert_eq!(s.as_mut_slice(), &[4, 5]);
    assert_eq!(s.push(6), Ok(()));
    assert_eq!(s.peek(), Some(&6));
    assert_eq!(s.as_slice(), &[4, 5, 6]);
    assert_eq!(s.as_mut_slice(), &[4, 5, 6]);

    assert_eq!(s.pop(), Some(6));
    assert_eq!(s.peek(), Some(&5));
    assert_eq!(s.as_slice(), &[4, 5]);
    assert_eq!(s.as_mut_slice(), &[4, 5]);
    assert_eq!(s.pop(), Some(5));
    assert_eq!(s.peek(), Some(&4));
    assert_eq!(s.as_slice(), &[4]);
    assert_eq!(s.as_mut_slice(), &[4]);
    assert_eq!(s.pop(), Some(4));
    assert_eq!(s.peek(), None);
    assert_eq!(s.as_slice(), &[]);
    assert_eq!(s.as_mut_slice(), &[]);

    assert_eq!(s.pop(), None);
    assert_eq!(s.size(), 0);
    assert_eq!(s.capacity(), 3);
    assert_eq!(s.is_full(), false);
    assert_eq!(s.is_empty(), true);
}

#[test]
fn stack_mut_slice_writes_through() {
    let mut s = Stack::<i32, 2>::new();
    assert_eq!(s.push(1), Ok(()));
    assert_eq!(s.push(2), Ok(()));
    s.as_mut_slice()[0] = 10;
    assert_eq!(s.as_slice(), &[10, 2]);
    assert_eq!(s.pop(), Some(2));
    assert_eq!(s.pop(), Some(10));
}
