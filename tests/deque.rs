use linked_lists::fourth::List;

#[test]
fn basics_simple() {
    let mut list = List::new();

    // Check empty list behaves right
    assert_eq!(list.pop_front(), None);

    // Populate list
    list.push_front(1);
    list.push_front(2);
    list.push_front(3);

    // Check normal removal
    assert_eq!(list.pop_front(), Some(3));
    assert_eq!(list.pop_front(), Some(2));

    // Push some more just to make sure nothing's corrupted
    list.push_front(4);
    list.push_front(5);

    // Check normal removal
    assert_eq!(list.pop_front(), Some(5));
    assert_eq!(list.pop_front(), Some(4));

    // Check exhaustion
    assert_eq!(list.pop_front(), Some(1));
    assert_eq!(list.pop_front(), None);
}

#[test]
fn peek_simple() {
    let mut list = List::new();
    assert!(list.peek_front().is_none());
    list.push_front(1);
    list.push_front(2);
    list.push_front(3);
    assert_eq!(&*list.peek_front().unwrap(), &3);
}

#[test]
fn fourth_basics() {
    let mut list = List::new();

    // Check empty list behaves right
    assert_eq!(list.pop_front(), None);

    // Populate list
    list.push_front(1);
    list.push_front(2);
    list.push_front(3);

    // Check normal removal
    assert_eq!(list.pop_front(), Some(3));
    assert_eq!(list.pop_front(), Some(2));

    // Push some more just to make sure nothing's corrupted
    list.push_front(4);
    list.push_front(5);

    // Check normal removal
    assert_eq!(list.pop_front(), Some(5));
    assert_eq!(list.pop_front(), Some(4));

    // Check exhaustion
    assert_eq!(list.pop_front(), Some(1));
    assert_eq!(list.pop_front(), None);

    // ---- back -----

    // Check empty list behaves right
    assert_eq!(list.pop_front(), None);

    // Populate list
    list.push_back(1);
    list.push_back(2);
    list.push_back(3);

    // Check normal removal
    assert_eq!(list.pop_back(), Some(3));
    assert_eq!(list.pop_back(), Some(2));

    // Push some more just to make sure nothing's corrupted
    list.push_back(4);
    list.push_back(5);

    // Check normal removal
    assert_eq!(list.pop_back(), Some(5));
    assert_eq!(list.pop_back(), Some(4));

    // Check exhaustion
    assert_eq!(list.pop_back(), Some(1));
    assert_eq!(list.pop_back(), None);
}

#[test]
fn fourth_peek() {
    let mut list = List::new();
    assert!(list.peek_front().is_none());
    assert!(list.peek_back().is_none());
    assert!(list.peek_front_mut().is_none());
    assert!(list.peek_back_mut().is_none());

    list.push_front(1);
    list.push_front(2);
    list.push_front(3);

    assert_eq!(&*list.peek_front().unwrap(), &3);
    assert_eq!(&mut *list.peek_front_mut().unwrap(), &mut 3);
    assert_eq!(&*list.peek_back().unwrap(), &1);
    assert_eq!(&mut *list.peek_back_mut().unwrap(), &mut 1);
}

#[test]
fn fourth_into_iter() {
    let mut list = List::new();
    list.push_front(1);
    list.push_front(2);
    list.push_front(3);

    let mut iter = list.into_iter();
    assert_eq!(iter.next(), Some(3));
    assert_eq!(iter.next_back(), Some(1));
    assert_eq!(iter.next(), Some(2));
    assert_eq!(iter.next_back(), None);
    assert_eq!(iter.next(), None);
}

#[test]
fn fourth_peek_mut_is_seen_by_the_next_peek() {
    let mut list = List::new();
    list.push_front(3);
    list.push_front(2);
    list.push_front(1);
    *list.peek_front_mut().unwrap() = 42;
    assert_eq!(list.peek_front(), Some(&42));
    *list.peek_back_mut().unwrap() = 7;
    assert_eq!(list.peek_back(), Some(&7));
    assert_eq!(list.pop_front(), Some(42));
    assert_eq!(list.pop_front(), Some(2));
    assert_eq!(list.pop_front(), Some(7));
    assert_eq!(list.pop_front(), None);
}

#[test]
fn fourth_mixed_ends_and_slot_reuse() {
    let mut list = List::new();
    for _ in 0..3 {
        assert_eq!(list.pop_back(), None);
        assert_eq!(list.pop_front(), None);
    }
    for round in 0..3 {
        for i in 0..5 {
            list.push_back(round * 10 + i);
        }
        // back pushes come out of the front in order
        for i in 0..5 {
            assert_eq!(list.pop_front(), Some(round * 10 + i));
        }
        for i in 0..5 {
            list.push_front(round * 10 + i);
        }
        // front pushes come out of the back in order
        for i in 0..5 {
            assert_eq!(list.pop_back(), Some(round * 10 + i));
        }
        assert_eq!(list.pop_back(), None);
        assert!(list.peek_front().is_none());
        assert!(list.peek_back().is_none());
    }
    list.push_back(2);
    list.push_front(1);
    list.push_back(3);
    let mut iter = list.iter();
    assert_eq!(iter.next(), Some(&1));
    assert_eq!(iter.next(), Some(&2));
    assert_eq!(iter.next(), Some(&3));
    assert_eq!(iter.next(), None);
    assert_eq!(list.peek_front(), Some(&1));
    assert_eq!(list.peek_back(), Some(&3));
}

#[test]
fn fourth_owned_values_move_out() {
    let mut list = List::new();
    list.push_back(String::from("b"));
    list.push_front(String::from("a"));
    list.push_back(String::from("c"));
    let mut iter = list.into_iter();
    assert_eq!(iter.next_back(), Some(String::from("c")));
    assert_eq!(iter.next(), Some(String::from("a")));
    assert_eq!(iter.next_back(), Some(String::from("b")));
    assert_eq!(iter.next(), None);
}

#[test]
fn fourth_drop_of_a_long_deque() {
    let mut list = List::new();
    for i in 0..100_000u64 {
        if i % 2 == 0 {
            list.push_back(i);
        } else {
            list.push_front(i);
        }
    }
    drop(list);
}
