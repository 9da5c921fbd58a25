use linked_lists::first::List;

#[test]
fn first_basics() {
    let mut list = List::new();

    // Check empty list behaves right
    assert_eq!(list.pop(), None);

    // Populate list
    list.push(1);
    list.push(2);
    list.push(3);

    // Check normal removal
    assert_eq!(list.pop(), Some(3));
    assert_eq!(list.pop(), Some(2));

    // Push some more just to make sure nothing's corrupted
    list.push(4);
    list.push(5);

    // Check normal removal
    assert_eq!(list.pop(), Some(5));
    assert_eq!(list.pop(), Some(4));

    // Check exhaustion
    assert_eq!(list.pop(), Some(1));
    assert_eq!(list.pop(), None);
}

#[test]
fn first_pops_on_empty_stay_empty() {
    let mut list = List::new();
    for _ in 0..5 {
        assert_eq!(list.pop(), None);
    }
    list.push(7);
    assert_eq!(list.pop(), Some(7));
    assert_eq!(list.pop(), None);
    assert_eq!(list.pop(), None);
}

#[test]
fn first_pops_come_back_in_reverse() {
    let mut list = List::new();
    for i in 0..10 {
        list.push(i);
    }
    for i in (0..10).rev() {
        assert_eq!(list.pop(), Some(i));
    }
    assert_eq!(list.pop(), None);
}

#[test]
fn first_drop_of_a_long_stack() {
    let mut list = List::new();
    for i in 0..100_000 {
        list.push(i);
    }
    drop(list);
}
