use linked_lists::third::List;

#[test]
fn third_basics() {
    let list = List::new();
    assert_eq!(list.head(), None);

    let list = list.append(1).append(2).append(3);
    assert_eq!(list.head(), Some(&3));

    let list = list.tail();
    assert_eq!(list.head(), Some(&2));

    let list = list.tail();
    assert_eq!(list.head(), Some(&1));

    let list = list.tail();
    assert_eq!(list.head(), None);

    // Make sure empty tail works
    let list = list.tail();
    assert_eq!(list.head(), None);
}

#[test]
fn third_iter() {
    let list = List::new().append(1).append(2).append(3);

    let mut iter = list.iter();
    assert_eq!(iter.next(), Some(&3));
    assert_eq!(iter.next(), Some(&2));
    assert_eq!(iter.next(), Some(&1));
}

#[test]
fn third_sharing_leaves_the_base_untouched() {
    let base = List::new().append(1).append(2).append(3);
    assert_eq!(base.head(), Some(&3));
    assert_eq!(base.tail().head(), Some(&2));

    let left = base.append(10);
    let right = base.tail().append(20);
    assert_eq!(left.head(), Some(&10));
    assert_eq!(left.tail().head(), Some(&3));
    assert_eq!(right.head(), Some(&20));
    assert_eq!(right.tail().head(), Some(&2));

    drop(left);
    let mut iter = base.iter();
    assert_eq!(iter.next(), Some(&3));
    assert_eq!(iter.next(), Some(&2));
    assert_eq!(iter.next(), Some(&1));
    assert_eq!(iter.next(), None);
    drop(base);
    let mut iter = right.iter();
    assert_eq!(iter.next(), Some(&20));
    assert_eq!(iter.next(), Some(&2));
    assert_eq!(iter.next(), Some(&1));
    assert_eq!(iter.next(), None);
}

#[test]
fn third_tails_past_the_end_stay_empty() {
    let mut list = List::new().append(1).append(2);
    for _ in 0..5 {
        list = list.tail();
    }
    assert_eq!(list.head(), None);
    assert_eq!(list.tail().head(), None);
    assert_eq!(list.iter().next(), None);
}

#[test]
fn third_drop_of_a_long_list() {
    let mut list = List::new();
    for i in 0..100_000u64 {
        list = list.append(i);
    }
    let shared = list.tail().tail();
    drop(list);
    assert_eq!(shared.head(), Some(&99_997));
    drop(shared);
}
