use linked_lists::second::List;

#[test]
fn second_basics() {
    let mut list = List::new();

    assert_eq!(list.pop(), None);

    list.push(1);
    list.push(2);
    list.push(3);

    assert_eq!(list.pop(), Some(3));
    assert_eq!(list.pop(), Some(2));

    list.push(4);
    list.push(5);

    assert_eq!(list.pop(), Some(5));
    assert_eq!(list.pop(), Some(4));

    assert_eq!(list.pop(), Some(1));
    assert_eq!(list.pop(), None);
}

#[test]
fn second_peek() {
    let mut list = List::new();
    assert_eq!(list.peek(), None);
    assert_eq!(list.peek_mut(), None);

    list.push(1);
    list.push(2);
    list.push(3);

    assert_eq!(list.peek(), Some(&3));
    assert_eq!(list.peek_mut(), Some(&mut 3));
}

#[test]
fn second_into_iter() {
    let mut list = List::new();
    list.push(1);
    list.push(2);
    list.push(3);

    let mut iter = list.into_iter();
    assert_eq!(iter.next(), Some(3));
    assert_eq!(iter.next(), Some(2));
    assert_eq!(iter.next(), Some(1));
}

#[test]
fn second_iter() {
    let mut list = List::new();
    list.push(1);
    list.push(2);
    list.push(3);

    let mut iter = list.iter();
    assert_eq!(iter.next(), Some(&3));
    assert_eq!(iter.next(), Some(&2));
    assert_eq!(iter.next(), Some(&1));
}

#[test]
fn iter_mut() {
    let mut list = List::new();
    list.push(1);
    list.push(2);
    list.push(3);

    let mut iter_mut = list.iter_mut();
    assert_eq!(iter_mut.next(), Some(&mut 3));
    assert_eq!(iter_mut.next(), Some(&mut 2));
    assert_eq!(iter_mut.next(), Some(&mut 1));
}

#[test]
fn second_writes_through_peek_mut_and_iter_mut() {
    let mut list = List::new();
    list.push(1);
    list.push(2);
    if let Some(top) = list.peek_mut() {
        *top = 20;
    }
    assert_eq!(list.peek(), Some(&20));

    let mut it = list.iter_mut();
    while let Some(v) = it.next() {
        *v *= 10;
    }
    let mut iter = list.iter();
    assert_eq!(iter.next(), Some(&200));
    assert_eq!(iter.next(), Some(&10));
    assert_eq!(iter.next(), None);
    assert_eq!(iter.next(), None);
}

#[test]
fn second_iter_is_fresh_each_time_and_into_iter_ends() {
    let mut list = List::new();
    list.push(String::from("a"));
    list.push(String::from("b"));
    for _ in 0..2 {
        let mut iter = list.iter();
        assert_eq!(iter.next().map(|s| s.as_str()), Some("b"));
        assert_eq!(iter.next().map(|s| s.as_str()), Some("a"));
        assert_eq!(iter.next(), None);
    }
    let mut into = list.into_iter();
    assert_eq!(into.next(), Some(String::from("b")));
    assert_eq!(into.next(), Some(String::from("a")));
    assert_eq!(into.next(), None);
    assert_eq!(into.next(), None);
}

#[test]
fn second_drop_of_a_long_stack() {
    let mut list = List::new();
    for i in 0..100_000u64 {
        list.push(i);
    }
    drop(list);
}
