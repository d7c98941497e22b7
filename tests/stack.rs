use algorithms::stack::Stack;

#[derive(PartialEq, Eq, Debug)]
struct TestStruct {
    a: i32,
}

#[test]
fn push_pop_ptrs() {
    let a = TestStruct { a: 5 };
    let b = TestStruct { a: 9 };

    let mut s = Stack::<&TestStruct>::new();
    assert_eq!(s.pop(), None);

    s.push(&a);
    s.push(&b);

    assert_eq!(s.pop(), Some(&b));
    assert_eq!(s.pop(), Some(&a));
    assert_eq!(s.pop(), None);
}

#[test]
fn push_pop_integers() {
    let mut s = Stack::<i32>::new();
    assert_eq!(s.pop(), None);
    s.push(5);
    s.push(11);
    assert_eq!(s.pop(), Some(11));
    assert_eq!(s.pop(), Some(5));
    assert_eq!(s.pop(), None);
}

#[test]
fn next_walks_last_in_first_out() {
    let mut s = Stack::<&str>::new();
    s.push("World");
    s.push("Hello");
    let mut v = Vec::new();
    while let Some(t) = s.next() {
        v.push(t);
    }
    assert_eq!(v, vec!["Hello", "World"]);
    assert_eq!(s.next(), None);
}

#[test]
fn drain_gives_values_top_first() {
    let mut s = Stack::<i32>::new();
    for v in [1, 2, 3] {
        s.push(v);
    }
    assert_eq!(s.drain(), vec![3, 2, 1]);
    assert!(Stack::<i32>::new().drain().is_empty());
}
