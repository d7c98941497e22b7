use algorithms::binarytree::BinaryTree;

fn count(t: &BinaryTree<i32>) -> usize {
    let here = if t.value().is_some() { 1 } else { 0 };
    here + t.left().map_or(0, count) + t.right().map_or(0, count)
}

fn in_order(t: &BinaryTree<i32>, out: &mut Vec<i32>) {
    if let Some(l) = t.left() {
        in_order(l, out);
    }
    if let Some(v) = t.value() {
        out.push(v);
    }
    if let Some(r) = t.right() {
        in_order(r, out);
    }
}

fn no_hollow_child(t: &BinaryTree<i32>) -> bool {
    let children = [t.left(), t.right()];
    if t.value().is_none() && children.iter().any(|c| c.is_some()) {
        return false;
    }
    children
        .iter()
        .flatten()
        .all(|c| c.value().is_some() && no_hollow_child(c))
}

#[test]
fn insert() {
    let mut t = BinaryTree::<i32>::new();
    assert!(t.insert(3).is_ok());
    assert!(t.insert(5).is_ok());
    assert_eq!(t.value().unwrap(), 3);
    assert_eq!(t.right().unwrap().value().unwrap(), 5);
}

#[test]
fn duplicate() {
    let mut t = BinaryTree::<i32>::new();
    assert!(t.insert(3).is_ok());
    assert!(t.insert(3).is_err());
    assert!(t.insert(3).is_err());
    assert!(t.insert(5).is_ok());
    assert!(t.insert(5).is_err());
    assert!(t.insert(3).is_err());
    assert!(t.insert(5).is_err());
}

#[test]
fn remove_no_children() {
    let mut t = BinaryTree::<i32>::new();
    // Set the tree up how we want.
    assert!(t.insert(3).is_ok());
    assert!(t.insert(5).is_ok());

    // Check it's how we expect.
    assert_eq!(t.value().unwrap(), 3);
    assert_eq!(t.right().unwrap().value().unwrap(), 5);

    // Remove the leaf node.
    assert!(t.remove(5).is_ok());

    // Check the root no longer points anywhere.
    assert!(t.left().is_none());
    assert!(t.right().is_none());

    // Remove the root.
    assert!(t.remove(3).is_ok());

    // Check it's now empty.
    assert!(t.value().is_none());
}

#[test]
fn remove_left_child() {
    let mut t = BinaryTree::<i32>::new();
    assert!(t.insert(3).is_ok());
    assert!(t.insert(1).is_ok());

    assert_eq!(t.value().unwrap(), 3);
    assert_eq!(t.left().unwrap().value().unwrap(), 1);

    // Remove the root node.
    assert!(t.remove(3).is_ok());

    // The root now holds 1, and nothing else.
    assert_eq!(t.value().unwrap(), 1);
    assert!(t.left().is_none());
    assert!(t.right().is_none());
}

#[test]
fn remove_right_child() {
    let mut t = BinaryTree::<i32>::new();
    assert!(t.insert(3).is_ok());
    assert!(t.insert(5).is_ok());

    assert_eq!(t.value().unwrap(), 3);
    assert_eq!(t.right().unwrap().value().unwrap(), 5);

    // Remove the root node.
    assert!(t.remove(3).is_ok());

    // The root now holds 5, and nothing else.
    assert_eq!(t.value().unwrap(), 5);
    assert!(t.left().is_none());
    assert!(t.right().is_none());
}

#[test]
fn remove_both_children() {
    let mut t = BinaryTree::<i32>::new();
    assert!(t.insert(3).is_ok());
    assert!(t.insert(5).is_ok());
    assert!(t.insert(1).is_ok());

    assert_eq!(t.value().unwrap(), 3);
    assert_eq!(t.left().unwrap().value().unwrap(), 1);
    assert_eq!(t.right().unwrap().value().unwrap(), 5);

    // Remove the root node.
    assert!(t.remove(3).is_ok());

    assert_eq!(t.value().unwrap(), 1);
    assert_eq!(t.right().unwrap().value().unwrap(), 5);
    assert!(t.left().is_none());
}

#[test]
fn remove_nonexistent() {
    let mut t = BinaryTree::<i32>::new();
    assert!(t.remove(14).is_err());
    assert!(t.insert(3).is_ok());
    assert!(t.insert(5).is_ok());
    assert!(t.insert(1).is_ok());
    assert!(t.remove(14).is_err());
    assert!(t.remove(0).is_err());
    assert!(t.insert(14).is_ok());
    assert!(t.remove(14).is_ok());
}

#[test]
fn remove_left() {
    let mut t = BinaryTree::<i32>::new();
    assert!(t.insert(3).is_ok());
    assert!(t.insert(5).is_ok());
    assert!(t.insert(1).is_ok());

    assert!(t.remove(1).is_ok());
}

#[test]
fn remove_recursive_collapse() {
    let mut t = BinaryTree::<i32>::new();
    assert!(t.insert(5).is_ok());
    assert!(t.insert(3).is_ok());
    assert!(t.insert(1).is_ok());
    assert!(t.insert(4).is_ok());
    assert!(t.insert(8).is_ok());

    assert_eq!(t.value().unwrap(), 5);
    assert_eq!(t.left().unwrap().value().unwrap(), 3);
    assert_eq!(t.left().unwrap().left().unwrap().value().unwrap(), 1);
    assert_eq!(t.left().unwrap().right().unwrap().value().unwrap(), 4);
    assert_eq!(t.right().unwrap().value().unwrap(), 8);

    // Remove the root.
    assert!(t.remove(5).is_ok());

    assert_eq!(t.value().unwrap(), 4);
    assert_eq!(t.left().unwrap().value().unwrap(), 3);
    assert_eq!(t.left().unwrap().left().unwrap().value().unwrap(), 1);
    assert!(t.left().unwrap().right().is_none());
    assert_eq!(t.right().unwrap().value().unwrap(), 8);
}

#[test]
fn insert_returns_the_value_and_duplicate_returns_the_stored_one() {
    let mut t = BinaryTree::<i32>::new();
    assert_eq!(t.insert(3), Ok(3));
    assert_eq!(t.insert(3), Err(3));
    assert_eq!(count(&t), 1);
    assert_eq!(t.value(), Some(3));
    assert!(t.left().is_none());
    assert!(t.right().is_none());
}

#[test]
fn remove_returns_the_value_or_echoes_the_input() {
    let mut t = BinaryTree::<i32>::new();
    assert_eq!(t.remove(14), Err(14));
    for v in [3, 5, 1] {
        assert_eq!(t.insert(v), Ok(v));
    }
    assert_eq!(t.remove(14), Err(14));
    assert_eq!(t.remove(0), Err(0));
    assert_eq!(t.remove(5), Ok(5));
    assert_eq!(t.remove(5), Err(5));
}

#[test]
fn in_order_is_strictly_increasing_after_inserts() {
    let mut t = BinaryTree::<i32>::new();
    for v in [50, 20, 80, 10, 30, 70, 90, 25, 35, 20, 75, -5, 80] {
        let _ = t.insert(v);
    }
    let mut seen = Vec::new();
    in_order(&t, &mut seen);
    assert_eq!(seen, vec![-5, 10, 20, 25, 30, 35, 50, 70, 75, 80, 90]);
}

#[test]
fn remove_then_remove_fails_and_insert_succeeds() {
    let mut t = BinaryTree::<i32>::new();
    for v in [5, 3, 8, 1, 4] {
        assert!(t.insert(v).is_ok());
    }
    assert_eq!(t.remove(3), Ok(3));
    assert_eq!(t.remove(3), Err(3));
    assert_eq!(t.insert(3), Ok(3));
    assert_eq!(count(&t), 5);
}

#[test]
fn node_count_follows_successful_operations() {
    let mut t = BinaryTree::<i32>::new();
    assert_eq!(count(&t), 0);
    assert!(t.insert(7).is_ok());
    assert!(t.insert(2).is_ok());
    assert!(t.insert(9).is_ok());
    assert_eq!(count(&t), 3);
    assert!(t.insert(2).is_err());
    assert_eq!(count(&t), 3);
    assert!(t.remove(4).is_err());
    assert_eq!(count(&t), 3);
    assert!(t.remove(7).is_ok());
    assert_eq!(count(&t), 2);
    assert!(t.remove(2).is_ok());
    assert!(t.remove(9).is_ok());
    assert_eq!(count(&t), 0);
    assert!(t.value().is_none());
}

#[test]
fn no_hollow_nodes_after_removals() {
    let mut t = BinaryTree::<i32>::new();
    for v in [50, 20, 80, 10, 30, 70, 90, 25, 35, 75] {
        assert!(t.insert(v).is_ok());
    }
    for v in [20, 90, 50, 10, 75, 35, 30, 80, 25, 70] {
        assert_eq!(t.remove(v), Ok(v));
        assert!(no_hollow_child(&t));
    }
    assert!(t.value().is_none());
    assert!(t.left().is_none());
    assert!(t.right().is_none());
}

#[test]
fn predecessor_with_left_child_keeps_its_subtree() {
    let mut t = BinaryTree::<i32>::new();
    for v in [10, 5, 15, 8, 7] {
        assert!(t.insert(v).is_ok());
    }
    assert_eq!(t.remove(10), Ok(10));
    assert_eq!(t.value(), Some(8));
    assert_eq!(t.left().unwrap().value(), Some(5));
    assert_eq!(t.left().unwrap().right().unwrap().value(), Some(7));
    assert_eq!(t.right().unwrap().value(), Some(15));
    let mut seen = Vec::new();
    in_order(&t, &mut seen);
    assert_eq!(seen, vec![5, 7, 8, 15]);
}

#[test]
fn predecessor_is_left_child_with_its_own_left() {
    let mut t = BinaryTree::<i32>::new();
    for v in [3, 1, 5, 0] {
        assert!(t.insert(v).is_ok());
    }
    assert_eq!(t.remove(3), Ok(3));
    assert_eq!(t.value(), Some(1));
    assert_eq!(t.left().unwrap().value(), Some(0));
    assert_eq!(t.right().unwrap().value(), Some(5));
    assert_eq!(count(&t), 3);
}
