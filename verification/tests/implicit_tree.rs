use strutters::tree::BackingTree;
use strutters::tree::ImplicitTree;

#[test]
fn implicit_tree_test() {
    let mut tree = ImplicitTree::new(2);
    tree.set_root(0);
    assert_eq!(tree.get(tree.root()).unwrap(), 0);
    assert_eq!(tree.child(tree.root(), 1), 2);
    assert!(tree.insert_child(0, 0, 3).is_some());
    assert!(tree.insert_child(0, 1, 6).is_some());
    assert_eq!(tree.get(tree.child(tree.root(), 0)).unwrap(), 3);
    assert_eq!(tree.get(tree.child(tree.root(), 1)).unwrap(), 6);
    assert!(tree.insert_child(1, 0, 9).is_some());
    assert!(tree.insert_child(2, 1, 12).is_some());
    assert_eq!(tree.get(tree.child(1, 0)).unwrap(), 9);
    assert_eq!(tree.get(tree.child(2, 1)).unwrap(), 12);
    assert_eq!(tree.insert_child(8, 0, 0), None);
    assert_eq!(tree.parent(2), 0);
    assert_eq!(tree.get(tree.parent(2)).unwrap(), 0);
    tree.insert_unchecked(3, 4);
    assert_eq!(tree.get(3).unwrap(), 4);
}

#[test]
fn absent_nodes_read_as_none() {
    let mut tree: ImplicitTree<i32> = ImplicitTree::new(2);
    assert_eq!(tree.get(0), None);
    assert_eq!(tree.get(100), None);
    tree.insert_unchecked(5, 11);
    assert_eq!(tree.get(4), None);
    assert_eq!(tree.get(5), Some(11));
}

#[test]
fn wide_tree_addressing() {
    let mut tree = ImplicitTree::new(3);
    tree.set_root(1);
    assert_eq!(tree.child(0, 0), 1);
    assert_eq!(tree.child(0, 2), 3);
    assert_eq!(tree.child(1, 0), 4);
    assert_eq!(tree.parent(4), 1);
    assert_eq!(tree.parent(3), 0);
}
