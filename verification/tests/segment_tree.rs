use strutters::operator::maximum;
use strutters::operator::minimum;
use strutters::operator::summation;
use strutters::tree::SegmentTree;

#[test]
fn segment_tree_test_summation() {
    let data: Vec<i64> = vec![1, 2, 3, 4, 5, 6, 7];
    let mut tree = SegmentTree::construct_implicit(data, summation());
    assert_eq!(tree.query(0, 3), 1 + 2 + 3 + 4);
    assert_eq!(tree.query(0, 6), 1 + 2 + 3 + 4 + 5 + 6 + 7);
    assert_eq!(tree.query(4, 6), 5 + 6 + 7);
    assert_eq!(tree.query(0, 0), 1);
    assert_eq!(tree.query(2, 3), 3 + 4);
    tree.update(6, 10);
    assert_eq!(tree.query(6, 6), 10);
    assert_eq!(tree.query(4, 6), 5 + 6 + 10);
    assert_eq!(tree.query(0, 6), 1 + 2 + 3 + 4 + 5 + 6 + 10);
}

#[test]
fn segment_tree_test_minimum() {
    let data: Vec<i64> = vec![1, 2, 3, 4, 5, 6, 7];
    let mut tree = SegmentTree::construct_implicit(data, minimum());
    assert_eq!(tree.query(0, 3), 1);
    assert_eq!(tree.query(0, 6), 1);
    assert_eq!(tree.query(4, 6), 5);
    assert_eq!(tree.query(0, 0), 1);
    assert_eq!(tree.query(2, 3), 3);
    tree.update(6, 10);
    assert_eq!(tree.query(6, 6), 10);
    assert_eq!(tree.query(4, 6), 5);
    assert_eq!(tree.query(0, 6), 1);
}

#[test]
fn segment_tree_maximum() {
    let data: Vec<i64> = vec![3, 1, 4, 1, 5, 9, 2, 6];
    let tree = SegmentTree::construct_implicit(data, maximum());
    assert_eq!(tree.query(0, 7), 9);
    assert_eq!(tree.query(0, 3), 4);
    assert_eq!(tree.query(6, 7), 6);
    assert_eq!(tree.query(3, 3), 1);
}

#[test]
fn construction_keeps_input_order() {
    let data: Vec<i64> = vec![10, 20, 30, 40, 50, 60];
    let tree = SegmentTree::construct_implicit(data, summation());
    for index in 0..6usize {
        assert_eq!(tree.query(index, index), (index as i64 + 1) * 10);
    }
    assert_eq!(tree.len(), 6);
}

#[test]
fn update_then_point_query() {
    let data: Vec<i64> = vec![5, 5, 5, 5];
    let mut tree = SegmentTree::construct_implicit(data, summation());
    tree.update(2, 42);
    assert_eq!(tree.query(2, 2), 42);
    assert_eq!(tree.query(0, 3), 5 + 5 + 42 + 5);
}

#[test]
fn single_element_tree() {
    let data: Vec<i64> = vec![13];
    let mut tree = SegmentTree::construct_implicit(data, summation());
    assert_eq!(tree.query(0, 0), 13);
    tree.update(0, -4);
    assert_eq!(tree.query(0, 0), -4);
}

#[test]
fn summation_wraps_at_the_edges() {
    let data: Vec<i64> = vec![i64::MAX, 1];
    let tree = SegmentTree::construct_implicit(data, summation());
    assert_eq!(tree.query(0, 1), i64::MIN);
}
