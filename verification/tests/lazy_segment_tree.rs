use strutters::operator::minimum;
use strutters::operator::summation;
use strutters::tree::LazySegmentTree;
use strutters::tree::delta::AdditiveSifter;
use strutters::tree::delta::OverwritingSifter;

#[test]
fn lazy_segment_tree_test_summation() {
    let data: Vec<i64> = vec![1, 2, 3, 4, 5, 6, 7];
    let mut tree = LazySegmentTree::construct_implicit(data, summation(), AdditiveSifter);
    assert_eq!(tree.query(0, 3), 1 + 2 + 3 + 4);
    assert_eq!(tree.query(0, 6), 1 + 2 + 3 + 4 + 5 + 6 + 7);
    assert_eq!(tree.query(4, 6), 5 + 6 + 7);
    assert_eq!(tree.query(0, 0), 1);
    assert_eq!(tree.query(2, 3), 3 + 4);
    tree.update_range(0, 6, &5);
    assert_eq!(tree.query(6, 6), 12);
    assert_eq!(tree.query(4, 6), 10 + 11 + 12);
    assert_eq!(tree.query(0, 6), 6 + 7 + 8 + 9 + 10 + 11 + 12);
    assert_eq!(tree.query(2, 3), 8 + 9);
    tree.update_range(0, 6, &-2);
    tree.update_range(0, 6, &-3);
    assert_eq!(tree.query(0, 3), 1 + 2 + 3 + 4);
    assert_eq!(tree.query(0, 6), 1 + 2 + 3 + 4 + 5 + 6 + 7);
    assert_eq!(tree.query(4, 6), 5 + 6 + 7);
    assert_eq!(tree.query(0, 0), 1);
    assert_eq!(tree.query(2, 3), 3 + 4);
}

#[test]
fn lazy_segment_tree_test_minimum() {
    let data: Vec<i64> = vec![1, 2, 3, 4, 5, 6, 7];
    let mut tree = LazySegmentTree::construct_implicit(data, minimum(), OverwritingSifter);
    assert_eq!(tree.query(0, 3), 1);
    assert_eq!(tree.query(0, 6), 1);
    assert_eq!(tree.query(4, 6), 5);
    assert_eq!(tree.query(0, 0), 1);
    assert_eq!(tree.query(2, 3), 3);
    tree.update_range(6, 6, &0);
    assert_eq!(tree.query(6, 6), 0);
    assert_eq!(tree.query(4, 6), 0);
    assert_eq!(tree.query(0, 5), 1);
    tree.update_range(4, 5, &1000);
    assert_eq!(tree.query(6, 6), 0);
    assert_eq!(tree.query(0, 3), 1);
    assert_eq!(tree.query(0, 5), 1);
    assert_eq!(tree.query(5, 5), 1000);
}

#[test]
fn two_range_adds_compose() {
    let data: Vec<i64> = vec![1, 2, 3, 4, 5, 6, 7];
    let mut tree = LazySegmentTree::construct_implicit(data, summation(), AdditiveSifter);
    tree.update_range(2, 4, &3);
    tree.update_range(2, 4, &4);
    let other: Vec<i64> = vec![1, 2, 3, 4, 5, 6, 7];
    let mut once = LazySegmentTree::construct_implicit(other, summation(), AdditiveSifter);
    once.update_range(2, 4, &7);
    for index in 0..7usize {
        assert_eq!(tree.query(index, index), once.query(index, index));
    }
    assert_eq!(tree.query(2, 4), 3 + 4 + 5 + 21);
    assert_eq!(tree.query(0, 6), 28 + 21);
}

#[test]
fn lazy_construction_keeps_input_order() {
    let data: Vec<i64> = vec![9, 8, 7, 6, 5];
    let mut tree = LazySegmentTree::construct_implicit(data, summation(), AdditiveSifter);
    for index in 0..5usize {
        assert_eq!(tree.query(index, index), 9 - index as i64);
    }
    assert_eq!(tree.len(), 5);
}

#[test]
fn lazy_single_element() {
    let data: Vec<i64> = vec![4];
    let mut tree = LazySegmentTree::construct_implicit(data, summation(), AdditiveSifter);
    assert_eq!(tree.query(0, 0), 4);
    tree.update_range(0, 0, &-10);
    assert_eq!(tree.query(0, 0), -6);
}

#[test]
fn overwrite_then_query_disjoint_ranges() {
    let data: Vec<i64> = vec![5, 5, 5, 5, 5, 5, 5, 5];
    let mut tree = LazySegmentTree::construct_implicit(data, minimum(), OverwritingSifter);
    tree.update_range(0, 3, &2);
    tree.update_range(2, 5, &9);
    assert_eq!(tree.query(0, 1), 2);
    assert_eq!(tree.query(2, 5), 9);
    assert_eq!(tree.query(6, 7), 5);
    assert_eq!(tree.query(0, 7), 2);
}
