use strutters::graph::CompleteEdge;
use strutters::graph::Edge;
use strutters::graph::FullEdge;
use strutters::graph::GenericEdge;
use strutters::graph::HalfEdge;
use strutters::graph::ReversibleEdge;
use strutters::graph::SignedWeight;
use strutters::graph::Weight;
use strutters::graph::WeightedEdge;
use strutters::graph::WeightlessEdge;

#[test]
fn half_edge_round_trip() {
    let edge = HalfEdge::new('b', 3i64);
    assert_eq!(*edge.end_node(), 'b');
    assert_eq!(*edge.weight(), 3);
    let (node, reversed) = edge.reverse_with(&'a');
    assert_eq!(node, 'b');
    assert_eq!(*reversed.end_node(), 'a');
}

#[test]
fn full_edge_round_trip() {
    let edge = FullEdge::new('a', 'b', 3i64);
    assert_eq!(*edge.start_node(), 'a');
    assert_eq!(*edge.end_node(), 'b');
    assert_eq!(*edge.weight(), 3);
    let (node, reversed) = edge.reverse();
    assert_eq!(node, 'b');
    assert_eq!(*reversed.start_node(), 'b');
    assert_eq!(*reversed.end_node(), 'a');
}

#[test]
fn generic_and_weightless_edges() {
    let edge = GenericEdge::new(4u32, 2i64);
    assert_eq!(*edge.end_node(), 4);
    assert_eq!(*edge.weight(), 2);
    let plain = WeightlessEdge::new(9u32);
    assert_eq!(*plain.end_node(), 9);
    let (node, reversed) = plain.reverse_with(&1);
    assert_eq!(node, 9);
    assert_eq!(*reversed.end_node(), 1);
}

#[test]
fn weightless_constructors() {
    let half = HalfEdge::new_weightless('z');
    assert_eq!(*half.end_node(), 'z');
    let full = FullEdge::new_weightless('y', 'z');
    assert_eq!(*full.start_node(), 'y');
    assert_eq!(*full.end_node(), 'z');
}

#[test]
fn numerical_weights_combine() {
    assert_eq!(<i64 as Weight>::combine(&2, &3), 5);
    assert_eq!(<u32 as Weight>::combine(&2, &3), 5);
    assert_eq!(<usize as Weight>::combine(&2, &3), 5);
    assert!((-1i64).negative());
    assert!(!1i64.negative());
    assert!((-1i32).negative());
}
