use strutters::graph::AdjacencyList;
use strutters::graph::Edge;
use strutters::graph::Graph;
use strutters::graph::HalfEdge;
use strutters::graph::MutableGraph;
use strutters::graph::UndirectedGraph;

#[test]
fn undirected_graph_test() {
    let graph: AdjacencyList<HalfEdge<usize, i64>> = AdjacencyList::new();
    let mut graph = UndirectedGraph::new(graph);
    graph.add_edge(0, HalfEdge::new(1, 1337));
    assert!(graph.neighbours(&0).iter().find(|edge| *edge.end_node() == 1).is_some());
}

#[test]
fn undirected_edges_go_both_ways() {
    let graph: AdjacencyList<HalfEdge<usize, i64>> = AdjacencyList::new();
    let mut graph = UndirectedGraph::new(graph);
    graph.add_edge(2, HalfEdge::new(5, 7));
    let forward = graph.neighbours(&2);
    let backward = graph.neighbours(&5);
    assert_eq!(forward.len(), 1);
    assert_eq!(*forward[0].end_node(), 5);
    assert_eq!(forward[0].weight, 7);
    assert_eq!(backward.len(), 1);
    assert_eq!(*backward[0].end_node(), 2);
    assert_eq!(backward[0].weight, 7);
}

#[test]
fn adjacency_list_groups_by_start() {
    let mut graph: AdjacencyList<HalfEdge<usize, i64>> = AdjacencyList::new();
    graph.add_edge(0, HalfEdge::new(1, 10));
    graph.add_edge(0, HalfEdge::new(2, 20));
    graph.add_edge(3, HalfEdge::new(0, 30));
    let from_zero = graph.neighbours(&0);
    assert_eq!(from_zero.len(), 2);
    assert_eq!(*from_zero[0].end_node(), 1);
    assert_eq!(*from_zero[1].end_node(), 2);
    assert_eq!(graph.neighbours(&3).len(), 1);
    assert_eq!(graph.neighbours(&1).len(), 0);
    assert_eq!(graph.neighbours(&9).len(), 0);
}
