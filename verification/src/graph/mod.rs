//! Edge abstractions and concrete edge types, shared by graph algorithms
//! that consume them.
pub mod adjacency_list;
pub mod edge;
pub mod full_edge;
pub mod generic_edge;
pub mod graph;
pub mod half_edge;
pub mod numerical_weight;
pub mod undirected_graph;

pub use self::adjacency_list::AdjacencyList;
pub use self::edge::CompleteEdge;
pub use self::edge::Edge;
pub use self::edge::ReversibleEdge;
pub use self::edge::SignedWeight;
pub use self::edge::Weight;
pub use self::edge::WeightedEdge;
pub use self::full_edge::FullEdge;
pub use self::generic_edge::GenericEdge;
pub use self::graph::Graph;
pub use self::graph::MutableGraph;
pub use self::generic_edge::WeightlessEdge;
pub use self::half_edge::HalfEdge;
pub use self::undirected_graph::UndirectedGraph;
