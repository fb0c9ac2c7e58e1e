//! A wrapper that turns any mutable graph into an undirected one: every
//! added edge is also recorded in the reverse direction.
use vstd::prelude::*;

use crate::graph::edge::Edge;
use crate::graph::edge::ReversibleEdge;
use crate::graph::graph::Graph;
use crate::graph::graph::MutableGraph;

verus! {

/// A graph whose every edge is mirrored: adding an edge also adds its
/// reversal at the edge's end node.
pub struct UndirectedGraph<G> {
    pub graph: G,
}

impl<G> UndirectedGraph<G> {
    /// Wraps a graph.
    pub fn new(graph: G) -> (r: UndirectedGraph<G>)
        ensures
            r.graph == graph,
    {
        UndirectedGraph { graph }
    }
}

impl<N: Copy, E: Copy + Edge<Node = N>, G: Graph<N, E>> Graph<N, E> for UndirectedGraph<G> {
    open spec fn spec_neighbours(&self, node: N) -> Seq<E> {
        self.graph.spec_neighbours(node)
    }

    open spec fn can_add_edge(&self, start: N) -> bool {
        self.graph.can_add_edge(start)
    }

    fn neighbours(&self, node: &N) -> (r: Vec<E>) {
        self.graph.neighbours(node)
    }
}

impl<G> UndirectedGraph<G> {
    /// Records `edge` as leaving `start`, and its reversal as leaving the
    /// edge's end node, so the connection can be followed both ways.
    pub fn add_edge<N: Copy, E: Copy + Edge<Node = N> + ReversibleEdge>(
        &mut self,
        start: N,
        edge: E,
    ) where G: MutableGraph<N, E>
        requires
            old(self).can_add_edge(start),
            old(self).can_add_edge(edge.spec_end_node()),
        ensures
            edge.spec_reverse_with(start).1.spec_end_node() == start,
            start != edge.spec_end_node() ==> final(self).spec_neighbours(start)
                == old(self).spec_neighbours(start).push(edge),
            start != edge.spec_end_node() ==> final(self).spec_neighbours(edge.spec_end_node())
                == old(self).spec_neighbours(edge.spec_end_node()).push(
                edge.spec_reverse_with(start).1,
            ),
            start == edge.spec_end_node() ==> final(self).spec_neighbours(start)
                == old(self).spec_neighbours(start).push(edge.spec_reverse_with(start).1).push(
                edge,
            ),
            forall|other: N|
                other != start && other != edge.spec_end_node()
                    ==> #[trigger] final(self).spec_neighbours(other) == old(self).spec_neighbours(
                    other,
                ),
            forall|other: N| #[trigger]
                final(self).can_add_edge(other) <==> old(self).can_add_edge(other),
    {
        let (reverse_start, reverse_edge) = edge.reverse_with(&start);
        self.graph.add_edge(reverse_start, reverse_edge);
        self.graph.add_edge(start, edge);
    }
}

} // verus!
