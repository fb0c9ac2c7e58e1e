//! A graph stored as one growable row of outgoing edges per node; nodes
//! are the row indexes.
use vstd::prelude::*;

use crate::graph::graph::Graph;
use crate::graph::graph::MutableGraph;

verus! {

/// Edges grouped by their start node, one row per node identifier.
pub struct AdjacencyList<E> {
    edges: Vec<Vec<E>>,
}

impl<E: Copy> AdjacencyList<E> {
    /// An empty graph.
    pub fn new() -> (r: AdjacencyList<E>)
        ensures
            forall|node: usize| #[trigger] r.spec_neighbours(node) =~= Seq::<E>::empty(),
            forall|node: usize| node < usize::MAX ==> #[trigger] r.can_add_edge(node),
    {
        AdjacencyList { edges: Vec::new() }
    }
}

impl<E: Copy> Graph<usize, E> for AdjacencyList<E> {
    closed spec fn spec_neighbours(&self, node: usize) -> Seq<E> {
        if node < self.edges@.len() {
            self.edges@[node as int]@
        } else {
            Seq::empty()
        }
    }

    closed spec fn can_add_edge(&self, start: usize) -> bool {
        start < usize::MAX
    }

    fn neighbours(&self, node: &usize) -> (r: Vec<E>) {
        let mut result: Vec<E> = Vec::new();
        if *node < self.edges.len() {
            let row_length = self.edges[*node].len();
            let mut i: usize = 0;
            while i < row_length
                invariant
                    *node < self.edges@.len(),
                    row_length == self.edges@[*node as int]@.len(),
                    i <= row_length,
                    result@ == self.edges@[*node as int]@.take(i as int),
                decreases row_length - i,
            {
                result.push(self.edges[*node][i]);
                proof {
                    assert(result@ =~= self.edges@[*node as int]@.take(i + 1));
                }
                i = i + 1;
            }
            proof {
                assert(self.edges@[*node as int]@.take(row_length as int) =~= self.edges@[*node
                    as int]@);
            }
        }
        result
    }
}

impl<E: Copy> MutableGraph<usize, E> for AdjacencyList<E> {
    fn add_edge(&mut self, start: usize, edge: E) {
        let ghost cells0 = self.edges@;
        while self.edges.len() <= start
            invariant
                start < usize::MAX,
                self.edges@.len() >= cells0.len(),
                forall|j: int| 0 <= j < cells0.len() ==> self.edges@[j] == cells0[j],
                forall|j: int|
                    cells0.len() <= j < self.edges@.len() ==> #[trigger] self.edges@[j]@.len()
                        == 0,
            decreases start + 1 - self.edges@.len(),
        {
            let empty_row: Vec<E> = Vec::new();
            self.edges.push(empty_row);
        }
        self.edges[start].push(edge);
        proof {
            assert forall|other: usize| other != start implies #[trigger] self.spec_neighbours(
                other,
            ) == old(self).spec_neighbours(other) by {
                if (other as int) < cells0.len() {
                } else if (other as int) < self.edges@.len() {
                    assert(self.spec_neighbours(other) =~= Seq::<E>::empty());
                    assert(old(self).spec_neighbours(other) =~= Seq::<E>::empty());
                } else {
                    assert(self.spec_neighbours(other) =~= Seq::<E>::empty());
                    assert(old(self).spec_neighbours(other) =~= Seq::<E>::empty());
                }
            }
            if (start as int) < cells0.len() {
            } else {
                assert(old(self).spec_neighbours(start) =~= Seq::<E>::empty());
                assert(self.spec_neighbours(start) =~= old(self).spec_neighbours(start).push(
                    edge,
                ));
            }
        }
    }
}

} // verus!
