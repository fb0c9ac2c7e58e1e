//! The graph abstractions: read access to the edges out of each node, and
//! mutation by adding edges.
use vstd::prelude::*;

verus! {

/// Read access to a graph over nodes `N` and edges `E`: every node has a
/// sequence of outgoing edges.
pub trait Graph<N: Copy, E: Copy>: Sized {
    /// The edges out of `node`, in insertion order.
    spec fn spec_neighbours(&self, node: N) -> Seq<E>;

    /// Whether an edge out of `start` can still be recorded, within the
    /// machine's limits.
    spec fn can_add_edge(&self, start: N) -> bool;

    /// The edges out of `node`.
    fn neighbours(&self, node: &N) -> (r: Vec<E>)
        ensures
            r@ == self.spec_neighbours(*node),
    ;
}

/// A graph that accepts new edges.
pub trait MutableGraph<N: Copy, E: Copy>: Graph<N, E> {
    /// Records `edge` as leaving `start`.
    fn add_edge(&mut self, start: N, edge: E)
        requires
            old(self).can_add_edge(start),
        ensures
            final(self).spec_neighbours(start) == old(self).spec_neighbours(start).push(edge),
            forall|other: N|
                other != start ==> #[trigger] final(self).spec_neighbours(other) == old(
                    self,
                ).spec_neighbours(other),
            forall|other: N| #[trigger]
                final(self).can_add_edge(other) <==> old(self).can_add_edge(other),
    ;
}

} // verus!
