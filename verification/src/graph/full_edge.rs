//! An edge that stores both of its endpoints.
use vstd::prelude::*;

use crate::graph::edge::CompleteEdge;
use crate::graph::edge::Edge;
use crate::graph::edge::ReversibleEdge;
use crate::graph::edge::Weight;
use crate::graph::edge::WeightedEdge;
use crate::graph::half_edge::HalfEdge;

verus! {

/// A whole edge: its start node, and the half edge holding its end node
/// and weight.
#[derive(Clone, Copy)]
pub struct FullEdge<N, W> {
    pub start_node: N,
    pub edge: HalfEdge<N, W>,
}

impl<N, W> FullEdge<N, W> {
    /// An edge from `start_node` to `end_node` at cost `weight`.
    pub fn new(start_node: N, end_node: N, weight: W) -> (r: FullEdge<N, W>)
        ensures
            r.start_node == start_node,
            r.edge.end_node == end_node,
            r.edge.weight == weight,
    {
        FullEdge { start_node, edge: HalfEdge::new(end_node, weight) }
    }
}

impl<N> FullEdge<N, ()> {
    /// An edge from `start_node` to `end_node` with no weight.
    pub fn new_weightless(start_node: N, end_node: N) -> (r: FullEdge<N, ()>)
        ensures
            r.start_node == start_node,
            r.edge.end_node == end_node,
    {
        FullEdge { start_node, edge: HalfEdge::new_weightless(end_node) }
    }
}

impl<N, W> Edge for FullEdge<N, W> {
    type Node = N;

    open spec fn spec_end_node(&self) -> N {
        self.edge.spec_end_node()
    }

    fn end_node(&self) -> (r: &N) {
        self.edge.end_node()
    }
}

impl<N, W: Weight> WeightedEdge for FullEdge<N, W> {
    type Weight = W;

    open spec fn spec_weight(&self) -> W {
        self.edge.spec_weight()
    }

    fn weight(&self) -> (r: &W) {
        self.edge.weight()
    }
}

impl<N: Copy, W: Copy + Weight> ReversibleEdge for FullEdge<N, W> {
    open spec fn spec_reverse_with(&self, start: N) -> (N, Self) {
        (
            self.edge.end_node,
            FullEdge {
                start_node: self.edge.end_node,
                edge: HalfEdge { end_node: start, weight: self.edge.weight },
            },
        )
    }

    fn reverse_with(&self, start: &N) -> (r: (N, Self)) {
        let end = *self.end_node();
        let weight = *self.weight();
        (end, FullEdge::new(end, *start, weight))
    }
}

impl<N, W> CompleteEdge for FullEdge<N, W> {
    open spec fn spec_start_node(&self) -> N {
        self.start_node
    }

    fn start_node(&self) -> (r: &N) {
        &self.start_node
    }
}

impl<N: Copy, W: Copy + Weight> FullEdge<N, W> {
    /// The reversal of this edge, from its own start node: the node the
    /// reversed edge leaves from, and the reversed edge.
    pub fn reverse(&self) -> (r: (N, Self))
        ensures
            r.0 == self.spec_end_node(),
            r.1.spec_end_node() == self.spec_start_node(),
    {
        let start = *self.start_node();
        self.reverse_with(&start)
    }
}

} // verus!
