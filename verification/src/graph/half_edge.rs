//! An edge that stores only its end node and weight; the start node is
//! implied by where the edge is kept.
use vstd::prelude::*;

use crate::graph::edge::Edge;
use crate::graph::edge::ReversibleEdge;
use crate::graph::edge::Weight;
use crate::graph::edge::WeightedEdge;

verus! {

/// Half of an edge: its end node and its weight.
#[derive(Clone, Copy)]
pub struct HalfEdge<N, W> {
    pub end_node: N,
    pub weight: W,
}

impl<N, W> HalfEdge<N, W> {
    /// An edge leading to `end_node` at cost `weight`.
    pub fn new(end_node: N, weight: W) -> (r: HalfEdge<N, W>)
        ensures
            r.end_node == end_node,
            r.weight == weight,
    {
        HalfEdge { end_node, weight }
    }
}

impl<N> HalfEdge<N, ()> {
    /// An edge leading to `end_node` with no weight.
    pub fn new_weightless(end_node: N) -> (r: HalfEdge<N, ()>)
        ensures
            r.end_node == end_node,
    {
        HalfEdge { end_node, weight: () }
    }
}

impl<N, W> Edge for HalfEdge<N, W> {
    type Node = N;

    open spec fn spec_end_node(&self) -> N {
        self.end_node
    }

    fn end_node(&self) -> (r: &N) {
        &self.end_node
    }
}

impl<N, W: Weight> WeightedEdge for HalfEdge<N, W> {
    type Weight = W;

    open spec fn spec_weight(&self) -> W {
        self.weight
    }

    fn weight(&self) -> (r: &W) {
        &self.weight
    }
}

impl<N: Copy, W: Copy> ReversibleEdge for HalfEdge<N, W> {
    open spec fn spec_reverse_with(&self, start: N) -> (N, Self) {
        (self.end_node, HalfEdge { end_node: start, weight: self.weight })
    }

    fn reverse_with(&self, start: &N) -> (r: (N, Self)) {
        (self.end_node, HalfEdge { end_node: *start, weight: self.weight })
    }
}

} // verus!
