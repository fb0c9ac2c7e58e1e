//! A minimal edge holding an end node and a weight, and a weightless
//! wrapper around it.
use vstd::prelude::*;

use crate::graph::edge::Edge;
use crate::graph::edge::ReversibleEdge;
use crate::graph::edge::Weight;
use crate::graph::edge::WeightedEdge;

verus! {

/// An edge described only by its end node and weight.
#[derive(Clone, Copy)]
pub struct GenericEdge<N, W> {
    pub end_node: N,
    pub weight: W,
}

impl<N, W> GenericEdge<N, W> {
    /// An edge leading to `end_node` at cost `weight`.
    pub fn new(end_node: N, weight: W) -> (r: GenericEdge<N, W>)
        ensures
            r.end_node == end_node,
            r.weight == weight,
    {
        GenericEdge { end_node, weight }
    }
}

impl<N, W> Edge for GenericEdge<N, W> {
    type Node = N;

    open spec fn spec_end_node(&self) -> N {
        self.end_node
    }

    fn end_node(&self) -> (r: &N) {
        &self.end_node
    }
}

impl<N, W: Weight> WeightedEdge for GenericEdge<N, W> {
    type Weight = W;

    open spec fn spec_weight(&self) -> W {
        self.weight
    }

    fn weight(&self) -> (r: &W) {
        &self.weight
    }
}

impl<N: Copy, W: Copy> ReversibleEdge for GenericEdge<N, W> {
    open spec fn spec_reverse_with(&self, start: N) -> (N, Self) {
        (self.end_node, GenericEdge { end_node: start, weight: self.weight })
    }

    fn reverse_with(&self, start: &N) -> (r: (N, Self)) {
        (self.end_node, GenericEdge { end_node: *start, weight: self.weight })
    }
}

/// An edge with no weight at all.
#[derive(Clone, Copy)]
pub struct WeightlessEdge<N> {
    pub edge: GenericEdge<N, ()>,
}

impl<N> WeightlessEdge<N> {
    /// An edge leading to `end_node`.
    pub fn new(end_node: N) -> (r: WeightlessEdge<N>)
        ensures
            r.edge.end_node == end_node,
    {
        WeightlessEdge { edge: GenericEdge::new(end_node, ()) }
    }
}

impl<N> Edge for WeightlessEdge<N> {
    type Node = N;

    open spec fn spec_end_node(&self) -> N {
        self.edge.spec_end_node()
    }

    fn end_node(&self) -> (r: &N) {
        self.edge.end_node()
    }
}

impl<N: Copy> ReversibleEdge for WeightlessEdge<N> {
    open spec fn spec_reverse_with(&self, start: N) -> (N, Self) {
        (
            self.edge.spec_reverse_with(start).0,
            WeightlessEdge { edge: self.edge.spec_reverse_with(start).1 },
        )
    }

    fn reverse_with(&self, start: &N) -> (r: (N, Self)) {
        let (node, edge) = self.edge.reverse_with(start);
        (node, WeightlessEdge { edge })
    }
}

} // verus!
