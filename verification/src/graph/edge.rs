//! The edge abstractions: an edge knows the node it leads to, may carry a
//! weight, may be reversed, and may also know the node it starts from.
use vstd::prelude::*;

verus! {

/// An edge out of some node, leading to `end_node`.
pub trait Edge: Sized {
    type Node;

    /// The node this edge leads to.
    spec fn spec_end_node(&self) -> Self::Node;

    /// The node this edge leads to.
    fn end_node(&self) -> (r: &Self::Node)
        ensures
            *r == self.spec_end_node(),
    ;
}

/// An edge carrying a weight.
pub trait WeightedEdge: Edge {
    type Weight: Weight;

    /// The cost of traversing this edge.
    spec fn spec_weight(&self) -> Self::Weight;

    /// The cost of traversing this edge.
    fn weight(&self) -> (r: &Self::Weight)
        ensures
            *r == self.spec_weight(),
    ;
}

/// An edge that can be turned around.
pub trait ReversibleEdge: Edge {
    /// The reversal, mathematically: the node the reversed edge leaves
    /// from, and the reversed edge itself.
    spec fn spec_reverse_with(&self, start: Self::Node) -> (Self::Node, Self);

    /// Given the node this edge starts from, yields that start node's view
    /// of the reversal: the node the reversed edge leaves from, and the
    /// reversed edge, which leads back to `start`.
    fn reverse_with(&self, start: &Self::Node) -> (r: (Self::Node, Self))
        ensures
            r == self.spec_reverse_with(*start),
            r.0 == self.spec_end_node(),
            r.1.spec_end_node() == *start,
    ;
}

/// An edge that also knows the node it starts from.
pub trait CompleteEdge: Edge {
    /// The node this edge starts from.
    spec fn spec_start_node(&self) -> Self::Node;

    /// The node this edge starts from.
    fn start_node(&self) -> (r: &Self::Node)
        ensures
            *r == self.spec_start_node(),
    ;
}

/// A weight that can be accumulated along a path.
pub trait Weight: Sized {
    /// When two weights may be combined without leaving the type's range.
    spec fn combine_allowed(left: Self, right: Self) -> bool;

    /// The combined weight.
    spec fn spec_combine(left: Self, right: Self) -> Self;

    /// Accumulates two weights.
    fn combine(left: &Self, right: &Self) -> (r: Self)
        requires
            Self::combine_allowed(*left, *right),
        ensures
            r == Self::spec_combine(*left, *right),
    ;
}

/// A weight that can tell whether it is negative.
pub trait SignedWeight: Weight {
    /// Whether this weight is below zero.
    spec fn spec_negative(&self) -> bool;

    /// Whether this weight is below zero.
    fn negative(&self) -> (r: bool)
        ensures
            r == self.spec_negative(),
    ;
}

} // verus!
