//! The backing-tree storage discipline: nodes are addressed by integer
//! identifiers, the root is identifier zero, and for width `w` the child at
//! offset `k` of node `n` is `w * n + k + 1`.
use vstd::prelude::*;

verus! {

/// Storage for a width-ary tree addressed by integer node identifiers.
///
/// A cell is `None` until a value is inserted at its identifier; reading a
/// never-inserted node yields the absence indicator rather than an error.
pub trait BackingTree: Sized {
    type Value: Copy;

    /// The stored cells, indexed by node identifier.
    spec fn cells(&self) -> Seq<Option<Self::Value>>;

    /// How many children each node can have.
    spec fn width(&self) -> int;

    /// Internal consistency: at least the root cell exists and the width is
    /// positive.
    spec fn wf(&self) -> bool;

    /// The root's identifier.
    fn root(&self) -> (r: usize)
        ensures
            r == 0,
    ;

    /// Stores `value` at the root.
    fn set_root(&mut self, value: Self::Value)
        requires
            old(self).wf(),
        ensures
            final(self).wf(),
            final(self).width() == old(self).width(),
            final(self).cells() == old(self).cells().update(0, Some(value)),
    ;

    /// The parent of `node`, inverting the child formula for this width.
    fn parent(&self, node: usize) -> (r: usize)
        requires
            self.wf(),
            node >= 1,
        ensures
            r == (node - 1) / self.width(),
    ;

    /// The identifier of the child of `node` at offset `child_index`.
    fn child(&self, node: usize, child_index: usize) -> (r: usize)
        requires
            self.wf(),
            child_index < self.width(),
            self.width() * node + child_index + 1 <= usize::MAX,
        ensures
            r == self.width() * node + child_index + 1,
    ;

    /// The value at `node`, or the absence indicator if no value was ever
    /// inserted there.
    fn get(&self, node: usize) -> (r: Option<Self::Value>)
        ensures
            r == if 0 <= node < self.cells().len() {
                self.cells()[node as int]
            } else {
                None
            },
    ;

    /// Overwrites the value of an existing node.
    fn set_value(&mut self, node: usize, value: Self::Value)
        requires
            old(self).wf(),
            node < old(self).cells().len(),
            old(self).cells()[node as int] is Some,
        ensures
            final(self).wf(),
            final(self).width() == old(self).width(),
            final(self).cells() == old(self).cells().update(node as int, Some(value)),
    ;

    /// Inserts a child of `node` at offset `offset`, growing the storage as
    /// needed, and returns the new child's identifier; yields the absence
    /// indicator if `node` itself holds no value.
    fn insert_child(&mut self, node: usize, offset: usize, value: Self::Value) -> (r: Option<
        usize,
    >)
        requires
            old(self).wf(),
            offset < old(self).width(),
            old(self).width() * node + offset + 1 < usize::MAX,
        ensures
            final(self).wf(),
            final(self).width() == old(self).width(),
            match r {
                Some(child) => {
                    &&& 0 <= node < old(self).cells().len()
                    &&& old(self).cells()[node as int] is Some
                    &&& child == old(self).width() * node + offset + 1
                    &&& final(self).cells().len() >= old(self).cells().len()
                    &&& final(self).cells().len() > child
                    &&& final(self).cells()[child as int] == Some(value)
                    &&& forall|j: int|
                        0 <= j < final(self).cells().len() && j != child
                            ==> final(self).cells()[j] == (if j < old(self).cells().len() {
                            old(self).cells()[j]
                        } else {
                            None
                        })
                },
                None => {
                    &&& !(0 <= node < old(self).cells().len() && old(self).cells()[node as int]
                        is Some)
                    &&& final(self).cells() == old(self).cells()
                },
            },
    ;
}

} // verus!
