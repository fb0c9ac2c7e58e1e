//! A concrete fixed-width backing tree over one flat growable array,
//! addressed purely by index arithmetic.
use vstd::prelude::*;

use crate::tree::functions::extend_inclusive;
use crate::tree::tree::BackingTree;

verus! {

/// A width-ary tree stored as a single flat array of optional cells; node
/// relationships are computed from indices, never stored.
pub struct ImplicitTree<T> {
    values: Vec<Option<T>>,
    width: usize,
}

impl<T: Copy> ImplicitTree<T> {
    /// A new tree of the given width, holding only an empty root cell.
    pub fn new(width: usize) -> (r: ImplicitTree<T>)
        requires
            width >= 1,
        ensures
            r.wf(),
            r.width() == width,
            r.cells() =~= seq![None::<T>],
    {
        let mut values: Vec<Option<T>> = Vec::new();
        values.push(None);
        ImplicitTree { values, width }
    }

    /// The flat array cannot outgrow the address space.
    pub proof fn lemma_cells_len(&self)
        ensures
            self.cells().len() <= usize::MAX,
    {
        vstd::std_specs::vec::axiom_spec_len(&self.values);
    }

    /// Stores `value` at `node`, growing the array as needed and filling
    /// intervening slots with the absence indicator.
    ///
    /// This bypasses the check that `node`'s parent already exists; it is
    /// meant for the bottom-up construction algorithms, which write children
    /// before their parents.
    pub fn insert_unchecked(&mut self, node: usize, value: T)
        requires
            old(self).wf(),
            node < usize::MAX,
        ensures
            final(self).wf(),
            final(self).width() == old(self).width(),
            final(self).cells().len() == if old(self).cells().len() >= node + 1 {
                old(self).cells().len() as int
            } else {
                node + 1
            },
            final(self).cells()[node as int] == Some(value),
            forall|j: int|
                0 <= j < final(self).cells().len() && j != node ==> final(self).cells()[j] == (
                if j < old(self).cells().len() {
                    old(self).cells()[j]
                } else {
                    None
                }),
    {
        extend_inclusive(&mut self.values, node, None);
        self.values[node] = Some(value);
    }
}

impl<T: Copy> BackingTree for ImplicitTree<T> {
    type Value = T;

    closed spec fn cells(&self) -> Seq<Option<T>> {
        self.values@
    }

    closed spec fn width(&self) -> int {
        self.width as int
    }

    closed spec fn wf(&self) -> bool {
        self.width >= 1 && self.values@.len() >= 1
    }

    fn root(&self) -> (r: usize) {
        0
    }

    fn set_root(&mut self, value: T) {
        self.values[0] = Some(value);
    }

    fn parent(&self, node: usize) -> (r: usize) {
        (node - 1) / self.width
    }

    fn child(&self, node: usize, child_index: usize) -> (r: usize) {
        (self.width * node) + (child_index + 1)
    }

    fn get(&self, node: usize) -> (r: Option<T>) {
        if node < self.values.len() {
            self.values[node]
        } else {
            None
        }
    }

    fn set_value(&mut self, node: usize, value: T) {
        self.values[node] = Some(value);
    }

    fn insert_child(&mut self, node: usize, offset: usize, value: T) -> (r: Option<usize>) {
        let present = node < self.values.len() && self.values[node].is_some();
        if !present {
            return None;
        }
        let child = (self.width * node) + (offset + 1);
        extend_inclusive(&mut self.values, child, None);
        self.values[child] = Some(value);
        Some(child)
    }
}

} // verus!
