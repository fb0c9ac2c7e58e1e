//! In-memory range-aggregation structures built on an implicit array-backed
//! tree: a segment tree for range-aggregate queries and point updates, and a
//! lazy segment tree that adds deferred range updates, both generic over a
//! caller-chosen associative operator.  Around them: a sparse table over
//! immutable data, edge types for graph algorithms, and small numeric,
//! reference and provider utilities.
use vstd::prelude::*;

pub mod graph;
pub mod math;
pub mod operator;
mod owned_ref;
mod owning_ref;
pub mod provider;
pub mod query;
pub mod tree;

pub use crate::owned_ref::OwnedRef;
pub use crate::owning_ref::OwningRef;

verus! {

/// A finite source of values whose exact length is known up front and whose
/// elements can be consumed from the back, as the bottom-up tree construction
/// requires.
pub trait FixedDataSource<T>: Sized {
    /// The values that have not been consumed yet, in order.
    spec fn remaining(&self) -> Seq<T>;

    /// How many values are left.
    fn len(&self) -> (n: usize)
        ensures
            n == self.remaining().len(),
    ;

    /// Takes the last remaining value, if any.
    fn next_back(&mut self) -> (r: Option<T>)
        ensures
            match r {
                Some(value) => {
                    &&& old(self).remaining().len() > 0
                    &&& value == old(self).remaining().last()
                    &&& final(self).remaining() == old(self).remaining().drop_last()
                },
                None => {
                    &&& old(self).remaining().len() == 0
                    &&& final(self).remaining() == old(self).remaining()
                },
            },
    ;
}

impl<T> FixedDataSource<T> for Vec<T> {
    open spec fn remaining(&self) -> Seq<T> {
        self@
    }

    fn len(&self) -> (n: usize) {
        let length: usize = Vec::len(self);
        length
    }

    fn next_back(&mut self) -> (r: Option<T>) {
        self.pop()
    }
}

} // verus!
