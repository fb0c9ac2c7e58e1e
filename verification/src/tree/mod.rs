//! The tree engine: an implicit array-backed tree, a segment tree for
//! range-aggregate queries and point updates, and a lazy segment tree that
//! adds deferred range updates.
pub mod delta;
pub mod functions;
pub mod implicit_tree;
pub mod lazy_segment_tree;
pub mod segment_tree;
pub mod tree;

pub use self::delta::DeltaSifter;
pub use self::delta::DeltaWrapper;
pub use self::implicit_tree::ImplicitTree;
pub use self::lazy_segment_tree::LazySegmentTree;
pub use self::segment_tree::SegmentTree;
pub use self::tree::BackingTree;

use vstd::prelude::*;

verus! {

/// Children per node of the binary trees built here.
pub const BINARY_WIDTH: usize = 2;

} // verus!
