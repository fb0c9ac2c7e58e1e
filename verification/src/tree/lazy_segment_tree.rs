//! A lazy segment tree: a segment tree whose nodes carry delta-bearing
//! cells, adding logarithmic-time range updates through deferred ("lazy")
//! delta propagation.
use vstd::prelude::*;

use crate::FixedDataSource;
use crate::operator::AssociativeOperator;
use crate::operator::fold_combine;
use crate::operator::lemma_fold_concat;
use crate::operator::wrap_i64;
use crate::operator::lemma_wrap_i64_absorb;
use crate::operator::SumOperator;
use crate::tree::delta::AdditiveSifter;
use crate::tree::delta::DeltaSifter;
use crate::tree::delta::DeltaWrapper;
use crate::tree::delta::map_delta;
use crate::tree::delta::lemma_sift_fold;
use crate::tree::functions::split_range;
use crate::tree::functions::subtree_contains;
use crate::tree::functions::lemma_subtree_on_parent_chain;
use crate::tree::functions::lemma_subtrees_disjoint;
use crate::tree::implicit_tree::ImplicitTree;
use crate::tree::tree::BackingTree;
use crate::tree::segment_tree::clipped;

verus! {

use vstd::arithmetic::power2::pow2;
use vstd::arithmetic::power2::lemma_pow2_unfold;
use vstd::arithmetic::power2::lemma_pow2_pos;
use vstd::arithmetic::power2::lemma2_to64;

/// The sequence a lazy subtree represents: its leaf values in left-to-right
/// order, with every pending delta on the path applied.  A node's own
/// pending delta applies to its whole covered range.
pub open spec fn lazy_view_node<T, D, O: AssociativeOperator<T>, S: DeltaSifter<T, D, O>>(
    cells: Seq<Option<DeltaWrapper<T, D>>>,
    node: int,
    current_left: int,
    current_right: int,
) -> Seq<T>
    decreases current_right - current_left, 1int,
{
    let base = if current_left >= current_right {
        seq![cells[node].unwrap().object]
    } else {
        let middle = (current_left + current_right) / 2;
        lazy_view_node::<T, D, O, S>(cells, 2 * node + 1, current_left, middle)
            + lazy_view_node::<T, D, O, S>(cells, 2 * node + 2, middle + 1, current_right)
    };
    match cells[node].unwrap().delta {
        Some(delta) => map_delta::<T, D, O, S>(base, delta),
        None => base,
    }
}

/// The stored cells form a correct lazy segment tree under `node`: every
/// node of the layout holds a cell, and each internal node's stored
/// aggregate is the fold of the sequence its children represent — its own
/// pending delta, which has already been folded into the aggregate, excluded.
pub open spec fn lazy_wf_node<T, D, O: AssociativeOperator<T>, S: DeltaSifter<T, D, O>>(
    cells: Seq<Option<DeltaWrapper<T, D>>>,
    node: int,
    current_left: int,
    current_right: int,
) -> bool
    decreases current_right - current_left, 2int,
{
    &&& 0 <= node < cells.len()
    &&& cells[node] is Some
    &&& (current_left < current_right ==> {
        let middle = (current_left + current_right) / 2;
        &&& lazy_wf_node::<T, D, O, S>(cells, 2 * node + 1, current_left, middle)
        &&& lazy_wf_node::<T, D, O, S>(cells, 2 * node + 2, middle + 1, current_right)
        &&& cells[node].unwrap().object == fold_combine::<T, O>(
            lazy_view_node::<T, D, O, S>(cells, 2 * node + 1, current_left, middle)
                + lazy_view_node::<T, D, O, S>(cells, 2 * node + 2, middle + 1, current_right),
        )
    })
}

/// A node's aggregate with its own pending delta folded in: the fold of the
/// sequence the node's subtree represents.
pub open spec fn effective<T, D, O: AssociativeOperator<T>, S: DeltaSifter<T, D, O>>(
    cell: DeltaWrapper<T, D>,
    length: int,
) -> T {
    match cell.delta {
        Some(delta) => S::spec_sift(cell.object, delta, length),
        None => cell.object,
    }
}

/// A sequence after a range update: every element whose global position,
/// starting at `current_left`, falls inside `[left, right]` has the delta
/// applied to it; the rest stay as they were.
pub open spec fn apply_range<T, D, O: AssociativeOperator<T>, S: DeltaSifter<T, D, O>>(
    view: Seq<T>,
    delta: D,
    left: int,
    right: int,
    current_left: int,
) -> Seq<T> {
    Seq::new(
        view.len(),
        |k: int|
            if left <= current_left + k <= right {
                S::leaf_apply(view[k], delta)
            } else {
                view[k]
            },
    )
}

/// A lazy subtree over `[current_left, current_right]` represents one value
/// per covered index.
pub proof fn lemma_lazy_view_node_len<T, D, O: AssociativeOperator<T>, S: DeltaSifter<T, D, O>>(
    cells: Seq<Option<DeltaWrapper<T, D>>>,
    node: int,
    current_left: int,
    current_right: int,
)
    requires
        current_left <= current_right,
    ensures
        lazy_view_node::<T, D, O, S>(cells, node, current_left, current_right).len()
            == current_right - current_left + 1,
    decreases current_right - current_left,
{
    if current_left < current_right {
        let middle = (current_left + current_right) / 2;
        lemma_lazy_view_node_len::<T, D, O, S>(cells, 2 * node + 1, current_left, middle);
        lemma_lazy_view_node_len::<T, D, O, S>(cells, 2 * node + 2, middle + 1, current_right);
    }
}

/// In a correct lazy subtree, every node's effective aggregate is the fold
/// of the sequence its subtree represents.
pub proof fn lemma_lazy_effective_fold<T, D, O: AssociativeOperator<T>, S: DeltaSifter<T, D, O>>(
    cells: Seq<Option<DeltaWrapper<T, D>>>,
    node: int,
    current_left: int,
    current_right: int,
)
    requires
        current_left <= current_right,
        lazy_wf_node::<T, D, O, S>(cells, node, current_left, current_right),
    ensures
        effective::<T, D, O, S>(cells[node].unwrap(), current_right - current_left + 1)
            == fold_combine::<T, O>(
            lazy_view_node::<T, D, O, S>(cells, node, current_left, current_right),
        ),
{
    let cell = cells[node].unwrap();
    let base = if current_left >= current_right {
        seq![cell.object]
    } else {
        let middle = (current_left + current_right) / 2;
        lazy_view_node::<T, D, O, S>(cells, 2 * node + 1, current_left, middle)
            + lazy_view_node::<T, D, O, S>(cells, 2 * node + 2, middle + 1, current_right)
    };
    if current_left < current_right {
        let middle = (current_left + current_right) / 2;
        lemma_lazy_view_node_len::<T, D, O, S>(cells, 2 * node + 1, current_left, middle);
        lemma_lazy_view_node_len::<T, D, O, S>(cells, 2 * node + 2, middle + 1, current_right);
    }
    assert(cell.object == fold_combine::<T, O>(base));
    assert(base.len() == current_right - current_left + 1);
    match cell.delta {
        Some(delta) => {
            lemma_sift_fold::<T, D, O, S>(base, delta);
        },
        None => {},
    }
}

/// Every identifier in a correct lazy subtree indexes an existing cell.
pub proof fn lemma_lazy_wf_node_members<T, D, O: AssociativeOperator<T>, S: DeltaSifter<T, D, O>>(
    cells: Seq<Option<DeltaWrapper<T, D>>>,
    node: int,
    current_left: int,
    current_right: int,
    target: int,
)
    requires
        lazy_wf_node::<T, D, O, S>(cells, node, current_left, current_right),
        subtree_contains(node, current_left, current_right, target),
    ensures
        0 <= target < cells.len(),
        cells[target] is Some,
    decreases current_right - current_left,
{
    if target != node {
        let middle = (current_left + current_right) / 2;
        if subtree_contains(2 * node + 1, current_left, middle, target) {
            lemma_lazy_wf_node_members::<T, D, O, S>(
                cells,
                2 * node + 1,
                current_left,
                middle,
                target,
            );
        } else {
            lemma_lazy_wf_node_members::<T, D, O, S>(
                cells,
                2 * node + 2,
                middle + 1,
                current_right,
                target,
            );
        }
    }
}

/// Correctness and the represented sequence of a lazy subtree depend only
/// on the cells at the subtree's own identifiers.
pub proof fn lemma_lazy_wf_node_frame<T, D, O: AssociativeOperator<T>, S: DeltaSifter<T, D, O>>(
    cells1: Seq<Option<DeltaWrapper<T, D>>>,
    cells2: Seq<Option<DeltaWrapper<T, D>>>,
    node: int,
    current_left: int,
    current_right: int,
)
    requires
        current_left <= current_right,
        lazy_wf_node::<T, D, O, S>(cells1, node, current_left, current_right),
        forall|t: int| #[trigger]
            subtree_contains(node, current_left, current_right, t) ==> 0 <= t < cells2.len()
                && cells2[t] == cells1[t],
    ensures
        lazy_wf_node::<T, D, O, S>(cells2, node, current_left, current_right),
        lazy_view_node::<T, D, O, S>(cells2, node, current_left, current_right)
            == lazy_view_node::<T, D, O, S>(cells1, node, current_left, current_right),
    decreases current_right - current_left,
{
    assert(subtree_contains(node, current_left, current_right, node));
    if current_left < current_right {
        let middle = (current_left + current_right) / 2;
        assert forall|t: int| #[trigger]
            subtree_contains(2 * node + 1, current_left, middle, t) implies 0 <= t < cells2.len()
            && cells2[t] == cells1[t] by {
            assert(subtree_contains(node, current_left, current_right, t));
        }
        assert forall|t: int| #[trigger]
            subtree_contains(2 * node + 2, middle + 1, current_right, t) implies 0 <= t
            < cells2.len() && cells2[t] == cells1[t] by {
            assert(subtree_contains(node, current_left, current_right, t));
        }
        lemma_lazy_wf_node_frame::<T, D, O, S>(cells1, cells2, 2 * node + 1, current_left, middle);
        lemma_lazy_wf_node_frame::<T, D, O, S>(
            cells1,
            cells2,
            2 * node + 2,
            middle + 1,
            current_right,
        );
        assert(subtree_contains(2 * node + 1, current_left, middle, 2 * node + 1));
        assert(subtree_contains(2 * node + 2, middle + 1, current_right, 2 * node + 2));
        assert(subtree_contains(node, current_left, current_right, 2 * node + 1));
        assert(subtree_contains(node, current_left, current_right, 2 * node + 2));
    } else {
        assert(lazy_view_node::<T, D, O, S>(cells2, node, current_left, current_right)
            =~= lazy_view_node::<T, D, O, S>(cells1, node, current_left, current_right));
    }
}

/// Setting the pending delta of a node whose delta slot is empty applies
/// that delta, at the specification level, to the node's whole represented
/// sequence, and leaves the subtree correct.
proof fn lemma_set_delta<T, D, O: AssociativeOperator<T>, S: DeltaSifter<T, D, O>>(
    cells1: Seq<Option<DeltaWrapper<T, D>>>,
    cells2: Seq<Option<DeltaWrapper<T, D>>>,
    node: int,
    current_left: int,
    current_right: int,
    delta: D,
)
    requires
        current_left <= current_right,
        lazy_wf_node::<T, D, O, S>(cells1, node, current_left, current_right),
        cells1[node].unwrap().delta is None,
        cells2 == cells1.update(
            node,
            Some(DeltaWrapper { object: cells1[node].unwrap().object, delta: Some(delta) }),
        ),
    ensures
        lazy_wf_node::<T, D, O, S>(cells2, node, current_left, current_right),
        lazy_view_node::<T, D, O, S>(cells2, node, current_left, current_right) == map_delta::<
            T,
            D,
            O,
            S,
        >(lazy_view_node::<T, D, O, S>(cells1, node, current_left, current_right), delta),
{
    if current_left < current_right {
        let middle = (current_left + current_right) / 2;
        assert forall|t: int| #[trigger]
            subtree_contains(2 * node + 1, current_left, middle, t) implies 0 <= t < cells2.len()
            && cells2[t] == cells1[t] by {
            lemma_lazy_wf_node_members::<T, D, O, S>(cells1, 2 * node + 1, current_left, middle, t);
            lemma_subtree_on_parent_chain(2 * node + 1, current_left, middle, t);
        }
        assert forall|t: int| #[trigger]
            subtree_contains(2 * node + 2, middle + 1, current_right, t) implies 0 <= t
            < cells2.len() && cells2[t] == cells1[t] by {
            lemma_lazy_wf_node_members::<T, D, O, S>(
                cells1,
                2 * node + 2,
                middle + 1,
                current_right,
                t,
            );
            lemma_subtree_on_parent_chain(2 * node + 2, middle + 1, current_right, t);
        }
        lemma_lazy_wf_node_frame::<T, D, O, S>(cells1, cells2, 2 * node + 1, current_left, middle);
        lemma_lazy_wf_node_frame::<T, D, O, S>(
            cells1,
            cells2,
            2 * node + 2,
            middle + 1,
            current_right,
        );
    } else {
        assert(lazy_view_node::<T, D, O, S>(cells2, node, current_left, current_right)
            =~= map_delta::<T, D, O, S>(
            lazy_view_node::<T, D, O, S>(cells1, node, current_left, current_right),
            delta,
        ));
    }
}

/// For add-a-constant deltas over the wrapping-sum operator, two range
/// updates of one range compose into a single range update of the summed
/// delta.
pub proof fn lemma_additive_range_adds_compose(
    view: Seq<i64>,
    first: i64,
    second: i64,
    left: int,
    right: int,
    current_left: int,
)
    ensures
        apply_range::<i64, i64, SumOperator, AdditiveSifter>(
            apply_range::<i64, i64, SumOperator, AdditiveSifter>(
                view,
                first,
                left,
                right,
                current_left,
            ),
            second,
            left,
            right,
            current_left,
        ) == apply_range::<i64, i64, SumOperator, AdditiveSifter>(
            view,
            wrap_i64(first + second),
            left,
            right,
            current_left,
        ),
{
    let once = apply_range::<i64, i64, SumOperator, AdditiveSifter>(
        view,
        wrap_i64(first + second),
        left,
        right,
        current_left,
    );
    let twice = apply_range::<i64, i64, SumOperator, AdditiveSifter>(
        apply_range::<i64, i64, SumOperator, AdditiveSifter>(view, first, left, right, current_left),
        second,
        left,
        right,
        current_left,
    );
    assert forall|k: int| 0 <= k < view.len() implies twice[k] == once[k] by {
        if left <= current_left + k <= right {
            lemma_wrap_i64_absorb(view[k] + first, second as int);
            lemma_wrap_i64_absorb(first + second, view[k] as int);
        }
    }
    assert(twice =~= once);
}

/// A segment tree whose nodes carry delta-bearing cells; range updates
/// store a pending delta high in the tree and later traversals sift it
/// downward, so both `query` and `update_range` stay logarithmic.
///
/// Its view is the represented sequence with all pending deltas applied;
/// `update_range` maps the sifter's element-level change over a subrange of
/// that view, and `query` folds the operator over a subrange of it.
pub struct LazySegmentTree<T, D, O, S> {
    tree: ImplicitTree<DeltaWrapper<T, D>>,
    operator: O,
    sifter: S,
    length: usize,
}

impl<
    T: Copy,
    D: Copy,
    O: AssociativeOperator<T>,
    S: DeltaSifter<T, D, O>,
> View for LazySegmentTree<T, D, O, S> {
    type V = Seq<T>;

    closed spec fn view(&self) -> Seq<T> {
        lazy_view_node::<T, D, O, S>(self.tree.cells(), 0, 0, self.length - 1)
    }
}

impl<
    T: Copy,
    D: Copy,
    O: AssociativeOperator<T>,
    S: DeltaSifter<T, D, O>,
> LazySegmentTree<T, D, O, S> {
    /// The tree is a correct lazy segment tree over its whole index range.
    pub closed spec fn wf(self) -> bool {
        &&& self.tree.wf()
        &&& self.tree.width() == 2
        &&& self.length >= 1
        &&& self.length <= usize::MAX / 4
        &&& lazy_wf_node::<T, D, O, S>(self.tree.cells(), 0, 0, self.length - 1)
    }

    /// How many values the tree represents.
    pub fn len(&self) -> (n: usize)
        requires
            self.wf(),
        ensures
            n == self@.len(),
    {
        proof {
            lemma_lazy_view_node_len::<T, D, O, S>(self.tree.cells(), 0, 0, self.length - 1);
        }
        self.length
    }

    /// Applies the pending delta of `node`, if any: folds it into the
    /// node's own aggregate, hands a copy down to each child's delta slot
    /// — after first sifting the child, so no queued delta is overwritten
    /// before it has been applied — and clears the node's own slot.  The
    /// represented sequence does not change.
    fn sift_node(&mut self, node: usize, current_left: usize, current_right: usize)
        requires
            old(self).tree.wf(),
            old(self).tree.width() == 2,
            lazy_wf_node::<T, D, O, S>(
                old(self).tree.cells(),
                node as int,
                current_left as int,
                current_right as int,
            ),
            current_left <= current_right,
            current_right - current_left + 1 <= usize::MAX / 4,
            current_right <= usize::MAX / 2,
        ensures
            final(self).tree.wf(),
            final(self).tree.width() == 2,
            final(self).length == old(self).length,
            final(self).operator == old(self).operator,
            final(self).sifter == old(self).sifter,
            final(self).tree.cells().len() == old(self).tree.cells().len(),
            lazy_wf_node::<T, D, O, S>(
                final(self).tree.cells(),
                node as int,
                current_left as int,
                current_right as int,
            ),
            lazy_view_node::<T, D, O, S>(
                final(self).tree.cells(),
                node as int,
                current_left as int,
                current_right as int,
            ) == lazy_view_node::<T, D, O, S>(
                old(self).tree.cells(),
                node as int,
                current_left as int,
                current_right as int,
            ),
            final(self).tree.cells()[node as int].unwrap().delta is None,
            final(self).tree.cells()[node as int].unwrap().object == fold_combine::<T, O>(
                lazy_view_node::<T, D, O, S>(
                    final(self).tree.cells(),
                    node as int,
                    current_left as int,
                    current_right as int,
                ),
            ),
            forall|j: int|
                0 <= j < final(self).tree.cells().len() && !subtree_contains(
                    node as int,
                    current_left as int,
                    current_right as int,
                    j,
                ) ==> final(self).tree.cells()[j] == old(self).tree.cells()[j],
        decreases current_right - current_left,
    {
        let ghost cells0 = old(self).tree.cells();
        let ghost cl = current_left as int;
        let ghost cr = current_right as int;
        let ghost size = cr - cl + 1;
        proof {
            self.tree.lemma_cells_len();
        }
        let cell = self.tree.get(node).unwrap();
        let delta = match cell.delta {
            Some(delta) => delta,
            None => {
                proof {
                    lemma_lazy_effective_fold::<T, D, O, S>(cells0, node as int, cl, cr);
                }
                return ;
            },
        };
        let range_length = (current_right - current_left) + 1;
        let new_value = self.sifter.sift(&cell.object, &delta, range_length);
        self.tree.set_value(node, DeltaWrapper { object: new_value, delta: None });
        let ghost cells1 = self.tree.cells();
        let ghost view0 = lazy_view_node::<T, D, O, S>(cells0, node as int, cl, cr);
        if current_left == current_right {
            proof {
                S::leaf_law(cell.object, delta);
                assert(lazy_view_node::<T, D, O, S>(cells1, node as int, cl, cr) =~= view0);
            }
            return ;
        }
        let (middle_left, middle_right) = split_range(current_left, current_right);
        proof {
            assert(lazy_wf_node::<T, D, O, S>(cells0, 2 * node + 1, cl, (cl + cr) / 2));
            assert(lazy_wf_node::<T, D, O, S>(cells0, 2 * node + 2, (cl + cr) / 2 + 1, cr));
        }
        let left_child = self.tree.child(node, 0);
        let right_child = self.tree.child(node, 1);
        let ghost ml = middle_left as int;
        let ghost mr = middle_right as int;
        let ghost lc = left_child as int;
        let ghost rc = right_child as int;
        let ghost view_left0 = lazy_view_node::<T, D, O, S>(cells0, lc, cl, ml);
        let ghost view_right0 = lazy_view_node::<T, D, O, S>(cells0, rc, mr, cr);
        proof {
            assert(lazy_wf_node::<T, D, O, S>(cells0, lc, cl, ml));
            assert(lazy_wf_node::<T, D, O, S>(cells0, rc, mr, cr));
            lemma_lazy_view_node_len::<T, D, O, S>(cells0, lc, cl, ml);
            lemma_lazy_view_node_len::<T, D, O, S>(cells0, rc, mr, cr);
            // The parent write does not touch either child subtree.
            assert forall|t: int| #[trigger] subtree_contains(lc, cl, ml, t) implies 0 <= t
                < cells1.len() && cells1[t] == cells0[t] by {
                lemma_lazy_wf_node_members::<T, D, O, S>(cells0, lc, cl, ml, t);
                lemma_subtree_on_parent_chain(lc, cl, ml, t);
            }
            assert forall|t: int| #[trigger] subtree_contains(rc, mr, cr, t) implies 0 <= t
                < cells1.len() && cells1[t] == cells0[t] by {
                lemma_lazy_wf_node_members::<T, D, O, S>(cells0, rc, mr, cr, t);
                lemma_subtree_on_parent_chain(rc, mr, cr, t);
            }
            lemma_lazy_wf_node_frame::<T, D, O, S>(cells0, cells1, lc, cl, ml);
            lemma_lazy_wf_node_frame::<T, D, O, S>(cells0, cells1, rc, mr, cr);
        }
        // Resolve the left child's own pending delta, then queue this one.
        self.sift_node(left_child, current_left, middle_left);
        let ghost cells2 = self.tree.cells();
        let left_cell = self.tree.get(left_child).unwrap();
        self.tree.set_value(
            left_child,
            DeltaWrapper { object: left_cell.object, delta: Some(delta) },
        );
        let ghost cells3 = self.tree.cells();
        proof {
            // The left sift and delta write leave the right subtree alone.
            assert forall|t: int| #[trigger] subtree_contains(rc, mr, cr, t) implies 0 <= t
                < cells3.len() && cells3[t] == cells1[t] by {
                lemma_lazy_wf_node_members::<T, D, O, S>(cells1, rc, mr, cr, t);
                if subtree_contains(lc, cl, ml, t) {
                    lemma_subtrees_disjoint(node as int, cl, ml, cr, t);
                }
                lemma_subtree_on_parent_chain(rc, mr, cr, t);
            }
            lemma_lazy_wf_node_frame::<T, D, O, S>(cells1, cells3, rc, mr, cr);
            lemma_set_delta::<T, D, O, S>(cells2, cells3, lc, cl, ml, delta);
        }
        // Same for the right child.
        self.sift_node(right_child, middle_right, current_right);
        let ghost cells4 = self.tree.cells();
        let right_cell = self.tree.get(right_child).unwrap();
        self.tree.set_value(
            right_child,
            DeltaWrapper { object: right_cell.object, delta: Some(delta) },
        );
        let ghost cells5 = self.tree.cells();
        proof {
            // The right sift and delta write leave the left subtree alone.
            assert forall|t: int| #[trigger] subtree_contains(lc, cl, ml, t) implies 0 <= t
                < cells5.len() && cells5[t] == cells3[t] by {
                lemma_lazy_wf_node_members::<T, D, O, S>(cells3, lc, cl, ml, t);
                lemma_subtrees_disjoint(node as int, cl, ml, cr, t);
                lemma_subtree_on_parent_chain(lc, cl, ml, t);
            }
            lemma_lazy_wf_node_frame::<T, D, O, S>(cells3, cells5, lc, cl, ml);
            lemma_set_delta::<T, D, O, S>(cells4, cells5, rc, mr, cr, delta);
            // Neither child subtree holds the parent, so the parent cell is
            // still the sifted one.
            if subtree_contains(lc, cl, ml, node as int) {
                lemma_subtree_on_parent_chain(lc, cl, ml, node as int);
            }
            if subtree_contains(rc, mr, cr, node as int) {
                lemma_subtree_on_parent_chain(rc, mr, cr, node as int);
            }
            assert(cells5[node as int].unwrap().object == new_value);
            assert(cells5[node as int].unwrap().delta is None);
            // The children now represent their old sequences with the delta
            // applied, so the whole subtree represents what it did before.
            let view_left5 = lazy_view_node::<T, D, O, S>(cells5, lc, cl, ml);
            let view_right5 = lazy_view_node::<T, D, O, S>(cells5, rc, mr, cr);
            assert(view_left5 == map_delta::<T, D, O, S>(view_left0, delta));
            assert(view_right5 == map_delta::<T, D, O, S>(view_right0, delta));
            assert(view_left5 + view_right5 =~= map_delta::<T, D, O, S>(
                view_left0 + view_right0,
                delta,
            ));
            assert(view0 == map_delta::<T, D, O, S>(view_left0 + view_right0, delta));
            assert(lazy_view_node::<T, D, O, S>(cells5, node as int, cl, cr) == view_left5
                + view_right5);
            // The new aggregate is the fold of the delta-mapped sequence.
            assert(cell.object == fold_combine::<T, O>(view_left0 + view_right0));
            lemma_sift_fold::<T, D, O, S>(view_left0 + view_right0, delta);
            assert(new_value == fold_combine::<T, O>(
                lazy_view_node::<T, D, O, S>(cells5, node as int, cl, cr),
            ));
            assert(lazy_wf_node::<T, D, O, S>(cells5, node as int, cl, cr));
            assert forall|j: int|
                0 <= j < cells5.len() && !subtree_contains(node as int, cl, cr, j) implies cells5[j]
                == cells0[j] by {
                assert(subtree_contains(lc, cl, ml, lc));
                assert(subtree_contains(rc, mr, cr, rc));
                assert(!subtree_contains(lc, cl, ml, j));
                assert(!subtree_contains(rc, mr, cr, j));
            }
        }
    }

    /// The fold of the operator over the represented values at indexes
    /// `[left, right]`.  Every node visited is sifted before it is read, so
    /// no stale pending delta is ever observed; the represented sequence is
    /// unchanged.
    pub fn query(&mut self, left: usize, right: usize) -> (r: T)
        requires
            old(self).wf(),
            left <= right,
            right < old(self)@.len(),
        ensures
            final(self).wf(),
            final(self)@ == old(self)@,
            r == fold_combine::<T, O>(old(self)@.subrange(left as int, right + 1)),
    {
        proof {
            lemma_lazy_view_node_len::<T, D, O, S>(self.tree.cells(), 0, 0, self.length - 1);
        }
        let last = self.length - 1;
        let r = self.query_recursively(0, left, right, 0, last);
        proof {
            assert(clipped(old(self)@, left as int, right as int, 0, last as int) =~= old(
                self,
            )@.subrange(left as int, right + 1));
        }
        r.unwrap()
    }

    /// Answers a query below `node`, which covers `[current_left,
    /// current_right]`: sifts the node, then yields the fold over the part
    /// of the node's range that intersects `[left, right]`, which must be
    /// non-empty.  Cells outside the subtree, and the represented sequence,
    /// are unchanged.
    #[verifier::rlimit(50)]
    fn query_recursively(
        &mut self,
        node: usize,
        left: usize,
        right: usize,
        current_left: usize,
        current_right: usize,
    ) -> (r: Option<T>)
        requires
            old(self).tree.wf(),
            old(self).tree.width() == 2,
            lazy_wf_node::<T, D, O, S>(
                old(self).tree.cells(),
                node as int,
                current_left as int,
                current_right as int,
            ),
            current_left <= current_right,
            current_right - current_left + 1 <= usize::MAX / 4,
            current_right <= usize::MAX / 2,
            left <= right,
            left <= current_right,
            current_left <= right,
        ensures
            final(self).tree.wf(),
            final(self).tree.width() == 2,
            final(self).length == old(self).length,
            final(self).operator == old(self).operator,
            final(self).sifter == old(self).sifter,
            final(self).tree.cells().len() == old(self).tree.cells().len(),
            lazy_wf_node::<T, D, O, S>(
                final(self).tree.cells(),
                node as int,
                current_left as int,
                current_right as int,
            ),
            lazy_view_node::<T, D, O, S>(
                final(self).tree.cells(),
                node as int,
                current_left as int,
                current_right as int,
            ) == lazy_view_node::<T, D, O, S>(
                old(self).tree.cells(),
                node as int,
                current_left as int,
                current_right as int,
            ),
            forall|j: int|
                0 <= j < final(self).tree.cells().len() && !subtree_contains(
                    node as int,
                    current_left as int,
                    current_right as int,
                    j,
                ) ==> final(self).tree.cells()[j] == old(self).tree.cells()[j],
            r == Some(
                fold_combine::<T, O>(
                    clipped(
                        lazy_view_node::<T, D, O, S>(
                            old(self).tree.cells(),
                            node as int,
                            current_left as int,
                            current_right as int,
                        ),
                        left as int,
                        right as int,
                        current_left as int,
                        current_right as int,
                    ),
                ),
            ),
        decreases current_right - current_left,
    {
        let ghost cells0 = old(self).tree.cells();
        let ghost cl = current_left as int;
        let ghost cr = current_right as int;
        self.sift_node(node, current_left, current_right);
        let ghost cells1 = self.tree.cells();
        let ghost view = lazy_view_node::<T, D, O, S>(cells1, node as int, cl, cr);
        proof {
            lemma_lazy_view_node_len::<T, D, O, S>(cells1, node as int, cl, cr);
        }
        let in_range = left <= current_left && current_right <= right;
        if in_range {
            let cell = self.tree.get(node).unwrap();
            proof {
                assert(clipped(view, left as int, right as int, cl, cr) =~= view);
            }
            return Some(cell.object);
        }
        let (middle_left, middle_right) = split_range(current_left, current_right);
        let ghost ml = middle_left as int;
        let ghost mr = middle_right as int;
        let ghost view_left = lazy_view_node::<T, D, O, S>(cells1, 2 * node + 1, cl, ml);
        let ghost view_right = lazy_view_node::<T, D, O, S>(cells1, 2 * node + 2, mr, cr);
        proof {
            self.tree.lemma_cells_len();
            assert(lazy_wf_node::<T, D, O, S>(cells1, 2 * node + 1, cl, ml));
            assert(lazy_wf_node::<T, D, O, S>(cells1, 2 * node + 2, mr, cr));
            lemma_lazy_view_node_len::<T, D, O, S>(cells1, 2 * node + 1, cl, ml);
            lemma_lazy_view_node_len::<T, D, O, S>(cells1, 2 * node + 2, mr, cr);
        }
        let mut left_value: Option<T> = None;
        let mut right_value: Option<T> = None;
        if middle_left >= left {
            let left_child = self.tree.child(node, 0);
            left_value = self.query_recursively(left_child, left, right, current_left, middle_left);
        }
        let ghost cells2 = self.tree.cells();
        proof {
            if middle_left >= left {
                assert forall|t: int| #[trigger] subtree_contains(2 * node + 2, mr, cr, t) implies 0
                    <= t < cells2.len() && cells2[t] == cells1[t] by {
                    lemma_lazy_wf_node_members::<T, D, O, S>(cells1, 2 * node + 2, mr, cr, t);
                    if subtree_contains(2 * node + 1, cl, ml, t) {
                        lemma_subtrees_disjoint(node as int, cl, ml, cr, t);
                    }
                }
                lemma_lazy_wf_node_frame::<T, D, O, S>(cells1, cells2, 2 * node + 2, mr, cr);
                if subtree_contains(2 * node + 1, cl, ml, node as int) {
                    lemma_subtree_on_parent_chain(2 * node + 1, cl, ml, node as int);
                }
            }
            assert(cells2[node as int] == cells1[node as int]);
            assert(lazy_wf_node::<T, D, O, S>(cells2, 2 * node + 1, cl, ml));
            assert(lazy_view_node::<T, D, O, S>(cells2, 2 * node + 1, cl, ml) == view_left);
            assert(lazy_wf_node::<T, D, O, S>(cells2, 2 * node + 2, mr, cr));
            assert(lazy_view_node::<T, D, O, S>(cells2, 2 * node + 2, mr, cr) == view_right);
        }
        proof {
            self.tree.lemma_cells_len();
        }
        if middle_right <= right {
            let right_child = self.tree.child(node, 1);
            right_value = self.query_recursively(
                right_child,
                left,
                right,
                middle_right,
                current_right,
            );
        }
        let ghost cells3 = self.tree.cells();
        proof {
            if middle_right <= right {
                assert forall|t: int| #[trigger] subtree_contains(2 * node + 1, cl, ml, t) implies 0
                    <= t < cells3.len() && cells3[t] == cells2[t] by {
                    lemma_lazy_wf_node_members::<T, D, O, S>(cells2, 2 * node + 1, cl, ml, t);
                    lemma_subtrees_disjoint(node as int, cl, ml, cr, t);
                }
                lemma_lazy_wf_node_frame::<T, D, O, S>(cells2, cells3, 2 * node + 1, cl, ml);
                if subtree_contains(2 * node + 2, mr, cr, node as int) {
                    lemma_subtree_on_parent_chain(2 * node + 2, mr, cr, node as int);
                }
            }
            assert(cells3[node as int] == cells1[node as int]);
            assert(lazy_wf_node::<T, D, O, S>(cells3, 2 * node + 1, cl, ml));
            assert(lazy_view_node::<T, D, O, S>(cells3, 2 * node + 1, cl, ml) == view_left);
            assert(lazy_wf_node::<T, D, O, S>(cells3, 2 * node + 2, mr, cr));
            assert(lazy_view_node::<T, D, O, S>(cells3, 2 * node + 2, mr, cr) == view_right);
            assert(lazy_wf_node::<T, D, O, S>(cells3, node as int, cl, cr));
            assert(lazy_view_node::<T, D, O, S>(cells3, node as int, cl, cr) == view);
            assert forall|j: int|
                0 <= j < cells3.len() && !subtree_contains(node as int, cl, cr, j) implies cells3[j]
                == cells0[j] by {
                assert(!subtree_contains(2 * node + 1, cl, ml, j));
                assert(!subtree_contains(2 * node + 2, mr, cr, j));
            }
        }
        let ghost goal = clipped(view, left as int, right as int, cl, cr);
        if let Some(a) = left_value {
            if let Some(b) = right_value {
                let combined = self.operator.combine(&a, &b);
                proof {
                    let part_left = clipped(view_left, left as int, right as int, cl, ml);
                    let part_right = clipped(view_right, left as int, right as int, mr, cr);
                    lemma_fold_concat::<T, O>(part_left, part_right);
                    assert(part_left + part_right =~= goal);
                }
                Some(combined)
            } else {
                proof {
                    assert(clipped(view_left, left as int, right as int, cl, ml) =~= goal);
                }
                Some(a)
            }
        } else {
            if let Some(b) = right_value {
                proof {
                    assert(clipped(view_right, left as int, right as int, mr, cr) =~= goal);
                }
                Some(b)
            } else {
                proof {
                    assert(false);
                }
                None
            }
        }
    }

    /// Applies `delta` to every represented value at indexes `[left,
    /// right]`: fully covered nodes store the delta as pending and fold it
    /// into their own aggregate at once; partially covered nodes recurse and
    /// recombine from their children's effective aggregates, each child's
    /// pending delta folded in, so every node's aggregate stays correct.
    pub fn update_range(&mut self, left: usize, right: usize, delta: &D)
        requires
            old(self).wf(),
            left <= right,
            right < old(self)@.len(),
        ensures
            final(self).wf(),
            final(self)@ == apply_range::<T, D, O, S>(
                old(self)@,
                *delta,
                left as int,
                right as int,
                0,
            ),
    {
        proof {
            lemma_lazy_view_node_len::<T, D, O, S>(self.tree.cells(), 0, 0, self.length - 1);
        }
        let last = self.length - 1;
        self.update_range_recursively(0, left, right, 0, last, *delta);
    }

    /// Applies a range update below `node`, which covers `[current_left,
    /// current_right]`; the intersection with `[left, right]` must be
    /// non-empty.  Cells outside the subtree are unchanged.
    #[verifier::rlimit(50)]
    fn update_range_recursively(
        &mut self,
        node: usize,
        left: usize,
        right: usize,
        current_left: usize,
        current_right: usize,
        delta: D,
    )
        requires
            old(self).tree.wf(),
            old(self).tree.width() == 2,
            lazy_wf_node::<T, D, O, S>(
                old(self).tree.cells(),
                node as int,
                current_left as int,
                current_right as int,
            ),
            current_left <= current_right,
            current_right - current_left + 1 <= usize::MAX / 4,
            current_right <= usize::MAX / 2,
            left <= right,
            left <= current_right,
            current_left <= right,
        ensures
            final(self).tree.wf(),
            final(self).tree.width() == 2,
            final(self).length == old(self).length,
            final(self).operator == old(self).operator,
            final(self).sifter == old(self).sifter,
            final(self).tree.cells().len() == old(self).tree.cells().len(),
            lazy_wf_node::<T, D, O, S>(
                final(self).tree.cells(),
                node as int,
                current_left as int,
                current_right as int,
            ),
            lazy_view_node::<T, D, O, S>(
                final(self).tree.cells(),
                node as int,
                current_left as int,
                current_right as int,
            ) == apply_range::<T, D, O, S>(
                lazy_view_node::<T, D, O, S>(
                    old(self).tree.cells(),
                    node as int,
                    current_left as int,
                    current_right as int,
                ),
                delta,
                left as int,
                right as int,
                current_left as int,
            ),
            forall|j: int|
                0 <= j < final(self).tree.cells().len() && !subtree_contains(
                    node as int,
                    current_left as int,
                    current_right as int,
                    j,
                ) ==> final(self).tree.cells()[j] == old(self).tree.cells()[j],
        decreases current_right - current_left,
    {
        let ghost cells0 = old(self).tree.cells();
        let ghost cl = current_left as int;
        let ghost cr = current_right as int;
        self.sift_node(node, current_left, current_right);
        let ghost cells1 = self.tree.cells();
        let ghost view = lazy_view_node::<T, D, O, S>(cells1, node as int, cl, cr);
        proof {
            lemma_lazy_view_node_len::<T, D, O, S>(cells1, node as int, cl, cr);
        }
        let in_range = left <= current_left && current_right <= right;
        if in_range {
            let cell = self.tree.get(node).unwrap();
            self.tree.set_value(node, DeltaWrapper { object: cell.object, delta: Some(delta) });
            let ghost cells2 = self.tree.cells();
            proof {
                lemma_set_delta::<T, D, O, S>(cells1, cells2, node as int, cl, cr, delta);
            }
            self.sift_node(node, current_left, current_right);
            proof {
                let cells3 = self.tree.cells();
                assert(map_delta::<T, D, O, S>(view, delta) =~= apply_range::<T, D, O, S>(
                    view,
                    delta,
                    left as int,
                    right as int,
                    cl,
                ));
                assert forall|j: int|
                    0 <= j < cells3.len() && !subtree_contains(node as int, cl, cr, j) implies
                    cells3[j] == cells0[j] by {
                    assert(subtree_contains(node as int, cl, cr, node as int));
                }
            }
            return ;
        }
        let (middle_left, middle_right) = split_range(current_left, current_right);
        let ghost ml = middle_left as int;
        let ghost mr = middle_right as int;
        let ghost view_left = lazy_view_node::<T, D, O, S>(cells1, 2 * node + 1, cl, ml);
        let ghost view_right = lazy_view_node::<T, D, O, S>(cells1, 2 * node + 2, mr, cr);
        proof {
            self.tree.lemma_cells_len();
            assert(lazy_wf_node::<T, D, O, S>(cells1, 2 * node + 1, cl, ml));
            assert(lazy_wf_node::<T, D, O, S>(cells1, 2 * node + 2, mr, cr));
            lemma_lazy_view_node_len::<T, D, O, S>(cells1, 2 * node + 1, cl, ml);
            lemma_lazy_view_node_len::<T, D, O, S>(cells1, 2 * node + 2, mr, cr);
        }
        if middle_left >= left {
            let left_child = self.tree.child(node, 0);
            self.update_range_recursively(
                left_child,
                left,
                right,
                current_left,
                middle_left,
                delta,
            );
        }
        let ghost cells2 = self.tree.cells();
        proof {
            if middle_left >= left {
                assert forall|t: int| #[trigger] subtree_contains(2 * node + 2, mr, cr, t) implies 0
                    <= t < cells2.len() && cells2[t] == cells1[t] by {
                    lemma_lazy_wf_node_members::<T, D, O, S>(cells1, 2 * node + 2, mr, cr, t);
                    if subtree_contains(2 * node + 1, cl, ml, t) {
                        lemma_subtrees_disjoint(node as int, cl, ml, cr, t);
                    }
                }
                lemma_lazy_wf_node_frame::<T, D, O, S>(cells1, cells2, 2 * node + 2, mr, cr);
                if subtree_contains(2 * node + 1, cl, ml, node as int) {
                    lemma_subtree_on_parent_chain(2 * node + 1, cl, ml, node as int);
                }
            }
            assert(cells2[node as int] == cells1[node as int]);
            assert(lazy_wf_node::<T, D, O, S>(cells2, 2 * node + 1, cl, ml));
            assert(lazy_wf_node::<T, D, O, S>(cells2, 2 * node + 2, mr, cr));
            assert(lazy_view_node::<T, D, O, S>(cells2, 2 * node + 1, cl, ml) =~= apply_range::<
                T,
                D,
                O,
                S,
            >(view_left, delta, left as int, right as int, cl));
            assert(lazy_view_node::<T, D, O, S>(cells2, 2 * node + 2, mr, cr) == view_right);
            self.tree.lemma_cells_len();
        }
        if middle_right <= right {
            let right_child = self.tree.child(node, 1);
            self.update_range_recursively(
                right_child,
                left,
                right,
                middle_right,
                current_right,
                delta,
            );
        }
        let ghost cells3 = self.tree.cells();
        let ghost view_left3 = apply_range::<T, D, O, S>(
            view_left,
            delta,
            left as int,
            right as int,
            cl,
        );
        let ghost view_right3 = apply_range::<T, D, O, S>(
            view_right,
            delta,
            left as int,
            right as int,
            mr,
        );
        proof {
            if middle_right <= right {
                assert forall|t: int| #[trigger] subtree_contains(2 * node + 1, cl, ml, t) implies 0
                    <= t < cells3.len() && cells3[t] == cells2[t] by {
                    lemma_lazy_wf_node_members::<T, D, O, S>(cells2, 2 * node + 1, cl, ml, t);
                    lemma_subtrees_disjoint(node as int, cl, ml, cr, t);
                }
                lemma_lazy_wf_node_frame::<T, D, O, S>(cells2, cells3, 2 * node + 1, cl, ml);
                if subtree_contains(2 * node + 2, mr, cr, node as int) {
                    lemma_subtree_on_parent_chain(2 * node + 2, mr, cr, node as int);
                }
            }
            assert(cells3[node as int] == cells1[node as int]);
            assert(lazy_wf_node::<T, D, O, S>(cells3, 2 * node + 1, cl, ml));
            assert(lazy_wf_node::<T, D, O, S>(cells3, 2 * node + 2, mr, cr));
            assert(lazy_view_node::<T, D, O, S>(cells3, 2 * node + 1, cl, ml) == view_left3);
            assert(lazy_view_node::<T, D, O, S>(cells3, 2 * node + 2, mr, cr) =~= view_right3);
            lemma_lazy_view_node_len::<T, D, O, S>(cells3, 2 * node + 1, cl, ml);
            lemma_lazy_view_node_len::<T, D, O, S>(cells3, 2 * node + 2, mr, cr);
            lemma_lazy_effective_fold::<T, D, O, S>(cells3, 2 * node + 1, cl, ml);
            lemma_lazy_effective_fold::<T, D, O, S>(cells3, 2 * node + 2, mr, cr);
            self.tree.lemma_cells_len();
        }
        let left_child = self.tree.child(node, 0);
        let right_child = self.tree.child(node, 1);
        let left_cell = self.tree.get(left_child).unwrap();
        let right_cell = self.tree.get(right_child).unwrap();
        let left_length = (middle_left - current_left) + 1;
        let right_length = (current_right - middle_right) + 1;
        let left_effective = match left_cell.delta {
            Some(pending) => self.sifter.sift(&left_cell.object, &pending, left_length),
            None => left_cell.object,
        };
        let right_effective = match right_cell.delta {
            Some(pending) => self.sifter.sift(&right_cell.object, &pending, right_length),
            None => right_cell.object,
        };
        proof {
            assert(left_effective == fold_combine::<T, O>(view_left3));
            assert(right_effective == fold_combine::<T, O>(view_right3));
        }
        let combined = self.operator.combine(&left_effective, &right_effective);
        self.tree.set_value(node, DeltaWrapper { object: combined, delta: None });
        proof {
            let cells4 = self.tree.cells();
            assert forall|t: int| #[trigger] subtree_contains(2 * node + 1, cl, ml, t) implies 0
                <= t < cells4.len() && cells4[t] == cells3[t] by {
                lemma_lazy_wf_node_members::<T, D, O, S>(cells3, 2 * node + 1, cl, ml, t);
                lemma_subtree_on_parent_chain(2 * node + 1, cl, ml, t);
            }
            assert forall|t: int| #[trigger] subtree_contains(2 * node + 2, mr, cr, t) implies 0
                <= t < cells4.len() && cells4[t] == cells3[t] by {
                lemma_lazy_wf_node_members::<T, D, O, S>(cells3, 2 * node + 2, mr, cr, t);
                lemma_subtree_on_parent_chain(2 * node + 2, mr, cr, t);
            }
            lemma_lazy_wf_node_frame::<T, D, O, S>(cells3, cells4, 2 * node + 1, cl, ml);
            lemma_lazy_wf_node_frame::<T, D, O, S>(cells3, cells4, 2 * node + 2, mr, cr);
            lemma_fold_concat::<T, O>(view_left3, view_right3);
            assert(lazy_wf_node::<T, D, O, S>(cells4, node as int, cl, cr));
            assert(lazy_view_node::<T, D, O, S>(cells4, node as int, cl, cr) == view_left3
                + view_right3);
            assert(view_left3 + view_right3 =~= apply_range::<T, D, O, S>(
                view,
                delta,
                left as int,
                right as int,
                cl,
            ));
            assert forall|j: int|
                0 <= j < cells4.len() && !subtree_contains(node as int, cl, cr, j) implies cells4[j]
                == cells0[j] by {
                assert(subtree_contains(2 * node + 1, cl, ml, 2 * node + 1));
                assert(subtree_contains(2 * node + 2, mr, cr, 2 * node + 2));
                assert(!subtree_contains(2 * node + 1, cl, ml, j));
                assert(!subtree_contains(2 * node + 2, mr, cr, j));
            }
        }
    }

    /// Builds the subtree for `[range_left, range_right]` under `node`,
    /// consuming that many values from the tail of the source; the right
    /// subtree is built before the left one, so the represented sequence
    /// comes out in the source's order.  Every cell starts with no pending
    /// delta.
    fn construct_recursively<V: FixedDataSource<T>>(
        values: &mut V,
        operator: &O,
        tree: &mut ImplicitTree<DeltaWrapper<T, D>>,
        range_left: usize,
        range_right: usize,
        node: usize,
        Ghost(depth): Ghost<nat>,
        Ghost(total): Ghost<nat>,
    )
        requires
            old(tree).wf(),
            old(tree).width() == 2,
            range_left <= range_right,
            range_right < total,
            total <= usize::MAX / 4,
            old(values).remaining().len() >= range_right - range_left + 1,
            node + 2 <= pow2((depth + 1) as nat),
            range_left < range_right ==> pow2(depth) * (range_right - range_left) <= total - 1,
            range_left == range_right ==> (depth == 0 || pow2(depth) <= 2 * (total - 1)),
        ensures
            final(tree).wf(),
            final(tree).width() == 2,
            final(tree).cells().len() >= old(tree).cells().len(),
            final(values).remaining() == old(values).remaining().take(
                old(values).remaining().len() - (range_right - range_left + 1),
            ),
            lazy_wf_node::<T, D, O, S>(
                final(tree).cells(),
                node as int,
                range_left as int,
                range_right as int,
            ),
            lazy_view_node::<T, D, O, S>(
                final(tree).cells(),
                node as int,
                range_left as int,
                range_right as int,
            ) == old(values).remaining().skip(
                old(values).remaining().len() - (range_right - range_left + 1),
            ),
            final(tree).cells()[node as int].unwrap().delta is None,
            final(tree).cells()[node as int].unwrap().object == fold_combine::<T, O>(
                lazy_view_node::<T, D, O, S>(
                    final(tree).cells(),
                    node as int,
                    range_left as int,
                    range_right as int,
                ),
            ),
            forall|j: int|
                0 <= j < final(tree).cells().len() && !subtree_contains(
                    node as int,
                    range_left as int,
                    range_right as int,
                    j,
                ) ==> final(tree).cells()[j] == (if j < old(tree).cells().len() {
                    old(tree).cells()[j]
                } else {
                    None
                }),
        decreases range_right - range_left,
    {
        let ghost cells0 = old(tree).cells();
        let ghost rem0 = old(values).remaining();
        proof {
            lemma2_to64();
            lemma_pow2_unfold((depth + 1) as nat);
            lemma_pow2_pos(depth);
            if range_left < range_right {
                assert(pow2(depth) * 1 <= pow2(depth) * (range_right - range_left))
                    by (nonlinear_arith)
                    requires
                        pow2(depth) >= 1,
                        range_right - range_left >= 1,
                ;
            }
        }
        if range_right == range_left {
            let value = values.next_back().unwrap();
            tree.insert_unchecked(node, DeltaWrapper::new(value));
            proof {
                assert(lazy_view_node::<T, D, O, S>(
                    tree.cells(),
                    node as int,
                    range_left as int,
                    range_right as int,
                ) =~= rem0.skip(rem0.len() - 1));
                assert(values.remaining() =~= rem0.take(rem0.len() - 1));
            }
            return ;
        }
        let (middle_left, middle_right) = split_range(range_left, range_right);
        let left_child = tree.child(node, 0);
        let right_child = tree.child(node, 1);
        let ghost cl = range_left as int;
        let ghost cr = range_right as int;
        let ghost ml = middle_left as int;
        let ghost mr = middle_right as int;
        let ghost size = cr - cl + 1;
        proof {
            lemma_pow2_unfold((depth + 2) as nat);
            assert(pow2((depth + 1) as nat) * (ml - cl) <= pow2(depth) * (cr - cl))
                by (nonlinear_arith)
                requires
                    pow2((depth + 1) as nat) == 2 * pow2(depth),
                    pow2(depth) >= 0,
                    ml - cl == (cr - cl) / 2,
                    cr - cl >= 1,
            ;
            assert(pow2((depth + 1) as nat) * (cr - mr) <= pow2(depth) * (cr - cl))
                by (nonlinear_arith)
                requires
                    pow2((depth + 1) as nat) == 2 * pow2(depth),
                    pow2(depth) >= 0,
                    mr == (cl + cr) / 2 + 1,
                    cr - cl >= 1,
            ;
        }
        Self::construct_recursively(
            values,
            operator,
            tree,
            middle_right,
            range_right,
            right_child,
            Ghost((depth + 1) as nat),
            Ghost(total),
        );
        let ghost cells1 = tree.cells();
        let ghost rem1 = values.remaining();
        Self::construct_recursively(
            values,
            operator,
            tree,
            range_left,
            middle_left,
            left_child,
            Ghost((depth + 1) as nat),
            Ghost(total),
        );
        let ghost cells2 = tree.cells();
        proof {
            // The right subtree was untouched while the left one was built.
            assert forall|t: int| #[trigger] subtree_contains(right_child as int, mr, cr, t) implies
                0 <= t < cells2.len() && cells2[t] == cells1[t] by {
                lemma_lazy_wf_node_members::<T, D, O, S>(cells1, right_child as int, mr, cr, t);
                if subtree_contains(left_child as int, cl, ml, t) {
                    lemma_subtrees_disjoint(node as int, cl, ml, cr, t);
                }
            }
            lemma_lazy_wf_node_frame::<T, D, O, S>(cells1, cells2, right_child as int, mr, cr);
            assert(subtree_contains(right_child as int, mr, cr, right_child as int));
            assert(subtree_contains(left_child as int, cl, ml, left_child as int));
        }
        let a = tree.get(left_child).unwrap();
        let b = tree.get(right_child).unwrap();
        let value = operator.combine(&a.object, &b.object);
        tree.insert_unchecked(node, DeltaWrapper { object: value, delta: None });
        let ghost cells3 = tree.cells();
        proof {
            // Writing the parent leaves both child subtrees as they were.
            assert forall|t: int| #[trigger] subtree_contains(left_child as int, cl, ml, t) implies
                0 <= t < cells3.len() && cells3[t] == cells2[t] by {
                lemma_lazy_wf_node_members::<T, D, O, S>(cells2, left_child as int, cl, ml, t);
                lemma_subtree_on_parent_chain(left_child as int, cl, ml, t);
            }
            assert forall|t: int| #[trigger] subtree_contains(right_child as int, mr, cr, t) implies
                0 <= t < cells3.len() && cells3[t] == cells2[t] by {
                lemma_lazy_wf_node_members::<T, D, O, S>(cells2, right_child as int, mr, cr, t);
                lemma_subtree_on_parent_chain(right_child as int, mr, cr, t);
            }
            lemma_lazy_wf_node_frame::<T, D, O, S>(cells2, cells3, left_child as int, cl, ml);
            lemma_lazy_wf_node_frame::<T, D, O, S>(cells2, cells3, right_child as int, mr, cr);
            assert(subtree_contains(right_child as int, mr, cr, right_child as int));
            assert(subtree_contains(left_child as int, cl, ml, left_child as int));
            assert(cells3[left_child as int] == cells2[left_child as int]);
            assert(cells3[right_child as int] == cells2[right_child as int]);
            lemma_lazy_view_node_len::<T, D, O, S>(cells3, left_child as int, cl, ml);
            lemma_lazy_view_node_len::<T, D, O, S>(cells3, right_child as int, mr, cr);
            assert(a.object == fold_combine::<T, O>(
                lazy_view_node::<T, D, O, S>(cells3, left_child as int, cl, ml),
            ));
            assert(b.object == fold_combine::<T, O>(
                lazy_view_node::<T, D, O, S>(cells3, right_child as int, mr, cr),
            ));
            assert(cells3[node as int].unwrap().object == O::spec_combine(a.object, b.object));
            lemma_fold_concat::<T, O>(
                lazy_view_node::<T, D, O, S>(cells3, left_child as int, cl, ml),
                lazy_view_node::<T, D, O, S>(cells3, right_child as int, mr, cr),
            );
            assert(lazy_wf_node::<T, D, O, S>(cells3, node as int, cl, cr));
            assert(lazy_view_node::<T, D, O, S>(cells3, node as int, cl, cr) =~= rem0.skip(
                rem0.len() - size,
            ));
            assert(values.remaining() =~= rem0.take(rem0.len() - size));
            assert forall|j: int|
                0 <= j < cells3.len() && !subtree_contains(node as int, cl, cr, j) implies cells3[j]
                == (if j < cells0.len() {
                cells0[j]
            } else {
                None::<DeltaWrapper<T, D>>
            }) by {
                assert(!subtree_contains(left_child as int, cl, ml, j));
                assert(!subtree_contains(right_child as int, mr, cr, j));
            }
        }
    }

    /// Builds a lazy segment tree over the values of `values`, aggregated
    /// by `operator`, with `sifter` giving deltas their meaning.  The
    /// represented sequence is exactly the input sequence, in its original
    /// order.
    pub fn construct_implicit<V: FixedDataSource<T>>(values: V, operator: O, sifter: S) -> (tree:
        Self)
        requires
            1 <= values.remaining().len(),
            values.remaining().len() <= usize::MAX / 4,
        ensures
            tree.wf(),
            tree@ == values.remaining(),
    {
        let mut source = values;
        let mut tree = ImplicitTree::new(super::BINARY_WIDTH);
        let root = tree.root();
        let length = source.len();
        proof {
            lemma2_to64();
        }
        Self::construct_recursively(
            &mut source,
            &operator,
            &mut tree,
            0,
            length - 1,
            root,
            Ghost(0),
            Ghost(length as nat),
        );
        proof {
            assert(lazy_view_node::<T, D, O, S>(tree.cells(), 0, 0, length - 1)
                =~= values.remaining());
        }
        LazySegmentTree { tree, operator, sifter, length }
    }
}

} // verus!
