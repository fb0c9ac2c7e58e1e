//! A segment tree: answers range-aggregate queries over a fixed-length
//! sequence in logarithmic time and supports point updates, for any
//! associative operator.
use vstd::prelude::*;

use crate::FixedDataSource;
use crate::operator::AssociativeOperator;
use crate::operator::fold_combine;
use crate::operator::lemma_fold_concat;
use crate::tree::functions::split_range;
use crate::tree::functions::subtree_contains;
use crate::tree::functions::lemma_subtree_on_parent_chain;
use crate::tree::functions::lemma_subtrees_disjoint;
use crate::tree::implicit_tree::ImplicitTree;
use crate::tree::tree::BackingTree;

verus! {

use vstd::arithmetic::power2::pow2;
use vstd::arithmetic::power2::lemma_pow2_unfold;
use vstd::arithmetic::power2::lemma_pow2_pos;
use vstd::arithmetic::power2::lemma2_to64;

/// The stored cells form a correct segment tree under `node`, which covers
/// the index range `[current_left, current_right]`: every node of the
/// recursive layout holds a value, and each internal node holds the
/// combination of its children's values.
pub open spec fn wf_node<T, O: AssociativeOperator<T>>(
    cells: Seq<Option<T>>,
    node: int,
    current_left: int,
    current_right: int,
) -> bool
    decreases current_right - current_left,
{
    &&& 0 <= node < cells.len()
    &&& cells[node] is Some
    &&& (current_left < current_right ==> {
        let middle = (current_left + current_right) / 2;
        &&& wf_node::<T, O>(cells, 2 * node + 1, current_left, middle)
        &&& wf_node::<T, O>(cells, 2 * node + 2, middle + 1, current_right)
        &&& cells[node].unwrap() == O::spec_combine(
            cells[2 * node + 1].unwrap(),
            cells[2 * node + 2].unwrap(),
        )
    })
}

/// The sequence a subtree represents: its leaf values in left-to-right order.
pub open spec fn view_node<T>(
    cells: Seq<Option<T>>,
    node: int,
    current_left: int,
    current_right: int,
) -> Seq<T>
    decreases current_right - current_left,
{
    if current_left >= current_right {
        seq![cells[node].unwrap()]
    } else {
        let middle = (current_left + current_right) / 2;
        view_node::<T>(cells, 2 * node + 1, current_left, middle) + view_node::<T>(
            cells,
            2 * node + 2,
            middle + 1,
            current_right,
        )
    }
}

/// The part of a node's represented sequence that falls inside the query
/// range `[left, right]`, in the node's own coordinates.
pub open spec fn clipped<T>(
    view: Seq<T>,
    left: int,
    right: int,
    current_left: int,
    current_right: int,
) -> Seq<T> {
    view.subrange(
        if left >= current_left {
            left - current_left
        } else {
            0
        },
        (if right <= current_right {
            right
        } else {
            current_right
        }) - current_left + 1,
    )
}

/// A subtree over `[current_left, current_right]` represents one value per
/// covered index.
pub proof fn lemma_view_node_len<T>(
    cells: Seq<Option<T>>,
    node: int,
    current_left: int,
    current_right: int,
)
    requires
        current_left <= current_right,
    ensures
        view_node::<T>(cells, node, current_left, current_right).len() == current_right
            - current_left + 1,
    decreases current_right - current_left,
{
    if current_left < current_right {
        let middle = (current_left + current_right) / 2;
        lemma_view_node_len::<T>(cells, 2 * node + 1, current_left, middle);
        lemma_view_node_len::<T>(cells, 2 * node + 2, middle + 1, current_right);
    }
}

/// In a correct subtree, every node's stored value is the fold of the
/// sequence its subtree represents.
pub proof fn lemma_wf_node_fold<T, O: AssociativeOperator<T>>(
    cells: Seq<Option<T>>,
    node: int,
    current_left: int,
    current_right: int,
)
    requires
        current_left <= current_right,
        wf_node::<T, O>(cells, node, current_left, current_right),
    ensures
        cells[node].unwrap() == fold_combine::<T, O>(
            view_node::<T>(cells, node, current_left, current_right),
        ),
    decreases current_right - current_left,
{
    if current_left < current_right {
        let middle = (current_left + current_right) / 2;
        lemma_wf_node_fold::<T, O>(cells, 2 * node + 1, current_left, middle);
        lemma_wf_node_fold::<T, O>(cells, 2 * node + 2, middle + 1, current_right);
        lemma_view_node_len::<T>(cells, 2 * node + 1, current_left, middle);
        lemma_view_node_len::<T>(cells, 2 * node + 2, middle + 1, current_right);
        lemma_fold_concat::<T, O>(
            view_node::<T>(cells, 2 * node + 1, current_left, middle),
            view_node::<T>(cells, 2 * node + 2, middle + 1, current_right),
        );
    }
}

/// Every identifier in a correct subtree indexes an existing cell.
pub proof fn lemma_wf_node_members<T, O: AssociativeOperator<T>>(
    cells: Seq<Option<T>>,
    node: int,
    current_left: int,
    current_right: int,
    target: int,
)
    requires
        wf_node::<T, O>(cells, node, current_left, current_right),
        subtree_contains(node, current_left, current_right, target),
    ensures
        0 <= target < cells.len(),
        cells[target] is Some,
    decreases current_right - current_left,
{
    if target != node {
        let middle = (current_left + current_right) / 2;
        if subtree_contains(2 * node + 1, current_left, middle, target) {
            lemma_wf_node_members::<T, O>(cells, 2 * node + 1, current_left, middle, target);
        } else {
            lemma_wf_node_members::<T, O>(cells, 2 * node + 2, middle + 1, current_right, target);
        }
    }
}

/// Correctness and the represented sequence of a subtree depend only on the
/// cells at the subtree's own identifiers.
pub proof fn lemma_wf_node_frame<T, O: AssociativeOperator<T>>(
    cells1: Seq<Option<T>>,
    cells2: Seq<Option<T>>,
    node: int,
    current_left: int,
    current_right: int,
)
    requires
        current_left <= current_right,
        wf_node::<T, O>(cells1, node, current_left, current_right),
        forall|t: int| #[trigger]
            subtree_contains(node, current_left, current_right, t) ==> 0 <= t < cells2.len()
                && cells2[t] == cells1[t],
    ensures
        wf_node::<T, O>(cells2, node, current_left, current_right),
        view_node::<T>(cells2, node, current_left, current_right) == view_node::<T>(
            cells1,
            node,
            current_left,
            current_right,
        ),
    decreases current_right - current_left,
{
    assert(subtree_contains(node, current_left, current_right, node));
    if current_left < current_right {
        let middle = (current_left + current_right) / 2;
        assert forall|t: int| #[trigger] subtree_contains(2 * node + 1, current_left, middle, t) implies 0 <= t
            < cells2.len() && cells2[t] == cells1[t] by {
            assert(subtree_contains(node, current_left, current_right, t));
        }
        assert forall|t: int| #[trigger]
            subtree_contains(2 * node + 2, middle + 1, current_right, t) implies 0 <= t
            < cells2.len() && cells2[t] == cells1[t] by {
            assert(subtree_contains(node, current_left, current_right, t));
        }
        lemma_wf_node_frame::<T, O>(cells1, cells2, 2 * node + 1, current_left, middle);
        lemma_wf_node_frame::<T, O>(cells1, cells2, 2 * node + 2, middle + 1, current_right);
        assert(subtree_contains(2 * node + 1, current_left, middle, 2 * node + 1));
        assert(subtree_contains(2 * node + 2, middle + 1, current_right, 2 * node + 2));
        assert(subtree_contains(node, current_left, current_right, 2 * node + 1));
        assert(subtree_contains(node, current_left, current_right, 2 * node + 2));
    } else {
        assert(view_node::<T>(cells2, node, current_left, current_right) =~= view_node::<T>(
            cells1,
            node,
            current_left,
            current_right,
        ));
    }
}

/// A point update followed by a query of that single index yields exactly
/// the updated value: after `update(i, v)`, `query(i, i)` folds the
/// one-element subrange holding `v`.
pub proof fn lemma_update_then_query<T, O: AssociativeOperator<T>>(s: Seq<T>, index: int, value: T)
    requires
        0 <= index < s.len(),
    ensures
        fold_combine::<T, O>(s.update(index, value).subrange(index, index + 1)) == value,
{
    assert(s.update(index, value).subrange(index, index + 1) =~= seq![value]);
}

/// An immutable-structure segment tree: built once from a fixed-length
/// sequence, it answers range-aggregate queries and accepts point updates.
///
/// Its view is the represented sequence; `query` folds the operator over a
/// subrange of that view, and `update` replaces one element of it.
pub struct SegmentTree<T, O> {
    tree: ImplicitTree<T>,
    operator: O,
    length: usize,
}

impl<T: Copy, O: AssociativeOperator<T>> View for SegmentTree<T, O> {
    type V = Seq<T>;

    closed spec fn view(&self) -> Seq<T> {
        view_node::<T>(self.tree.cells(), 0, 0, self.length - 1)
    }
}

impl<T: Copy, O: AssociativeOperator<T>> SegmentTree<T, O> {
    /// The tree is a correct segment tree over its whole index range.
    pub closed spec fn wf(self) -> bool {
        &&& self.tree.wf()
        &&& self.tree.width() == 2
        &&& self.length >= 1
        &&& self.length <= usize::MAX / 4
        &&& wf_node::<T, O>(self.tree.cells(), 0, 0, self.length - 1)
    }

    /// How many values the tree represents.
    pub fn len(&self) -> (n: usize)
        requires
            self.wf(),
        ensures
            n == self@.len(),
    {
        proof {
            lemma_view_node_len::<T>(self.tree.cells(), 0, 0, self.length - 1);
        }
        self.length
    }

    /// Builds the subtree for `[range_left, range_right]` under `node`,
    /// consuming that many values from the tail of the source; the right
    /// subtree is built before the left one, so the represented sequence
    /// comes out in the source's order.
    fn construct_recursively<V: FixedDataSource<T>>(
        values: &mut V,
        operator: &O,
        tree: &mut ImplicitTree<T>,
        range_left: usize,
        range_right: usize,
        node: usize,
        Ghost(depth): Ghost<nat>,
        Ghost(total): Ghost<nat>,
    )
        requires
            old(tree).wf(),
            old(tree).width() == 2,
            range_left <= range_right,
            range_right < total,
            total <= usize::MAX / 4,
            old(values).remaining().len() >= range_right - range_left + 1,
            node + 2 <= pow2((depth + 1) as nat),
            range_left < range_right ==> pow2(depth) * (range_right - range_left) <= total - 1,
            range_left == range_right ==> (depth == 0 || pow2(depth) <= 2 * (total - 1)),
        ensures
            final(tree).wf(),
            final(tree).width() == 2,
            final(tree).cells().len() >= old(tree).cells().len(),
            final(values).remaining() == old(values).remaining().take(
                old(values).remaining().len() - (range_right - range_left + 1),
            ),
            wf_node::<T, O>(final(tree).cells(), node as int, range_left as int, range_right as int),
            view_node::<T>(final(tree).cells(), node as int, range_left as int, range_right as int)
                == old(values).remaining().skip(
                old(values).remaining().len() - (range_right - range_left + 1),
            ),
            forall|j: int|
                0 <= j < final(tree).cells().len() && !subtree_contains(
                    node as int,
                    range_left as int,
                    range_right as int,
                    j,
                ) ==> final(tree).cells()[j] == (if j < old(tree).cells().len() {
                    old(tree).cells()[j]
                } else {
                    None
                }),
        decreases range_right - range_left,
    {
        let ghost cells0 = old(tree).cells();
        let ghost rem0 = old(values).remaining();
        proof {
            lemma2_to64();
            lemma_pow2_unfold((depth + 1) as nat);
            lemma_pow2_pos(depth);
            if range_left < range_right {
                assert(pow2(depth) * 1 <= pow2(depth) * (range_right - range_left))
                    by (nonlinear_arith)
                    requires
                        pow2(depth) >= 1,
                        range_right - range_left >= 1,
                ;
            }
        }
        if range_right == range_left {
            let value = values.next_back().unwrap();
            tree.insert_unchecked(node, value);
            proof {
                assert(view_node::<T>(
                    tree.cells(),
                    node as int,
                    range_left as int,
                    range_right as int,
                ) =~= rem0.skip(rem0.len() - 1));
                assert(values.remaining() =~= rem0.take(rem0.len() - 1));
            }
            return ;
        }
        let (middle_left, middle_right) = split_range(range_left, range_right);
        let left_child = tree.child(node, 0);
        let right_child = tree.child(node, 1);
        let ghost cl = range_left as int;
        let ghost cr = range_right as int;
        let ghost ml = middle_left as int;
        let ghost mr = middle_right as int;
        let ghost size = cr - cl + 1;
        let ghost size_left = ml - cl + 1;
        let ghost size_right = cr - mr + 1;
        proof {
            lemma_pow2_unfold((depth + 2) as nat);
            // Ghost bounds for the two children.
            assert(pow2((depth + 1) as nat) * (ml - cl) <= pow2(depth) * (cr - cl))
                by (nonlinear_arith)
                requires
                    pow2((depth + 1) as nat) == 2 * pow2(depth),
                    pow2(depth) >= 0,
                    ml - cl == (cr - cl) / 2,
                    cr - cl >= 1,
            ;
            assert(pow2((depth + 1) as nat) * (cr - mr) <= pow2(depth) * (cr - cl))
                by (nonlinear_arith)
                requires
                    pow2((depth + 1) as nat) == 2 * pow2(depth),
                    pow2(depth) >= 0,
                    mr == (cl + cr) / 2 + 1,
                    cr - cl >= 1,
            ;
        }
        Self::construct_recursively(
            values,
            operator,
            tree,
            middle_right,
            range_right,
            right_child,
            Ghost((depth + 1) as nat),
            Ghost(total),
        );
        let ghost cells1 = tree.cells();
        let ghost rem1 = values.remaining();
        Self::construct_recursively(
            values,
            operator,
            tree,
            range_left,
            middle_left,
            left_child,
            Ghost((depth + 1) as nat),
            Ghost(total),
        );
        let ghost cells2 = tree.cells();
        proof {
            // The right subtree was untouched while the left one was built.
            assert forall|t: int| #[trigger] subtree_contains(right_child as int, mr, cr, t) implies 0 <= t
                < cells2.len() && cells2[t] == cells1[t] by {
                lemma_wf_node_members::<T, O>(cells1, right_child as int, mr, cr, t);
                if subtree_contains(left_child as int, cl, ml, t) {
                    lemma_subtrees_disjoint(node as int, cl, ml, cr, t);
                }
            }
            lemma_wf_node_frame::<T, O>(cells1, cells2, right_child as int, mr, cr);
        }
        let a = tree.get(left_child).unwrap();
        let b = tree.get(right_child).unwrap();
        let value = operator.combine(&a, &b);
        tree.insert_unchecked(node, value);
        let ghost cells3 = tree.cells();
        proof {
            // Writing the parent leaves both child subtrees as they were.
            assert forall|t: int| #[trigger] subtree_contains(left_child as int, cl, ml, t) implies 0 <= t
                < cells3.len() && cells3[t] == cells2[t] by {
                lemma_wf_node_members::<T, O>(cells2, left_child as int, cl, ml, t);
                lemma_subtree_on_parent_chain(left_child as int, cl, ml, t);
            }
            assert forall|t: int| #[trigger] subtree_contains(right_child as int, mr, cr, t) implies 0 <= t
                < cells3.len() && cells3[t] == cells2[t] by {
                lemma_wf_node_members::<T, O>(cells2, right_child as int, mr, cr, t);
                lemma_subtree_on_parent_chain(right_child as int, mr, cr, t);
            }
            lemma_wf_node_frame::<T, O>(cells2, cells3, left_child as int, cl, ml);
            lemma_wf_node_frame::<T, O>(cells2, cells3, right_child as int, mr, cr);
            assert(wf_node::<T, O>(cells3, node as int, cl, cr));
            lemma_view_node_len::<T>(cells3, left_child as int, cl, ml);
            lemma_view_node_len::<T>(cells3, right_child as int, mr, cr);
            assert(view_node::<T>(cells3, node as int, cl, cr) =~= rem0.skip(rem0.len() - size));
            assert(values.remaining() =~= rem0.take(rem0.len() - size));
            assert forall|j: int|
                0 <= j < cells3.len() && !subtree_contains(node as int, cl, cr, j) implies cells3[j]
                == (if j < cells0.len() {
                cells0[j]
            } else {
                None::<T>
            }) by {
                assert(!subtree_contains(left_child as int, cl, ml, j));
                assert(!subtree_contains(right_child as int, mr, cr, j));
            }
        }
    }

    /// Builds a segment tree over the values of `values`, aggregated by
    /// `operator`.  The represented sequence is exactly the input sequence,
    /// in its original order.
    pub fn construct_implicit<V: FixedDataSource<T>>(values: V, operator: O) -> (tree: Self)
        requires
            1 <= values.remaining().len(),
            values.remaining().len() <= usize::MAX / 4,
        ensures
            tree.wf(),
            tree@ == values.remaining(),
    {
        let mut source = values;
        let mut tree = ImplicitTree::new(super::BINARY_WIDTH);
        let root = tree.root();
        let length = source.len();
        proof {
            lemma2_to64();
        }
        Self::construct_recursively(
            &mut source,
            &operator,
            &mut tree,
            0,
            length - 1,
            root,
            Ghost(0),
            Ghost(length as nat),
        );
        proof {
            assert(view_node::<T>(tree.cells(), 0, 0, length - 1) =~= values.remaining());
        }
        SegmentTree { tree, operator, length }
    }

    /// The fold of the operator over the represented values at indexes
    /// `[left, right]`, combining a left-overlap part before a right-overlap
    /// part at every split.
    pub fn query(&self, left: usize, right: usize) -> (r: T)
        requires
            self.wf(),
            left <= right,
            right < self@.len(),
        ensures
            r == fold_combine::<T, O>(self@.subrange(left as int, right + 1)),
    {
        proof {
            lemma_view_node_len::<T>(self.tree.cells(), 0, 0, self.length - 1);
        }
        let r = self.query_recursively(0, left, right, 0, self.length - 1);
        r.unwrap()
    }

    /// Answers a query below `node`, which covers `[current_left,
    /// current_right]`; yields the fold over the part of the node's range
    /// that intersects `[left, right]`, which must be non-empty.
    fn query_recursively(
        &self,
        node: usize,
        left: usize,
        right: usize,
        current_left: usize,
        current_right: usize,
    ) -> (r: Option<T>)
        requires
            wf_node::<T, O>(
                self.tree.cells(),
                node as int,
                current_left as int,
                current_right as int,
            ),
            self.tree.wf(),
            self.tree.width() == 2,
            current_left <= current_right,
            current_right <= usize::MAX / 2,
            left <= right,
            left <= current_right,
            current_left <= right,
        ensures
            r == Some(
                fold_combine::<T, O>(
                    clipped(
                        view_node::<T>(
                            self.tree.cells(),
                            node as int,
                            current_left as int,
                            current_right as int,
                        ),
                        left as int,
                        right as int,
                        current_left as int,
                        current_right as int,
                    ),
                ),
            ),
        decreases current_right - current_left,
    {
        let ghost cells = self.tree.cells();
        let ghost cl = current_left as int;
        let ghost cr = current_right as int;
        let ghost view = view_node::<T>(cells, node as int, cl, cr);
        proof {
            self.tree.lemma_cells_len();
            lemma_view_node_len::<T>(cells, node as int, cl, cr);
        }
        let in_range = left <= current_left && current_right <= right;
        if in_range {
            proof {
                lemma_wf_node_fold::<T, O>(cells, node as int, cl, cr);
                assert(clipped(view, left as int, right as int, cl, cr) =~= view);
            }
            return self.tree.get(node);
        }
        let (middle_left, middle_right) = split_range(current_left, current_right);
        let ghost ml = middle_left as int;
        let ghost mr = middle_right as int;
        let ghost view_left = view_node::<T>(cells, 2 * node + 1, cl, ml);
        let ghost view_right = view_node::<T>(cells, 2 * node + 2, mr, cr);
        proof {
            assert(wf_node::<T, O>(cells, 2 * node + 1, cl, ml));
            assert(wf_node::<T, O>(cells, 2 * node + 2, mr, cr));
            lemma_view_node_len::<T>(cells, 2 * node + 1, cl, ml);
            lemma_view_node_len::<T>(cells, 2 * node + 2, mr, cr);
        }
        let mut left_value: Option<T> = None;
        let mut right_value: Option<T> = None;
        if middle_left >= left {
            let left_child = self.tree.child(node, 0);
            left_value = self.query_recursively(left_child, left, right, current_left, middle_left);
        }
        if middle_right <= right {
            let right_child = self.tree.child(node, 1);
            right_value = self.query_recursively(
                right_child,
                left,
                right,
                middle_right,
                current_right,
            );
        }
        let ghost goal = clipped(view, left as int, right as int, cl, cr);
        if let Some(a) = left_value {
            if let Some(b) = right_value {
                let combined = self.operator.combine(&a, &b);
                proof {
                    let part_left = clipped(view_left, left as int, right as int, cl, ml);
                    let part_right = clipped(view_right, left as int, right as int, mr, cr);
                    lemma_fold_concat::<T, O>(part_left, part_right);
                    assert(part_left + part_right =~= goal);
                }
                Some(combined)
            } else {
                proof {
                    assert(clipped(view_left, left as int, right as int, cl, ml) =~= goal);
                }
                Some(a)
            }
        } else {
            if let Some(b) = right_value {
                proof {
                    assert(clipped(view_right, left as int, right as int, mr, cr) =~= goal);
                }
                Some(b)
            } else {
                proof {
                    assert(false);
                }
                None
            }
        }
    }

    /// Replaces the value at `index` with `value` and recombines every
    /// ancestor on the path back to the root.
    pub fn update(&mut self, index: usize, value: T)
        requires
            old(self).wf(),
            index < old(self)@.len(),
        ensures
            final(self).wf(),
            final(self)@ == old(self)@.update(index as int, value),
    {
        proof {
            lemma_view_node_len::<T>(self.tree.cells(), 0, 0, self.length - 1);
        }
        let last = self.length - 1;
        self.update_recursively(0, index, value, 0, last);
    }

    /// Applies a point update below `node`, which covers `[current_left,
    /// current_right]`, leaving every cell outside that subtree as it was.
    fn update_recursively(
        &mut self,
        node: usize,
        index: usize,
        value: T,
        current_left: usize,
        current_right: usize,
    )
        requires
            wf_node::<T, O>(
                old(self).tree.cells(),
                node as int,
                current_left as int,
                current_right as int,
            ),
            old(self).tree.wf(),
            old(self).tree.width() == 2,
            current_left <= index <= current_right,
            current_right <= usize::MAX / 2,
        ensures
            final(self).tree.wf(),
            final(self).tree.width() == 2,
            final(self).length == old(self).length,
            final(self).operator == old(self).operator,
            final(self).tree.cells().len() == old(self).tree.cells().len(),
            wf_node::<T, O>(
                final(self).tree.cells(),
                node as int,
                current_left as int,
                current_right as int,
            ),
            view_node::<T>(
                final(self).tree.cells(),
                node as int,
                current_left as int,
                current_right as int,
            ) == view_node::<T>(
                old(self).tree.cells(),
                node as int,
                current_left as int,
                current_right as int,
            ).update(index - current_left, value),
            forall|j: int|
                0 <= j < final(self).tree.cells().len() && !subtree_contains(
                    node as int,
                    current_left as int,
                    current_right as int,
                    j,
                ) ==> final(self).tree.cells()[j] == old(self).tree.cells()[j],
        decreases current_right - current_left,
    {
        let ghost cells0 = old(self).tree.cells();
        let ghost cl = current_left as int;
        let ghost cr = current_right as int;
        proof {
            self.tree.lemma_cells_len();
        }
        if index == current_left && current_left == current_right {
            self.tree.set_value(node, value);
            proof {
                assert(view_node::<T>(self.tree.cells(), node as int, cl, cr) =~= view_node::<T>(
                    cells0,
                    node as int,
                    cl,
                    cr,
                ).update(0, value));
            }
            return ;
        }
        let (middle_left, middle_right) = split_range(current_left, current_right);
        let ghost ml = middle_left as int;
        let ghost mr = middle_right as int;
        proof {
            assert(wf_node::<T, O>(cells0, 2 * node + 1, cl, ml));
            assert(wf_node::<T, O>(cells0, 2 * node + 2, mr, cr));
            lemma_view_node_len::<T>(cells0, 2 * node + 1, cl, ml);
            lemma_view_node_len::<T>(cells0, 2 * node + 2, mr, cr);
        }
        if index <= middle_left {
            let left_child = self.tree.child(node, 0);
            self.update_recursively(left_child, index, value, current_left, middle_left);
            proof {
                let cells1 = self.tree.cells();
                assert forall|t: int| #[trigger] subtree_contains(2 * node + 2, mr, cr, t) implies 0 <= t
                    < cells1.len() && cells1[t] == cells0[t] by {
                    lemma_wf_node_members::<T, O>(cells0, 2 * node + 2, mr, cr, t);
                    if subtree_contains(2 * node + 1, cl, ml, t) {
                        lemma_subtrees_disjoint(node as int, cl, ml, cr, t);
                    }
                }
                lemma_wf_node_frame::<T, O>(cells0, cells1, 2 * node + 2, mr, cr);
            }
        } else {
            let right_child = self.tree.child(node, 1);
            self.update_recursively(right_child, index, value, middle_right, current_right);
            proof {
                let cells1 = self.tree.cells();
                assert forall|t: int| #[trigger] subtree_contains(2 * node + 1, cl, ml, t) implies 0 <= t
                    < cells1.len() && cells1[t] == cells0[t] by {
                    lemma_wf_node_members::<T, O>(cells0, 2 * node + 1, cl, ml, t);
                    lemma_subtrees_disjoint(node as int, cl, ml, cr, t);
                }
                lemma_wf_node_frame::<T, O>(cells0, cells1, 2 * node + 1, cl, ml);
            }
        }
        proof {
            self.tree.lemma_cells_len();
            if subtree_contains(2 * node + 1, cl, ml, node as int) {
                lemma_subtree_on_parent_chain(2 * node + 1, cl, ml, node as int);
            }
            if subtree_contains(2 * node + 2, mr, cr, node as int) {
                lemma_subtree_on_parent_chain(2 * node + 2, mr, cr, node as int);
            }
        }
        let left_child = self.tree.child(node, 0);
        let right_child = self.tree.child(node, 1);
        let a = self.tree.get(left_child).unwrap();
        let b = self.tree.get(right_child).unwrap();
        let combined = self.operator.combine(&a, &b);
        let ghost cells1 = self.tree.cells();
        self.tree.set_value(node, combined);
        proof {
            let cells2 = self.tree.cells();
            assert forall|t: int| #[trigger] subtree_contains(2 * node + 1, cl, ml, t) implies 0 <= t
                < cells2.len() && cells2[t] == cells1[t] by {
                lemma_wf_node_members::<T, O>(cells1, 2 * node + 1, cl, ml, t);
                lemma_subtree_on_parent_chain(2 * node + 1, cl, ml, t);
            }
            assert forall|t: int| #[trigger] subtree_contains(2 * node + 2, mr, cr, t) implies 0 <= t
                < cells2.len() && cells2[t] == cells1[t] by {
                lemma_wf_node_members::<T, O>(cells1, 2 * node + 2, mr, cr, t);
                lemma_subtree_on_parent_chain(2 * node + 2, mr, cr, t);
            }
            lemma_wf_node_frame::<T, O>(cells1, cells2, 2 * node + 1, cl, ml);
            lemma_wf_node_frame::<T, O>(cells1, cells2, 2 * node + 2, mr, cr);
            assert(wf_node::<T, O>(cells2, node as int, cl, cr));
            lemma_view_node_len::<T>(cells2, 2 * node + 1, cl, ml);
            lemma_view_node_len::<T>(cells2, 2 * node + 2, mr, cr);
            assert(view_node::<T>(cells2, node as int, cl, cr) =~= view_node::<T>(
                cells0,
                node as int,
                cl,
                cr,
            ).update(index - cl, value));
            assert forall|j: int|
                0 <= j < cells2.len() && !subtree_contains(node as int, cl, cr, j) implies cells2[j]
                == cells0[j] by {
                assert(!subtree_contains(2 * node + 1, cl, ml, j));
                assert(!subtree_contains(2 * node + 2, mr, cr, j));
            }
        }
    }
}

} // verus!
