//! Range-splitting and index-layout helpers shared by the trees.
use vstd::prelude::*;

verus! {

/// Grows `vector` to hold `index`, filling new slots with `default`.
pub fn extend_inclusive<T: Copy>(vector: &mut Vec<T>, index: usize, default: T)
    requires
        index < usize::MAX,
    ensures
        final(vector)@.len() == if old(vector)@.len() >= index + 1 {
            old(vector)@.len() as int
        } else {
            index + 1
        },
        forall|j: int| 0 <= j < old(vector)@.len() ==> final(vector)@[j] == old(vector)@[j],
        forall|j: int|
            old(vector)@.len() <= j < final(vector)@.len() ==> final(vector)@[j] == default,
{
    extend_until(vector, index + 1, default);
}

/// Grows `vector` to length `length` if it is shorter, filling new slots
/// with `default`.
pub fn extend_until<T: Copy>(vector: &mut Vec<T>, length: usize, default: T)
    ensures
        final(vector)@.len() == if old(vector)@.len() >= length {
            old(vector)@.len() as int
        } else {
            length as int
        },
        forall|j: int| 0 <= j < old(vector)@.len() ==> final(vector)@[j] == old(vector)@[j],
        forall|j: int|
            old(vector)@.len() <= j < final(vector)@.len() ==> final(vector)@[j] == default,
{
    while vector.len() < length
        invariant
            vector@.len() >= old(vector)@.len(),
            vector@.len() <= length || vector@.len() == old(vector)@.len(),
            forall|j: int| 0 <= j < old(vector)@.len() ==> vector@[j] == old(vector)@[j],
            forall|j: int| old(vector)@.len() <= j < vector@.len() ==> vector@[j] == default,
        decreases length - vector@.len(),
    {
        vector.push(default);
    }
}

/// Splits the inclusive range `[left, right]` at its midpoint, yielding the
/// last index of the left half and the first index of the right half.
pub fn split_range(left: usize, right: usize) -> (r: (usize, usize))
    requires
        left + right <= usize::MAX,
    ensures
        r.0 == (left + right) / 2,
        r.1 == (left + right) / 2 + 1,
{
    let middle_left = (left + right) / 2;
    let middle_right = middle_left + 1;
    (middle_left, middle_right)
}

/// Whether `target` is the identifier of a node in the subtree rooted at
/// `node`, when `node` covers the index range `[current_left, current_right]`
/// of the implicit binary layout.
pub open spec fn subtree_contains(node: int, current_left: int, current_right: int, target: int) -> bool
    decreases current_right - current_left,
{
    target == node || (current_left < current_right && {
        let middle = (current_left + current_right) / 2;
        subtree_contains(2 * node + 1, current_left, middle, target) || subtree_contains(
            2 * node + 2,
            middle + 1,
            current_right,
            target,
        )
    })
}

/// Whether `node` lies on the chain of parent links starting at `target` in
/// the implicit binary layout.
pub open spec fn on_parent_chain(target: int, node: int) -> bool
    decreases target,
{
    if target == node {
        true
    } else if target > node && target >= 1 {
        on_parent_chain((target - 1) / 2, node)
    } else {
        false
    }
}

/// A node reached through a child is still on the parent chain of the
/// child's ancestors' descendants.
proof fn lemma_parent_chain_through_child(target: int, child: int, node: int)
    requires
        on_parent_chain(target, child),
        node >= 0,
        child == 2 * node + 1 || child == 2 * node + 2,
    ensures
        on_parent_chain(target, node),
    decreases target,
{
    if target == child {
        assert((child - 1) / 2 == node);
        assert(on_parent_chain(node, node));
    } else {
        lemma_parent_chain_through_child((target - 1) / 2, child, node);
    }
}

/// An identifier on the parent chain of one child of a node is not on the
/// parent chain of the other child.
proof fn lemma_parent_chain_siblings(target: int, node: int)
    requires
        node >= 0,
        on_parent_chain(target, 2 * node + 1),
    ensures
        !on_parent_chain(target, 2 * node + 2),
    decreases target,
{
    if target == 2 * node + 1 {
    } else if target == 2 * node + 2 {
        assert((target - 1) / 2 == node);
        assert(!on_parent_chain(node, 2 * node + 1));
    } else {
        lemma_parent_chain_siblings((target - 1) / 2, node);
    }
}

/// Every member of a subtree lies on the parent chain to the subtree's root,
/// and in particular its identifier is at least the root's.
pub proof fn lemma_subtree_on_parent_chain(node: int, current_left: int, current_right: int, target: int)
    requires
        node >= 0,
        subtree_contains(node, current_left, current_right, target),
    ensures
        on_parent_chain(target, node),
        target >= node,
    decreases current_right - current_left,
{
    if target == node {
    } else {
        let middle = (current_left + current_right) / 2;
        if subtree_contains(2 * node + 1, current_left, middle, target) {
            lemma_subtree_on_parent_chain(2 * node + 1, current_left, middle, target);
            lemma_parent_chain_through_child(target, 2 * node + 1, node);
        } else {
            lemma_subtree_on_parent_chain(2 * node + 2, middle + 1, current_right, target);
            lemma_parent_chain_through_child(target, 2 * node + 2, node);
        }
    }
}

/// The subtrees of the two children of a node share no identifier.
pub proof fn lemma_subtrees_disjoint(
    node: int,
    current_left: int,
    middle: int,
    current_right: int,
    target: int,
)
    requires
        node >= 0,
        subtree_contains(2 * node + 1, current_left, middle, target),
    ensures
        !subtree_contains(2 * node + 2, middle + 1, current_right, target),
{
    lemma_subtree_on_parent_chain(2 * node + 1, current_left, middle, target);
    lemma_parent_chain_siblings(target, node);
    if subtree_contains(2 * node + 2, middle + 1, current_right, target) {
        lemma_subtree_on_parent_chain(2 * node + 2, middle + 1, current_right, target);
    }
}

} // verus!
