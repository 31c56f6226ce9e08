//! Addressing in a flat tree: a binary tree laid out in one array, leaves on
//! the even positions and inner nodes on the odd ones.
//!
//! ```text
//!       3
//!   1       5
//! 0   2   4   6
//! ```

use vstd::prelude::*;

verus! {

/// Number of leaves under a node that stands `depth` levels above the leaves.
pub open spec fn leaves_at(depth: nat) -> nat
    decreases depth,
{
    if depth == 0 {
        1
    } else {
        2 * leaves_at((depth - 1) as nat)
    }
}

/// How many levels the node at `index` stands above the leaves: the number of
/// one bits that end its position.
pub open spec fn depth(index: nat) -> nat
    decreases index,
{
    if index % 2 == 0 {
        0
    } else {
        1 + depth(index / 2)
    }
}

/// Number of leaves under the node at `index`.
pub open spec fn leaf_count(index: nat) -> nat {
    leaves_at(depth(index))
}

/// Depth of the largest complete tree that `count` leaves can fill, for a
/// positive `count`.
pub open spec fn top_depth(count: nat) -> nat
    decreases count,
{
    if count <= 1 {
        0
    } else {
        1 + top_depth(count / 2)
    }
}

/// The roots of the largest complete subtrees that cover, from left to right,
/// the `count` leaves that begin at leaf `first`.
pub open spec fn full_roots_from(first: nat, count: nat) -> Seq<nat>
    decreases count,
    via full_roots_from_decreases
{
    if count == 0 {
        Seq::empty()
    } else {
        let span = leaves_at(top_depth(count));
        seq![(2 * first + span - 1) as nat] + full_roots_from(first + span, (count - span) as nat)
    }
}

#[via_fn]
proof fn full_roots_from_decreases(first: nat, count: nat) {
    if count != 0 {
        lemma_top_depth(count);
    }
}

/// The full roots of a log of `count` blocks: the roots of the largest
/// complete subtrees that together cover exactly the first `count` leaves, in
/// ascending order.
pub open spec fn full_roots_spec(count: nat) -> Seq<nat> {
    full_roots_from(0, count)
}

/// The leaves under all of `roots` together.
pub open spec fn total_leaves(roots: Seq<nat>) -> nat
    decreases roots.len(),
{
    if roots.len() == 0 {
        0
    } else {
        leaf_count(roots[0]) + total_leaves(roots.drop_first())
    }
}

/// Positions as mathematical numbers.
pub open spec fn positions(indices: Seq<usize>) -> Seq<nat> {
    indices.map_values(|index: usize| index as nat)
}

/// The largest complete tree that fits `count` leaves holds more than half of
/// them.
pub proof fn lemma_top_depth(count: nat)
    requires
        count >= 1,
    ensures
        1 <= leaves_at(top_depth(count)) <= count < 2 * leaves_at(top_depth(count)),
    decreases count,
{
    if count > 1 {
        lemma_top_depth(count / 2);
    }
}

/// Whether `first` is a multiple of the number of leaves at `depth`.
spec fn aligned(first: nat, depth: nat) -> bool
    decreases depth,
{
    depth == 0 || (first % 2 == 0 && aligned(first / 2, (depth - 1) as nat))
}

proof fn lemma_leaves_grow(low: nat, high: nat)
    requires
        low <= high,
    ensures
        1 <= leaves_at(low) <= leaves_at(high),
    decreases high,
{
    if low < high {
        lemma_leaves_grow(low, (high - 1) as nat);
    } else if low > 0 {
        lemma_leaves_grow((low - 1) as nat, (low - 1) as nat);
    }
}

proof fn lemma_zero_aligned(depth: nat)
    ensures
        aligned(0, depth),
    decreases depth,
{
    if depth > 0 {
        lemma_zero_aligned((depth - 1) as nat);
    }
}

proof fn lemma_aligned_below(first: nat, low: nat, high: nat)
    requires
        low <= high,
        aligned(first, high),
    ensures
        aligned(first, low),
    decreases low,
{
    if low > 0 {
        lemma_aligned_below(first / 2, (low - 1) as nat, (high - 1) as nat);
    }
}

proof fn lemma_aligned_next(first: nat, depth: nat)
    requires
        aligned(first, depth),
    ensures
        aligned(first + leaves_at(depth), depth),
    decreases depth,
{
    if depth > 0 {
        lemma_aligned_next(first / 2, (depth - 1) as nat);
        assert((first + leaves_at(depth)) / 2 == first / 2 + leaves_at((depth - 1) as nat));
    }
}

/// The root of the complete tree over the `leaves_at(depth)` leaves that
/// begin at an aligned leaf stands `depth` levels up.
proof fn lemma_root_depth(first: nat, levels: nat)
    requires
        aligned(first, levels),
    ensures
        depth((2 * first + leaves_at(levels) - 1) as nat) == levels,
    decreases levels,
{
    if levels > 0 {
        let below = (levels - 1) as nat;
        lemma_root_depth(first / 2, below);
        lemma_leaves_grow(0, below);
        let root = (2 * first + leaves_at(levels) - 1) as nat;
        assert(root / 2 == 2 * (first / 2) + leaves_at(below) - 1);
    }
}

proof fn lemma_cover_from(first: nat, count: nat, limit: nat)
    requires
        count < leaves_at(limit),
        aligned(first, limit),
    ensures
        total_leaves(full_roots_from(first, count)) == count,
        forall|i: int|
            0 <= i < full_roots_from(first, count).len() ==> 2 * first <= #[trigger] full_roots_from(
                first,
                count,
            )[i] < 2 * (first + count),
        forall|i: int, j: int|
            0 <= i < j < full_roots_from(first, count).len() ==> full_roots_from(first, count)[i]
                < full_roots_from(first, count)[j],
    decreases count,
{
    if count > 0 {
        let levels = top_depth(count);
        let span = leaves_at(levels);
        lemma_top_depth(count);
        if levels >= limit {
            lemma_leaves_grow(limit, levels);
        }
        lemma_aligned_below(first, levels, limit);
        lemma_root_depth(first, levels);
        lemma_aligned_next(first, levels);
        let rest = full_roots_from(first + span, (count - span) as nat);
        lemma_cover_from(first + span, (count - span) as nat, levels);
        let root = (2 * first + span - 1) as nat;
        let roots = full_roots_from(first, count);
        assert(roots == seq![root] + rest);
        assert(roots.drop_first() =~= rest);
        assert(roots[0] == root);
        assert forall|i: int| 0 <= i < roots.len() implies 2 * first <= #[trigger] roots[i] < 2 * (
        first + count) by {
            if i > 0 {
                assert(roots[i] == rest[i - 1]);
            }
        }
        assert forall|i: int, j: int| 0 <= i < j < roots.len() implies roots[i] < roots[j] by {
            assert(roots[j] == rest[j - 1]);
            if i > 0 {
                assert(roots[i] == rest[i - 1]);
            }
        }
    }
}

/// The full roots of `count` blocks stand in strictly ascending order, all
/// left of leaf `count`, and the leaves under them number exactly `count`.
pub proof fn lemma_full_roots_cover(count: nat)
    ensures
        total_leaves(full_roots_spec(count)) == count,
        forall|i: int|
            0 <= i < full_roots_spec(count).len() ==> #[trigger] full_roots_spec(count)[i] < 2 * count,
        forall|i: int, j: int|
            0 <= i < j < full_roots_spec(count).len() ==> full_roots_spec(count)[i] < full_roots_spec(count)[j],
{
    if count > 0 {
        let limit = top_depth(count) + 1;
        lemma_top_depth(count);
        lemma_zero_aligned(limit);
        lemma_cover_from(0, count, limit);
    }
}

/// `flat_tree::full_roots`, which takes the flat position of a leaf (twice
/// the leaf's number, so an even number; an odd one makes it panic) and
/// appends to `nodes` the full roots of the leaves left of it: it peels off
/// the largest power of two that fits the remaining count, pushes the root of
/// that complete subtree, and goes on to the right of it.
#[verifier::external_body]
fn flat_full_roots(index: usize, nodes: &mut Vec<usize>)
    requires
        index % 2 == 0,
    ensures
        positions(final(nodes)@) == positions(old(nodes)@) + full_roots_spec((index / 2) as nat),
{
    flat_tree::full_roots(index, nodes)
}

/// The full roots of a log of `count` blocks, in ascending order.
pub fn full_roots(count: usize) -> (roots: Vec<usize>)
    requires
        2 * count <= usize::MAX,
    ensures
        positions(roots@) == full_roots_spec(count as nat),
{
    let mut roots: Vec<usize> = Vec::new();
    flat_full_roots(2 * count, &mut roots);
    assert(positions(Seq::<usize>::empty()) =~= Seq::<nat>::empty());
    assert(positions(roots@) =~= full_roots_spec(count as nat));
    roots
}

} // verus!
