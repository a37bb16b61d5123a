//! The bounding-volume tree: a balanced binary tree over the bricks' boxes,
//! kept in one vector with children named by their position in it.

use vstd::prelude::*;
use crate::aabb::AABB;
use crate::bounds::{
    all_wf, bounding_box, covers_members, lemma_bounding_box_contains, lemma_bounding_box_wf,
    spec_bounding_box, spec_split_axis, split_axis,
};
use vstd::arithmetic::power2::{lemma2_to64, lemma_pow2_unfold, pow2};
use vstd::seq_lib::lemma_multiset_commutative;
use crate::sort::{indices_in_range, lemma_sort, lemma_sort_contains, sort_by_center, spec_sort};

verus! {

/// A node of the tree.
#[derive(Debug, Clone, Copy, PartialEq, Eq, Structural)]
pub enum BVHNode {
    /// One brick, by its index.
    Leaf { i: usize },
    /// The combined box of all bricks below, and the two subtrees.
    Internal { aabb: AABB, left: usize, right: usize },
}

/// The tree. Children stand before their parent, and the root stands last.
#[derive(Debug)]
pub struct BVH {
    pub arena: Vec<BVHNode>,
    pub root: usize,
}

/// The numbers `0 .. n` in order: every brick of a set of `n`.
pub open spec fn iota(n: nat) -> Seq<usize> {
    Seq::new(n, |i: int| i as usize)
}

/// The first `k` of the `n` sorted indices.
pub open spec fn lower_half(sorted: Seq<usize>, k: int) -> Seq<usize> {
    Seq::new(k as nat, |i: int| sorted[i])
}

/// The other `n - k` of the `n` sorted indices.
pub open spec fn upper_half(sorted: Seq<usize>, k: int, n: int) -> Seq<usize> {
    Seq::new((n - k) as nat, |i: int| sorted[k + i])
}

/// The nodes that building a tree over `indices` appends to an arena that
/// holds `base` nodes already.
///
/// One index gives a leaf. More give the nodes of the lower half, then those of
/// the upper half, then the node that joins them: the set is sorted by box
/// centre along the longest axis of its combined box and cut in the middle.
pub open spec fn spec_build(indices: Seq<usize>, aabbs: Seq<AABB>, base: nat) -> Seq<BVHNode>
    decreases indices.len(),
{
    if indices.len() <= 1 {
        seq![BVHNode::Leaf { i: indices[0] }]
    } else {
        let n = indices.len() as int;
        let aabb = spec_bounding_box(aabbs, indices);
        let sorted = spec_sort(indices, aabbs, spec_split_axis(aabb));
        let k = n / 2;
        let lower = spec_build(lower_half(sorted, k), aabbs, base);
        let upper = spec_build(upper_half(sorted, k, n), aabbs, base + lower.len());
        lower + upper + seq![
            BVHNode::Internal {
                aabb,
                left: (base + lower.len() - 1) as usize,
                right: (base + lower.len() + upper.len() - 1) as usize,
            },
        ]
    }
}

/// A tree over `n` bricks has `2n - 1` nodes.
pub proof fn lemma_build_len(indices: Seq<usize>, aabbs: Seq<AABB>, base: nat)
    requires
        indices.len() >= 1,
    ensures
        spec_build(indices, aabbs, base).len() == 2 * indices.len() - 1,
    decreases indices.len(),
{
    if indices.len() > 1 {
        let n = indices.len() as int;
        let aabb = spec_bounding_box(aabbs, indices);
        let sorted = spec_sort(indices, aabbs, spec_split_axis(aabb));
        let k = n / 2;
        lemma_build_len(lower_half(sorted, k), aabbs, base);
        let lower = spec_build(lower_half(sorted, k), aabbs, base);
        lemma_build_len(upper_half(sorted, k, n), aabbs, base + lower.len());
    }
}

/// Each node's children stand before it and each leaf names one of `bricks`
/// bricks.
pub open spec fn arena_wf(arena: Seq<BVHNode>, bricks: nat) -> bool {
    forall|p: int|
        0 <= p < arena.len() ==> match #[trigger] arena[p] {
            BVHNode::Leaf { i } => i < bricks,
            BVHNode::Internal { aabb, left, right } => left < p && right < p && aabb.bounded(),
        }
}

/// The number of leaves in a run of nodes.
pub open spec fn leaf_count(nodes: Seq<BVHNode>) -> nat
    decreases nodes.len(),
{
    if nodes.len() == 0 {
        0
    } else {
        leaf_count(nodes.drop_last()) + if nodes.last() is Leaf {
            1nat
        } else {
            0nat
        }
    }
}

/// The number of internal nodes in a run of nodes.
pub open spec fn internal_count(nodes: Seq<BVHNode>) -> nat
    decreases nodes.len(),
{
    if nodes.len() == 0 {
        0
    } else {
        internal_count(nodes.drop_last()) + if nodes.last() is Internal {
            1nat
        } else {
            0nat
        }
    }
}

/// Counting two runs one after the other is counting them apart.
pub proof fn lemma_count_add(a: Seq<BVHNode>, b: Seq<BVHNode>)
    ensures
        leaf_count(a + b) == leaf_count(a) + leaf_count(b),
        internal_count(a + b) == internal_count(a) + internal_count(b),
    decreases b.len(),
{
    if b.len() == 0 {
        assert(a + b =~= a);
    } else {
        lemma_count_add(a, b.drop_last());
        assert((a + b).drop_last() =~= a + b.drop_last());
        assert((a + b).last() == b.last());
    }
}

/// A tree over `n` bricks has `n` leaves and `n - 1` internal nodes.
pub proof fn lemma_build_counts(indices: Seq<usize>, aabbs: Seq<AABB>, base: nat)
    requires
        indices.len() >= 1,
    ensures
        leaf_count(spec_build(indices, aabbs, base)) == indices.len(),
        internal_count(spec_build(indices, aabbs, base)) == indices.len() - 1,
    decreases indices.len(),
{
    let built = spec_build(indices, aabbs, base);
    if indices.len() > 1 {
        let n = indices.len() as int;
        let aabb = spec_bounding_box(aabbs, indices);
        let sorted = spec_sort(indices, aabbs, spec_split_axis(aabb));
        let k = n / 2;
        let lower = spec_build(lower_half(sorted, k), aabbs, base);
        let upper = spec_build(upper_half(sorted, k, n), aabbs, base + lower.len());
        lemma_build_counts(lower_half(sorted, k), aabbs, base);
        lemma_build_counts(upper_half(sorted, k, n), aabbs, base + lower.len());
        let join = seq![
            BVHNode::Internal {
                aabb,
                left: (base + lower.len() - 1) as usize,
                right: (base + lower.len() + upper.len() - 1) as usize,
            },
        ];
        lemma_count_add(lower, upper);
        lemma_count_add(lower + upper, join);
        assert(join.drop_last() =~= Seq::empty());
        assert(leaf_count(join) == 0 && internal_count(join) == 1) by {
            reveal_with_fuel(leaf_count, 2);
            reveal_with_fuel(internal_count, 2);
        }
    } else {
        assert(built.drop_last() =~= Seq::empty());
        assert(leaf_count(built) == 1 && internal_count(built) == 0) by {
            reveal_with_fuel(leaf_count, 2);
            reveal_with_fuel(internal_count, 2);
        }
    }
}

/// The halves of a sorted set hold indices of the set.
pub proof fn lemma_halves_in_range(indices: Seq<usize>, aabbs: Seq<AABB>)
    requires
        indices.len() >= 2,
        indices_in_range(indices, aabbs.len()),
    ensures
        ({
            let n = indices.len() as int;
            let sorted = spec_sort(indices, aabbs, spec_split_axis(spec_bounding_box(aabbs, indices)));
            &&& sorted.len() == n
            &&& indices_in_range(sorted, aabbs.len())
            &&& indices_in_range(lower_half(sorted, n / 2), aabbs.len())
            &&& indices_in_range(upper_half(sorted, n / 2, n), aabbs.len())
            &&& lower_half(sorted, n / 2) =~= sorted.take(n / 2)
            &&& upper_half(sorted, n / 2, n) =~= sorted.skip(n / 2)
        }),
{
    let axis = spec_split_axis(spec_bounding_box(aabbs, indices));
    let sorted = spec_sort(indices, aabbs, axis);
    lemma_sort(indices, aabbs, axis);
    assert forall|k: int| 0 <= k < sorted.len() implies #[trigger] sorted[k] < aabbs.len() by {
        lemma_sort_contains(indices, aabbs, axis, sorted[k]);
        assert(sorted.contains(sorted[k]));
    }
}

/// Each node of a run that starts at place `base` has its children inside the
/// run and before itself, and each leaf names one of `bricks` bricks.
pub open spec fn run_wf(nodes: Seq<BVHNode>, base: nat, bricks: nat) -> bool {
    forall|p: int|
        0 <= p < nodes.len() ==> match #[trigger] nodes[p] {
            BVHNode::Leaf { i } => i < bricks,
            BVHNode::Internal { aabb, left, right } => base <= left < base + p && base <= right < base
                + p && aabb.bounded(),
        }
}

/// What `top_down_bv_tree` appends is a well-formed run.
pub proof fn lemma_build_wf(indices: Seq<usize>, aabbs: Seq<AABB>, base: nat)
    requires
        indices.len() >= 1,
        indices_in_range(indices, aabbs.len()),
        all_wf(aabbs),
        base + 2 * indices.len() - 1 <= usize::MAX,
    ensures
        run_wf(spec_build(indices, aabbs, base), base, aabbs.len()),
        base == 0 ==> arena_wf(spec_build(indices, aabbs, base), aabbs.len()),
    decreases indices.len(),
{
    let built = spec_build(indices, aabbs, base);
    if indices.len() > 1 {
        let n = indices.len() as int;
        let aabb = spec_bounding_box(aabbs, indices);
        let sorted = spec_sort(indices, aabbs, spec_split_axis(aabb));
        let k = n / 2;
        let lo = lower_half(sorted, k);
        let up = upper_half(sorted, k, n);
        lemma_halves_in_range(indices, aabbs);
        lemma_bounding_box_wf(aabbs, indices);
        let lower = spec_build(lo, aabbs, base);
        lemma_build_len(lo, aabbs, base);
        lemma_build_wf(lo, aabbs, base);
        let upper = spec_build(up, aabbs, base + lower.len());
        lemma_build_len(up, aabbs, base + lower.len());
        lemma_build_wf(up, aabbs, base + lower.len());
        assert forall|p: int| 0 <= p < built.len() implies match #[trigger] built[p] {
            BVHNode::Leaf { i } => i < aabbs.len(),
            BVHNode::Internal { aabb, left, right } => base <= left < base + p && base <= right < base
                + p && aabb.bounded(),
        } by {
            if p < lower.len() {
                assert(built[p] == lower[p]);
            } else if p < lower.len() + upper.len() {
                assert(built[p] == upper[p - lower.len()]);
            }
        }
    }
}

/// The bricks below a node, from left to right.
pub open spec fn subtree_leaves(arena: Seq<BVHNode>, node: int) -> Seq<usize>
    decreases node,
{
    if 0 <= node < arena.len() {
        match arena[node] {
            BVHNode::Leaf { i } => seq![i],
            BVHNode::Internal { aabb, left, right } => if left < node && right < node {
                subtree_leaves(arena, left as int) + subtree_leaves(arena, right as int)
            } else {
                Seq::empty()
            },
        }
    } else {
        Seq::empty()
    }
}

/// Below the root of a tree built over `indices` lie exactly those bricks,
/// each as often as it occurs in `indices`.
pub proof fn lemma_build_leaves(arena: Seq<BVHNode>, indices: Seq<usize>, aabbs: Seq<AABB>, base: nat)
    requires
        indices.len() >= 1,
        base + 2 * indices.len() - 1 <= usize::MAX,
        arena.len() >= base + 2 * indices.len() - 1,
        forall|p: int|
            0 <= p < 2 * indices.len() - 1 ==> arena[base + p] == #[trigger] spec_build(
                indices,
                aabbs,
                base,
            )[p],
    ensures
        subtree_leaves(arena, base + 2 * indices.len() - 2).to_multiset() == indices.to_multiset(),
    decreases indices.len(),
{
    let built = spec_build(indices, aabbs, base);
    let root = base + 2 * indices.len() - 2;
    lemma_build_len(indices, aabbs, base);
    assert(arena[root] == built[2 * indices.len() - 2]);
    if indices.len() > 1 {
        let n = indices.len() as int;
        let axis = spec_split_axis(spec_bounding_box(aabbs, indices));
        let sorted = spec_sort(indices, aabbs, axis);
        let k = n / 2;
        let lo = lower_half(sorted, k);
        let up = upper_half(sorted, k, n);
        let lower = spec_build(lo, aabbs, base);
        lemma_build_len(lo, aabbs, base);
        let upper = spec_build(up, aabbs, base + lower.len());
        lemma_build_len(up, aabbs, base + lower.len());
        assert forall|p: int| 0 <= p < 2 * lo.len() - 1 implies arena[base + p] == #[trigger] lower[p] by {
            assert(built[p] == lower[p]);
        }
        lemma_build_leaves(arena, lo, aabbs, base);
        assert forall|p: int| 0 <= p < 2 * up.len() - 1 implies arena[base + lower.len() + p]
            == #[trigger] upper[p] by {
            assert(built[lower.len() + p] == upper[p]);
        }
        lemma_build_leaves(arena, up, aabbs, base + lower.len());
        let left = base + lower.len() - 1;
        let right = base + lower.len() + upper.len() - 1;
        assert(subtree_leaves(arena, root) == subtree_leaves(arena, left) + subtree_leaves(
            arena,
            right,
        ));
        lemma_multiset_commutative(subtree_leaves(arena, left), subtree_leaves(arena, right));
        lemma_sort(indices, aabbs, axis);
        assert(sorted =~= lo + up);
        lemma_multiset_commutative(lo, up);
    } else {
        assert(subtree_leaves(arena, root) =~= indices);
    }
}

/// Every brick of `indices` lies below the root of the tree built over them.
pub proof fn lemma_build_holds_every_brick(
    arena: Seq<BVHNode>,
    indices: Seq<usize>,
    aabbs: Seq<AABB>,
    base: nat,
    j: usize,
)
    requires
        indices.len() >= 1,
        base + 2 * indices.len() - 1 <= usize::MAX,
        arena.len() >= base + 2 * indices.len() - 1,
        forall|p: int|
            0 <= p < 2 * indices.len() - 1 ==> arena[base + p] == #[trigger] spec_build(
                indices,
                aabbs,
                base,
            )[p],
    ensures
        subtree_leaves(arena, base + 2 * indices.len() - 2).contains(j) <==> indices.contains(j),
{
    let leaves = subtree_leaves(arena, base + 2 * indices.len() - 2);
    lemma_build_leaves(arena, indices, aabbs, base);
    leaves.to_multiset_ensures();
    indices.to_multiset_ensures();
    assert(leaves.contains(j) <==> leaves.to_multiset().count(j) > 0);
    assert(indices.contains(j) <==> indices.to_multiset().count(j) > 0);
}

/// Every box of an internal node at or below `node` covers the boxes of all
/// bricks below it.
pub open spec fn boxes_cover(arena: Seq<BVHNode>, aabbs: Seq<AABB>, node: int) -> bool
    decreases node,
{
    if 0 <= node < arena.len() {
        match arena[node] {
            BVHNode::Leaf { i } => true,
            BVHNode::Internal { aabb, left, right } => {
                &&& forall|j: usize| #[trigger]
                    subtree_leaves(arena, node).contains(j) ==> aabb.contains(aabbs[j as int])
                &&& left < node && right < node ==> boxes_cover(arena, aabbs, left as int)
                    && boxes_cover(arena, aabbs, right as int)
            },
        }
    } else {
        true
    }
}

/// Every box of a built tree covers the boxes of the bricks below it.
pub proof fn lemma_build_covers(arena: Seq<BVHNode>, indices: Seq<usize>, aabbs: Seq<AABB>, base: nat)
    requires
        indices.len() >= 1,
        indices_in_range(indices, aabbs.len()),
        all_wf(aabbs),
        base + 2 * indices.len() - 1 <= usize::MAX,
        arena.len() >= base + 2 * indices.len() - 1,
        forall|p: int|
            0 <= p < 2 * indices.len() - 1 ==> arena[base + p] == #[trigger] spec_build(
                indices,
                aabbs,
                base,
            )[p],
    ensures
        boxes_cover(arena, aabbs, base + 2 * indices.len() - 2),
    decreases indices.len(),
{
    let built = spec_build(indices, aabbs, base);
    let root = base + 2 * indices.len() - 2;
    lemma_build_len(indices, aabbs, base);
    assert(arena[root] == built[2 * indices.len() - 2]);
    if indices.len() > 1 {
        let n = indices.len() as int;
        let aabb = spec_bounding_box(aabbs, indices);
        let sorted = spec_sort(indices, aabbs, spec_split_axis(aabb));
        let k = n / 2;
        let lo = lower_half(sorted, k);
        let up = upper_half(sorted, k, n);
        lemma_halves_in_range(indices, aabbs);
        let lower = spec_build(lo, aabbs, base);
        lemma_build_len(lo, aabbs, base);
        let upper = spec_build(up, aabbs, base + lower.len());
        lemma_build_len(up, aabbs, base + lower.len());
        assert forall|p: int| 0 <= p < 2 * lo.len() - 1 implies arena[base + p] == #[trigger] lower[p] by {
            assert(built[p] == lower[p]);
        }
        lemma_build_covers(arena, lo, aabbs, base);
        assert forall|p: int| 0 <= p < 2 * up.len() - 1 implies arena[base + lower.len() + p]
            == #[trigger] upper[p] by {
            assert(built[lower.len() + p] == upper[p]);
        }
        lemma_build_covers(arena, up, aabbs, base + lower.len());
        assert forall|j: usize| #[trigger] subtree_leaves(arena, root).contains(j) implies aabb.contains(
            aabbs[j as int],
        ) by {
            lemma_build_holds_every_brick(arena, indices, aabbs, base, j);
            let w = choose|w: int| 0 <= w < indices.len() && indices[w] == j;
            lemma_bounding_box_contains(aabbs, indices, w);
        }
    }
}

/// The number of levels below a node: none below a leaf.
pub open spec fn subtree_depth(arena: Seq<BVHNode>, node: int) -> nat
    decreases node,
{
    if 0 <= node < arena.len() {
        match arena[node] {
            BVHNode::Leaf { i } => 0,
            BVHNode::Internal { aabb, left, right } => if left < node && right < node {
                let l = subtree_depth(arena, left as int);
                let r = subtree_depth(arena, right as int);
                if l >= r {
                    l + 1
                } else {
                    r + 1
                }
            } else {
                0
            },
        }
    } else {
        0
    }
}

/// The tree is balanced: over one brick it has no level below the root, and
/// over `n >= 2` bricks so few that two to their number is at most
/// `2 * (n - 1)`. Its depth is thus the logarithm of `n` to base two, rounded
/// up, whatever the boxes are.
pub proof fn lemma_build_depth(arena: Seq<BVHNode>, indices: Seq<usize>, aabbs: Seq<AABB>, base: nat)
    requires
        indices.len() >= 1,
        base + 2 * indices.len() - 1 <= usize::MAX,
        arena.len() >= base + 2 * indices.len() - 1,
        forall|p: int|
            0 <= p < 2 * indices.len() - 1 ==> arena[base + p] == #[trigger] spec_build(
                indices,
                aabbs,
                base,
            )[p],
    ensures
        indices.len() == 1 ==> subtree_depth(arena, base + 2 * indices.len() - 2) == 0,
        indices.len() >= 2 ==> pow2(subtree_depth(arena, base + 2 * indices.len() - 2)) <= 2 * (
        indices.len() - 1),
    decreases indices.len(),
{
    let built = spec_build(indices, aabbs, base);
    let root = base + 2 * indices.len() - 2;
    lemma_build_len(indices, aabbs, base);
    assert(arena[root] == built[2 * indices.len() - 2]);
    if indices.len() > 1 {
        let n = indices.len() as int;
        let axis = spec_split_axis(spec_bounding_box(aabbs, indices));
        let sorted = spec_sort(indices, aabbs, axis);
        let k = n / 2;
        let lo = lower_half(sorted, k);
        let up = upper_half(sorted, k, n);
        let lower = spec_build(lo, aabbs, base);
        lemma_build_len(lo, aabbs, base);
        let upper = spec_build(up, aabbs, base + lower.len());
        lemma_build_len(up, aabbs, base + lower.len());
        assert forall|p: int| 0 <= p < 2 * lo.len() - 1 implies arena[base + p] == #[trigger] lower[p] by {
            assert(built[p] == lower[p]);
        }
        lemma_build_depth(arena, lo, aabbs, base);
        assert forall|p: int| 0 <= p < 2 * up.len() - 1 implies arena[base + lower.len() + p]
            == #[trigger] upper[p] by {
            assert(built[lower.len() + p] == upper[p]);
        }
        lemma_build_depth(arena, up, aabbs, base + lower.len());
        let left = base + lower.len() - 1;
        let right = base + lower.len() + upper.len() - 1;
        let dl = subtree_depth(arena, left);
        let dr = subtree_depth(arena, right);
        let d = subtree_depth(arena, root);
        assert(d == if dl >= dr {
            dl + 1
        } else {
            dr + 1
        });
        lemma_pow2_unfold(d);
        lemma2_to64();
        // each half has at most (n + 1) / 2 bricks
        assert(pow2(dl) <= n - 1 && pow2(dr) <= n - 1) by {
            assert(lo.len() == k && up.len() == n - k);
        }
    }
}

impl BVH {
    /// The node's children stand before it, each leaf names a box, and the
    /// root stands last.
    pub open spec fn wf(self, aabbs: Seq<AABB>) -> bool {
        &&& arena_wf(self.arena@, aabbs.len())
        &&& if self.arena@.len() == 0 {
            self.root == 0
        } else {
            self.root == self.arena@.len() - 1
        }
    }

    /// The bricks of the tree, from left to right.
    pub open spec fn leaves(self) -> Seq<usize> {
        subtree_leaves(self.arena@, self.root as int)
    }

    /// The tree holds every one of the boxes, and each of its boxes covers
    /// the boxes of the bricks below it. A tree from `new` over all boxes is
    /// such a tree.
    pub open spec fn covers(self, aabbs: Seq<AABB>) -> bool {
        &&& boxes_cover(self.arena@, aabbs, self.root as int)
        &&& forall|j: usize|
            j < aabbs.len() ==> #[trigger] subtree_leaves(self.arena@, self.root as int).contains(j)
    }

    /// Tests `wf` for a tree over `bricks` boxes.
    pub fn is_valid(&self, bricks: usize) -> (r: bool)
        ensures
            r == (arena_wf(self.arena@, bricks as nat) && if self.arena@.len() == 0 {
                self.root == 0
            } else {
                self.root == self.arena@.len() - 1
            }),
    {
        if self.arena.len() == 0 {
            return self.root == 0;
        }
        if self.root != self.arena.len() - 1 {
            return false;
        }
        let mut p: usize = 0;
        while p < self.arena.len()
            invariant
                p <= self.arena.len(),
                arena_wf(self.arena@.take(p as int), bricks as nat),
            decreases self.arena.len() - p,
        {
            let ok = match self.arena[p] {
                BVHNode::Leaf { i } => i < bricks,
                BVHNode::Internal { aabb, left, right } => left < p && right < p && aabb.is_bounded(),
            };
            if !ok {
                return false;
            }
            assert(arena_wf(self.arena@.take(p as int + 1), bricks as nat)) by {
                assert forall|q: int| 0 <= q < p + 1 implies match #[trigger] self.arena@.take(
                    p as int + 1,
                )[q] {
                    BVHNode::Leaf { i } => i < bricks,
                    BVHNode::Internal { aabb, left, right } => left < q && right < q && aabb.bounded(),
                } by {
                    if q < p {
                        assert(self.arena@.take(p as int + 1)[q] == self.arena@.take(p as int)[q]);
                    }
                }
            }
            p += 1;
        }
        assert(self.arena@.take(p as int) =~= self.arena@);
        true
    }

    /// The tree over the bricks `indices`; no node at all for no brick.
    pub fn new(indices: Vec<usize>, aabbs: &Vec<AABB>) -> (bvh: BVH)
        requires
            indices_in_range(indices@, aabbs@.len()),
            all_wf(aabbs@),
        ensures
            bvh.wf(aabbs@),
            indices@.len() == 0 ==> bvh.arena@.len() == 0,
            indices@.len() >= 1 ==> bvh.arena@ == spec_build(indices@, aabbs@, 0),
            leaf_count(bvh.arena@) == indices@.len(),
            indices@.len() >= 1 ==> internal_count(bvh.arena@) == indices@.len() - 1,
            indices@.len() == 0 ==> internal_count(bvh.arena@) == 0,
            bvh.leaves().to_multiset() == indices@.to_multiset(),
            boxes_cover(bvh.arena@, aabbs@, bvh.root as int),
            (forall|j: usize| j < aabbs@.len() ==> #[trigger] indices@.contains(j)) ==> bvh.covers(
                aabbs@,
            ),
            indices@.len() <= 1 ==> subtree_depth(bvh.arena@, bvh.root as int) == 0,
            indices@.len() >= 2 ==> pow2(subtree_depth(bvh.arena@, bvh.root as int)) <= 2 * (
            indices@.len() - 1),
    {
        let mut arena: Vec<BVHNode> = Vec::new();
        if indices.len() == 0 {
            let bvh = BVH { arena, root: 0 };
            assert(bvh.leaves() =~= indices@);
            return bvh;
        }
        let ghost given = indices@;
        let root = top_down_bv_tree(indices, aabbs, &mut arena);
        proof {
            let built = spec_build(given, aabbs@, 0);
            assert(arena@ =~= built);
            lemma_build_len(given, aabbs@, 0);
            lemma_build_counts(given, aabbs@, 0);
            lemma_build_wf(given, aabbs@, 0);
            lemma_build_leaves(arena@, given, aabbs@, 0);
            lemma_build_depth(arena@, given, aabbs@, 0);
            lemma_build_covers(arena@, given, aabbs@, 0);
            assert forall|j: usize| given.contains(j) implies #[trigger] subtree_leaves(
                arena@,
                root as int,
            ).contains(j) by {
                lemma_build_holds_every_brick(arena@, given, aabbs@, 0, j);
            }
        }
        BVH { arena, root }
    }
}

/// Appends the tree over `brick_indices` to the arena and returns where its
/// root stands, which is the arena's last place.
pub fn top_down_bv_tree(
    brick_indices: Vec<usize>,
    aabbs: &Vec<AABB>,
    arena: &mut Vec<BVHNode>,
) -> (root: usize)
    requires
        brick_indices.len() >= 1,
        indices_in_range(brick_indices@, aabbs@.len()),
        all_wf(aabbs@),
    ensures
        final(arena)@ == old(arena)@ + spec_build(brick_indices@, aabbs@, old(arena)@.len()),
        root == final(arena)@.len() - 1,
    decreases brick_indices.len(),
{
    let ghost before = arena@;
    let ghost indices = brick_indices@;
    if brick_indices.len() <= 1 {
        let brick_index = brick_indices[0];
        arena.push(BVHNode::Leaf { i: brick_index });
        assert(arena@ =~= before + spec_build(indices, aabbs@, before.len()));
    } else {
        let mut brick_indices = brick_indices;
        let (k, aabb) = partition_bricks(&mut brick_indices, aabbs);
        let ghost sorted = brick_indices@;
        proof {
            lemma_halves_in_range(indices, aabbs@);
        }
        let right_bricks = brick_indices.split_off(k);
        let left_bricks = brick_indices;
        assert(left_bricks@ =~= lower_half(sorted, k as int));
        assert(right_bricks@ =~= upper_half(sorted, k as int, indices.len() as int));
        let left = top_down_bv_tree(left_bricks, aabbs, arena);
        let ghost mid = arena@;
        let right = top_down_bv_tree(right_bricks, aabbs, arena);
        arena.push(BVHNode::Internal { aabb, left, right });
        proof {
            let lower = spec_build(lower_half(sorted, k as int), aabbs@, before.len());
            let upper = spec_build(
                upper_half(sorted, k as int, indices.len() as int),
                aabbs@,
                before.len() + lower.len(),
            );
            lemma_build_len(lower_half(sorted, k as int), aabbs@, before.len());
            lemma_build_len(
                upper_half(sorted, k as int, indices.len() as int),
                aabbs@,
                before.len() + lower.len(),
            );
            assert(mid == before + lower);
            assert(mid.len() == before.len() + lower.len());
            assert(arena@ =~= before + spec_build(indices, aabbs@, before.len()));
        }
    }
    arena.len() - 1
}

/// Sorts the set by box centre along the longest axis of its combined box, and
/// returns where to cut it, the middle, with that box, which covers every box
/// of the set.
pub fn partition_bricks(indices: &mut Vec<usize>, aabbs: &Vec<AABB>) -> (r: (usize, AABB))
    requires
        old(indices).len() >= 1,
        indices_in_range(old(indices)@, aabbs@.len()),
        all_wf(aabbs@),
    ensures
        r.1 == spec_bounding_box(aabbs@, old(indices)@),
        r.1.bounded(),
        covers_members(r.1, aabbs@, old(indices)@),
        final(indices)@ == spec_sort(old(indices)@, aabbs@, spec_split_axis(r.1)),
        final(indices)@.len() == old(indices)@.len(),
        r.0 == old(indices)@.len() / 2,
{
    let aabb = bounding_box(indices, aabbs);
    let axis = split_axis(&aabb);
    let sorted = sort_by_center(indices, aabbs, axis);
    *indices = sorted;
    (indices.len() / 2, aabb)
}

} // verus!
