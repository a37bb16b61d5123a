//! Walks of the tree: the bricks that touch a brick.

use vstd::prelude::*;
use crate::aabb::AABB;
use crate::bounds::all_wf;
use crate::bvh::{
    arena_wf, boxes_cover, iota, lemma_build_covers, lemma_build_holds_every_brick, lemma_build_len,
    lemma_build_wf, spec_build, subtree_leaves, BVHNode, BVH,
};
use crate::vec3::Axis;

verus! {

/// The bricks that the walk from `node` collects for brick `target`, in the
/// order in which it meets them: it turns back at a node whose box does not
/// touch the target's, and at a leaf it takes the brick if that is another
/// one than the target and their boxes touch.
pub open spec fn spec_neighbors(arena: Seq<BVHNode>, aabbs: Seq<AABB>, node: int, target: int) -> Seq<
    usize,
>
    decreases node,
{
    if 0 <= node < arena.len() {
        match arena[node] {
            BVHNode::Leaf { i } => if target == i || !aabbs[target].spec_neighbors(aabbs[i as int]) {
                Seq::empty()
            } else {
                seq![i]
            },
            BVHNode::Internal { aabb, left, right } => if !aabbs[target].spec_neighbors(aabb) {
                Seq::empty()
            } else if left < node && right < node {
                spec_neighbors(arena, aabbs, left as int, target) + spec_neighbors(
                    arena,
                    aabbs,
                    right as int,
                    target,
                )
            } else {
                Seq::empty()
            },
        }
    } else {
        Seq::empty()
    }
}

/// A box that touches another touches every box that covers the other.
pub proof fn lemma_touch_covering(a: AABB, b: AABB, c: AABB)
    requires
        a.spec_neighbors(b),
        c.contains(b),
    ensures
        a.spec_neighbors(c),
{
    assert(b.lo(Axis::X) >= c.lo(Axis::X) && b.hi(Axis::X) <= c.hi(Axis::X));
    assert(b.lo(Axis::Y) >= c.lo(Axis::Y) && b.hi(Axis::Y) <= c.hi(Axis::Y));
    assert(b.lo(Axis::Z) >= c.lo(Axis::Z) && b.hi(Axis::Z) <= c.hi(Axis::Z));
}

/// The walk never names the target, nor a brick whose box does not touch the
/// target's, nor a brick that is not below the node.
pub proof fn lemma_neighbors_sound(
    arena: Seq<BVHNode>,
    aabbs: Seq<AABB>,
    node: int,
    target: int,
    j: usize,
)
    requires
        spec_neighbors(arena, aabbs, node, target).contains(j),
    ensures
        j != target,
        aabbs[target].spec_neighbors(aabbs[j as int]),
        subtree_leaves(arena, node).contains(j),
    decreases node,
{
    if 0 <= node < arena.len() {
        match arena[node] {
            BVHNode::Leaf { i } => {
                assert(spec_neighbors(arena, aabbs, node, target) == seq![i]);
                assert(seq![i][0] == i);
            },
            BVHNode::Internal { aabb, left, right } => {
                let l = spec_neighbors(arena, aabbs, left as int, target);
                let r = spec_neighbors(arena, aabbs, right as int, target);
                let w = choose|w: int| 0 <= w < (l + r).len() && (l + r)[w] == j;
                let ll = subtree_leaves(arena, left as int);
                let rl = subtree_leaves(arena, right as int);
                if w < l.len() {
                    assert(l[w] == j);
                    lemma_neighbors_sound(arena, aabbs, left as int, target, j);
                    let v = choose|v: int| 0 <= v < ll.len() && ll[v] == j;
                    assert((ll + rl)[v] == j);
                } else {
                    assert(r[w - l.len()] == j);
                    lemma_neighbors_sound(arena, aabbs, right as int, target, j);
                    let v = choose|v: int| 0 <= v < rl.len() && rl[v] == j;
                    assert((ll + rl)[ll.len() + v] == j);
                }
            },
        }
    }
}

/// Where the boxes of the tree cover what lies below them, the walk names
/// every brick below the node whose box touches the target's, but for the
/// target itself.
pub proof fn lemma_neighbors_complete(
    arena: Seq<BVHNode>,
    aabbs: Seq<AABB>,
    node: int,
    target: int,
    j: usize,
)
    requires
        arena_wf(arena, aabbs.len()),
        boxes_cover(arena, aabbs, node),
        subtree_leaves(arena, node).contains(j),
        j != target,
        aabbs[target].spec_neighbors(aabbs[j as int]),
    ensures
        spec_neighbors(arena, aabbs, node, target).contains(j),
    decreases node,
{
    if 0 <= node < arena.len() {
        match arena[node] {
            BVHNode::Leaf { i } => {
                assert(subtree_leaves(arena, node) == seq![i]);
                assert(seq![i][0] == i);
                assert(spec_neighbors(arena, aabbs, node, target)[0] == j);
            },
            BVHNode::Internal { aabb, left, right } => {
                lemma_touch_covering(aabbs[target], aabbs[j as int], aabb);
                let l = spec_neighbors(arena, aabbs, left as int, target);
                let r = spec_neighbors(arena, aabbs, right as int, target);
                let ll = subtree_leaves(arena, left as int);
                let rl = subtree_leaves(arena, right as int);
                let w = choose|w: int| 0 <= w < (ll + rl).len() && (ll + rl)[w] == j;
                if w < ll.len() {
                    assert(ll[w] == j);
                    lemma_neighbors_complete(arena, aabbs, left as int, target, j);
                    let v = choose|v: int| 0 <= v < l.len() && l[v] == j;
                    assert((l + r)[v] == j);
                } else {
                    assert(rl[w - ll.len()] == j);
                    lemma_neighbors_complete(arena, aabbs, right as int, target, j);
                    let v = choose|v: int| 0 <= v < r.len() && r[v] == j;
                    assert((l + r)[l.len() + v] == j);
                }
            },
        }
    }
}

/// The bricks other than `target` whose boxes touch the target's, found by
/// trying every brick.
pub open spec fn brute_force_neighbors(aabbs: Seq<AABB>, target: int) -> Set<usize> {
    Set::new(
        |j: usize| j < aabbs.len() && j != target && aabbs[target].spec_neighbors(aabbs[j as int]),
    )
}

/// In any arena: the walk from a node finds what trying every brick finds,
/// where every brick lies below the node and the boxes cover what lies below
/// them.
pub proof fn lemma_neighbors_is_brute_force(
    arena: Seq<BVHNode>,
    aabbs: Seq<AABB>,
    root: int,
    target: int,
)
    requires
        arena_wf(arena, aabbs.len()),
        forall|j: usize| j < aabbs.len() ==> #[trigger] subtree_leaves(arena, root).contains(j),
        boxes_cover(arena, aabbs, root),
        0 <= target < aabbs.len(),
    ensures
        spec_neighbors(arena, aabbs, root, target).to_set() == brute_force_neighbors(aabbs, target),
{
    let found = spec_neighbors(arena, aabbs, root, target);
    assert forall|j: usize| found.to_set().contains(j) <==> brute_force_neighbors(
        aabbs,
        target,
    ).contains(j) by {
        if found.contains(j) {
            lemma_neighbors_sound(arena, aabbs, root, target, j);
            lemma_leaf_in_range(arena, aabbs.len(), root, j);
        }
        if brute_force_neighbors(aabbs, target).contains(j) {
            assert(subtree_leaves(arena, root).contains(j));
            lemma_neighbors_complete(arena, aabbs, root, target, j);
        }
    }
    assert(found.to_set() =~= brute_force_neighbors(aabbs, target));
}

/// For the tree over all of `aabbs`: the walk from the root finds what
/// trying every brick finds.
pub proof fn lemma_tree_neighbors_are_brute_force(aabbs: Seq<AABB>, target: int)
    requires
        all_wf(aabbs),
        0 <= target < aabbs.len(),
        2 * aabbs.len() - 1 <= usize::MAX,
    ensures
        spec_neighbors(
            spec_build(iota(aabbs.len()), aabbs, 0),
            aabbs,
            2 * aabbs.len() - 2,
            target,
        ).to_set() == brute_force_neighbors(aabbs, target),
{
    let all = iota(aabbs.len());
    let arena = spec_build(all, aabbs, 0);
    lemma_build_len(all, aabbs, 0);
    lemma_build_wf(all, aabbs, 0);
    lemma_build_covers(arena, all, aabbs, 0);
    assert forall|j: usize| j < aabbs.len() implies #[trigger] subtree_leaves(
        arena,
        2 * aabbs.len() - 2,
    ).contains(j) by {
        lemma_build_holds_every_brick(arena, all, aabbs, 0, j);
        assert(all[j as int] == j);
    }
    lemma_neighbors_is_brute_force(arena, aabbs, 2 * aabbs.len() - 2, target);
}

/// Every brick below a node of a well-formed tree names a box.
pub proof fn lemma_leaf_in_range(arena: Seq<BVHNode>, bricks: nat, node: int, j: usize)
    requires
        arena_wf(arena, bricks),
        subtree_leaves(arena, node).contains(j),
    ensures
        j < bricks,
    decreases node,
{
    if 0 <= node < arena.len() {
        match arena[node] {
            BVHNode::Leaf { i } => {
                assert(seq![i][0] == i);
            },
            BVHNode::Internal { aabb, left, right } => {
                let ll = subtree_leaves(arena, left as int);
                let rl = subtree_leaves(arena, right as int);
                let w = choose|w: int| 0 <= w < (ll + rl).len() && (ll + rl)[w] == j;
                if w < ll.len() {
                    assert(ll[w] == j);
                    lemma_leaf_in_range(arena, bricks, left as int, j);
                } else {
                    assert(rl[w - ll.len()] == j);
                    lemma_leaf_in_range(arena, bricks, right as int, j);
                }
            },
        }
    }
}

/// The boxes of the internal nodes that lie `depth` levels below `node`, from
/// left to right; leaves have no box of their own.
pub open spec fn spec_boxes_at_depth(arena: Seq<BVHNode>, node: int, depth: nat) -> Seq<AABB>
    decreases node,
{
    if 0 <= node < arena.len() {
        match arena[node] {
            BVHNode::Leaf { i } => Seq::empty(),
            BVHNode::Internal { aabb, left, right } => if depth == 0 {
                seq![aabb]
            } else if left < node && right < node {
                spec_boxes_at_depth(arena, left as int, (depth - 1) as nat) + spec_boxes_at_depth(
                    arena,
                    right as int,
                    (depth - 1) as nat,
                )
            } else {
                Seq::empty()
            },
        }
    } else {
        Seq::empty()
    }
}

impl BVH {
    /// Appends to `boxes` the boxes of the internal nodes that lie `depth`
    /// levels below `current_node`.
    pub fn collect_boxes(&self, aabbs: &Vec<AABB>, current_node: usize, depth: u8, boxes: &mut Vec<AABB>)
        requires
            arena_wf(self.arena@, aabbs@.len()),
            current_node < self.arena@.len(),
        ensures
            final(boxes)@ == old(boxes)@ + spec_boxes_at_depth(
                self.arena@,
                current_node as int,
                depth as nat,
            ),
        decreases current_node,
    {
        let ghost before = boxes@;
        match self.arena[current_node] {
            BVHNode::Internal { aabb, left, right } => {
                if depth == 0 {
                    boxes.push(aabb);
                    assert(boxes@ =~= before + seq![aabb]);
                } else {
                    self.collect_boxes(aabbs, left, depth - 1, boxes);
                    self.collect_boxes(aabbs, right, depth - 1, boxes);
                    assert(boxes@ =~= before + (spec_boxes_at_depth(
                        self.arena@,
                        left as int,
                        (depth - 1) as nat,
                    ) + spec_boxes_at_depth(self.arena@, right as int, (depth - 1) as nat)));
                }
            },
            BVHNode::Leaf { i } => {
                assert(boxes@ =~= before + Seq::<AABB>::empty());
            },
        }
    }

    /// The boxes of the internal nodes that lie `depth` levels below the
    /// root, from left to right.
    pub fn boxes_at_depth(&self, aabbs: &Vec<AABB>, depth: u8) -> (boxes: Vec<AABB>)
        requires
            self.wf(aabbs@),
        ensures
            boxes@ == spec_boxes_at_depth(self.arena@, self.root as int, depth as nat),
    {
        let mut boxes: Vec<AABB> = Vec::new();
        if self.arena.len() > 0 {
            self.collect_boxes(aabbs, self.root, depth, &mut boxes);
        }
        assert(boxes@ =~= spec_boxes_at_depth(self.arena@, self.root as int, depth as nat));
        boxes
    }

    /// Appends to `neighbors` the bricks below `current_node` whose boxes the
    /// walk finds to touch the box of brick `target_index`.
    pub fn traverse_neighbors(
        &self,
        aabbs: &Vec<AABB>,
        current_node: usize,
        target_index: usize,
        neighbors: &mut Vec<usize>,
    )
        requires
            arena_wf(self.arena@, aabbs@.len()),
            current_node < self.arena@.len(),
            target_index < aabbs@.len(),
        ensures
            final(neighbors)@ == old(neighbors)@ + spec_neighbors(
                self.arena@,
                aabbs@,
                current_node as int,
                target_index as int,
            ),
        decreases current_node,
    {
        let ghost before = neighbors@;
        let target_aabb = aabbs[target_index];
        match self.arena[current_node] {
            BVHNode::Internal { aabb, left, right } => {
                if !target_aabb.neighbors(&aabb) {
                    assert(neighbors@ =~= before + Seq::<usize>::empty());
                    return ;
                }
                self.traverse_neighbors(aabbs, left, target_index, neighbors);
                self.traverse_neighbors(aabbs, right, target_index, neighbors);
                assert(neighbors@ =~= before + (spec_neighbors(
                    self.arena@,
                    aabbs@,
                    left as int,
                    target_index as int,
                ) + spec_neighbors(self.arena@, aabbs@, right as int, target_index as int)));
            },
            BVHNode::Leaf { i } => {
                if target_index == i || !target_aabb.neighbors(&aabbs[i]) {
                    assert(neighbors@ =~= before + Seq::<usize>::empty());
                    return ;
                }
                neighbors.push(i);
                assert(neighbors@ =~= before + seq![i]);
            },
        }
    }

    /// The bricks whose boxes touch the box of brick `target_index`, as the
    /// walk from the root finds them; none in a tree without nodes. In a tree
    /// from `new` over all boxes these are all bricks but the target whose
    /// boxes touch the target's.
    pub fn neighbors(&self, aabbs: &Vec<AABB>, target_index: usize) -> (found: Vec<usize>)
        requires
            self.wf(aabbs@),
            target_index < aabbs@.len(),
        ensures
            found@ == spec_neighbors(self.arena@, aabbs@, self.root as int, target_index as int),
            forall|k: int|
                0 <= k < found@.len() ==> #[trigger] found@[k] < aabbs@.len() && found@[k]
                    != target_index && aabbs@[target_index as int].spec_neighbors(
                    aabbs@[found@[k] as int],
                ),
            self.covers(aabbs@) ==> found@.to_set() == brute_force_neighbors(
                aabbs@,
                target_index as int,
            ),
    {
        let mut found: Vec<usize> = Vec::new();
        if self.arena.len() > 0 {
            self.traverse_neighbors(aabbs, self.root, target_index, &mut found);
        }
        proof {
            assert(found@ =~= spec_neighbors(
                self.arena@,
                aabbs@,
                self.root as int,
                target_index as int,
            ));
            assert forall|k: int| 0 <= k < found@.len() implies #[trigger] found@[k] < aabbs@.len()
                && found@[k] != target_index && aabbs@[target_index as int].spec_neighbors(
                aabbs@[found@[k] as int],
            ) by {
                assert(found@.contains(found@[k]));
                lemma_neighbors_sound(
                    self.arena@,
                    aabbs@,
                    self.root as int,
                    target_index as int,
                    found@[k],
                );
                lemma_leaf_in_range(self.arena@, aabbs@.len(), self.root as int, found@[k]);
            }
            if self.covers(aabbs@) {
                lemma_neighbors_is_brute_force(
                    self.arena@,
                    aabbs@,
                    self.root as int,
                    target_index as int,
                );
            }
        }
        found
    }
}

} // verus!
