use brickmesh::aabb::AABB;
use brickmesh::bvh::{partition_bricks, top_down_bv_tree, BVHNode, BVH};
use brickmesh::sort::sort_by_center;
use brickmesh::vec3::{Axis, IVec3};

fn cube(x: i32, y: i32, z: i32, h: i32) -> AABB {
    AABB { center: IVec3::new(x, y, z), halfwidths: IVec3::new(h, h, h) }
}

/// Unit cubes on the odd points of a grid, so that every span is even and
/// starts at zero or above.
fn grid(nx: i32, ny: i32, nz: i32) -> Vec<AABB> {
    let mut boxes = vec![];
    for x in 0..nx {
        for y in 0..ny {
            for z in 0..nz {
                boxes.push(cube(2 * x + 1, 2 * y + 1, 2 * z + 1, 1));
            }
        }
    }
    boxes
}

fn scattered(n: usize, seed: u32) -> Vec<AABB> {
    let mut s = seed;
    let mut next = move |m: u32| {
        s = s.wrapping_mul(1664525).wrapping_add(1013904223);
        ((s >> 16) % m) as i32
    };
    (0..n)
        .map(|_| AABB {
            center: IVec3::new(next(41) - 20, next(41) - 20, next(41) - 20),
            halfwidths: IVec3::new(next(4), next(4), next(4)),
        })
        .collect()
}

fn count(bvh: &BVH) -> (usize, usize) {
    let leaves = bvh.arena.iter().filter(|n| matches!(n, BVHNode::Leaf { .. })).count();
    (leaves, bvh.arena.len() - leaves)
}

fn leaves_below(bvh: &BVH, node: usize, out: &mut Vec<usize>) {
    match bvh.arena[node] {
        BVHNode::Leaf { i } => out.push(i),
        BVHNode::Internal { left, right, .. } => {
            leaves_below(bvh, left, out);
            leaves_below(bvh, right, out);
        }
    }
}

fn covers(outer: &AABB, inner: &AABB) -> bool {
    let axes = [
        (outer.center.x, outer.halfwidths.x, inner.center.x, inner.halfwidths.x),
        (outer.center.y, outer.halfwidths.y, inner.center.y, inner.halfwidths.y),
        (outer.center.z, outer.halfwidths.z, inner.center.z, inner.halfwidths.z),
    ];
    axes.iter().all(|&(c, h, ic, ih)| c - h <= ic - ih && ic + ih <= c + h)
}

fn boxes_cover(bvh: &BVH, boxes: &Vec<AABB>) -> bool {
    (0..bvh.arena.len()).all(|p| match bvh.arena[p] {
        BVHNode::Leaf { .. } => true,
        BVHNode::Internal { aabb, .. } => {
            let mut below = vec![];
            leaves_below(bvh, p, &mut below);
            below.iter().all(|&j| covers(&aabb, &boxes[j]))
        }
    })
}

fn brute_force(boxes: &Vec<AABB>, target: usize) -> Vec<usize> {
    (0..boxes.len()).filter(|&j| j != target && boxes[target].neighbors(&boxes[j])).collect()
}

#[test]
fn empty_tree_for_no_bricks() {
    let bvh = BVH::new(vec![], &vec![]);
    assert_eq!(bvh.arena.len(), 0);
    assert_eq!(bvh.root, 0);
    assert!(bvh.is_valid(0));
}

#[test]
fn one_brick_is_one_leaf() {
    let boxes = vec![cube(1, 1, 1, 1)];
    let bvh = BVH::new(vec![0], &boxes);
    assert_eq!(bvh.arena, vec![BVHNode::Leaf { i: 0 }]);
    assert_eq!(bvh.root, 0);
}

#[test]
fn two_bricks_are_split_along_the_longest_axis() {
    let boxes = vec![cube(1, 9, 1, 1), cube(1, 1, 1, 1)];
    let bvh = BVH::new(vec![0, 1], &boxes);
    assert_eq!(
        bvh.arena,
        vec![
            BVHNode::Leaf { i: 1 },
            BVHNode::Leaf { i: 0 },
            BVHNode::Internal {
                aabb: AABB { center: IVec3::new(1, 5, 1), halfwidths: IVec3::new(2, 6, 2) },
                left: 0,
                right: 1
            },
        ]
    );
    assert_eq!(bvh.root, 2);
}

#[test]
fn three_bricks_put_the_smaller_half_left() {
    let boxes = vec![cube(5, 1, 1, 1), cube(1, 1, 1, 1), cube(3, 1, 1, 1)];
    let bvh = BVH::new(vec![0, 1, 2], &boxes);
    // sorted along X: 1, 2, 0; cut at 3 / 2 = 1
    assert_eq!(bvh.arena.len(), 5);
    assert_eq!(bvh.arena[0], BVHNode::Leaf { i: 1 });
    assert_eq!(bvh.arena[1], BVHNode::Leaf { i: 2 });
    assert_eq!(bvh.arena[2], BVHNode::Leaf { i: 0 });
    assert!(matches!(bvh.arena[3], BVHNode::Internal { left: 1, right: 2, .. }));
    assert!(matches!(bvh.arena[4], BVHNode::Internal { left: 0, right: 3, .. }));
    assert_eq!(bvh.root, 4);
}

#[test]
fn tree_has_n_leaves_and_n_minus_one_internal_nodes() {
    for n in 1..40usize {
        let boxes = scattered(n, 7 + n as u32);
        let bvh = BVH::new((0..n).collect(), &boxes);
        assert_eq!(count(&bvh), (n, n - 1));
        assert_eq!(bvh.root, 2 * n - 2);
        assert!(bvh.is_valid(n));
        let mut below = vec![];
        leaves_below(&bvh, bvh.root, &mut below);
        below.sort();
        assert_eq!(below, (0..n).collect::<Vec<_>>());
    }
}

#[test]
fn children_stand_before_their_parent() {
    let boxes = scattered(100, 99);
    let bvh = BVH::new((0..100).collect(), &boxes);
    for (p, node) in bvh.arena.iter().enumerate() {
        if let BVHNode::Internal { left, right, .. } = node {
            assert!(*left < p && *right < p);
        }
    }
}

#[test]
fn tree_validity_is_tested() {
    let boxes = vec![cube(1, 1, 1, 1), cube(3, 1, 1, 1)];
    let mut bvh = BVH::new(vec![0, 1], &boxes);
    assert!(bvh.is_valid(2));
    assert!(!bvh.is_valid(1));
    bvh.root = 0;
    assert!(!bvh.is_valid(2));
    bvh.root = 2;
    bvh.arena[2] = BVHNode::Internal { aabb: cube(0, 0, 0, 1), left: 2, right: 0 };
    assert!(!bvh.is_valid(2));
    bvh.arena[2] = BVHNode::Internal { aabb: cube(0, 0, 0, -1), left: 1, right: 0 };
    assert!(!bvh.is_valid(2));
    let empty = BVH { arena: vec![], root: 1 };
    assert!(!empty.is_valid(0));
}

#[test]
fn tree_over_a_subset_of_the_bricks() {
    let boxes = scattered(10, 5);
    let mut arena = vec![BVHNode::Leaf { i: 9 }];
    let root = top_down_bv_tree(vec![3, 1, 4], &boxes, &mut arena);
    assert_eq!(root, 5);
    assert_eq!(arena.len(), 6);
    assert_eq!(arena[0], BVHNode::Leaf { i: 9 });
    let bvh = BVH { arena, root };
    let mut below = vec![];
    leaves_below(&bvh, root, &mut below);
    below.sort();
    assert_eq!(below, vec![1, 3, 4]);
    if let BVHNode::Internal { left, right, .. } = bvh.arena[root] {
        assert!(left >= 1 && right >= 1);
    } else {
        panic!("the root of three bricks is an internal node");
    }
}

#[test]
fn partition_sorts_and_cuts_in_the_middle() {
    let boxes = vec![cube(1, 1, 9, 1), cube(1, 1, 5, 1), cube(1, 1, 7, 1), cube(1, 1, 1, 1), cube(1, 1, 3, 1)];
    let mut indices = vec![0, 1, 2, 3, 4];
    let (k, aabb) = partition_bricks(&mut indices, &boxes);
    assert_eq!(k, 2);
    assert_eq!(indices, vec![3, 4, 1, 2, 0]);
    assert_eq!(aabb.center, IVec3::new(1, 1, 5));
    assert_eq!(aabb.halfwidths, IVec3::new(2, 2, 6));
    for b in &boxes {
        assert!(covers(&aabb, b));
    }
}

#[test]
fn sort_keeps_the_order_of_equal_centres() {
    let boxes = vec![cube(5, 0, 0, 1), cube(1, 0, 0, 1), cube(5, 0, 0, 2), cube(1, 0, 0, 3), cube(3, 0, 0, 1)];
    assert_eq!(sort_by_center(&vec![0, 1, 2, 3, 4], &boxes, Axis::X), vec![1, 3, 4, 0, 2]);
    assert_eq!(sort_by_center(&vec![2, 3, 0, 1, 4], &boxes, Axis::X), vec![3, 1, 4, 2, 0]);
    assert_eq!(sort_by_center(&vec![4, 3, 2, 1, 0], &boxes, Axis::Y), vec![4, 3, 2, 1, 0]);
    assert_eq!(sort_by_center(&vec![], &boxes, Axis::Z), Vec::<usize>::new());
    assert_eq!(sort_by_center(&vec![2], &boxes, Axis::Z), vec![2]);
}

#[test]
fn sort_orders_many_indices() {
    let boxes = scattered(500, 3);
    for axis in [Axis::X, Axis::Y, Axis::Z] {
        let sorted = sort_by_center(&(0..500).collect(), &boxes, axis);
        let key = |i: usize| match axis {
            Axis::X => boxes[i].center.x,
            Axis::Y => boxes[i].center.y,
            Axis::Z => boxes[i].center.z,
        };
        for w in sorted.windows(2) {
            assert!(key(w[0]) < key(w[1]) || (key(w[0]) == key(w[1]) && w[0] < w[1]));
        }
        let mut all = sorted.clone();
        all.sort();
        assert_eq!(all, (0..500).collect::<Vec<_>>());
    }
}

#[test]
fn neighbors_of_a_brick_in_a_row() {
    let boxes = vec![cube(1, 1, 1, 1), cube(3, 1, 1, 1), cube(5, 1, 1, 1), cube(9, 1, 1, 1)];
    let bvh = BVH::new(vec![0, 1, 2, 3], &boxes);
    let mut found = bvh.neighbors(&boxes, 1);
    found.sort();
    assert_eq!(found, vec![0, 2]);
    assert_eq!(bvh.neighbors(&boxes, 3), Vec::<usize>::new());
}

#[test]
fn neighbors_equal_brute_force_on_a_grid() {
    let boxes = grid(5, 4, 3);
    let n = boxes.len();
    let bvh = BVH::new((0..n).collect(), &boxes);
    assert!(boxes_cover(&bvh, &boxes));
    for target in 0..n {
        let mut found = bvh.neighbors(&boxes, target);
        found.sort();
        assert_eq!(found, brute_force(&boxes, target));
    }
}

#[test]
fn neighbors_equal_brute_force_on_scattered_boxes() {
    for seed in [11, 12, 13] {
        let boxes = scattered(200, seed);
        let n = boxes.len();
        let bvh = BVH::new((0..n).collect(), &boxes);
        assert!(boxes_cover(&bvh, &boxes));
        for target in 0..n {
            let found = bvh.neighbors(&boxes, target);
            let mut sorted = found.clone();
            sorted.sort();
            sorted.dedup();
            assert_eq!(sorted.len(), found.len());
            assert_eq!(sorted, brute_force(&boxes, target));
        }
    }
}

#[test]
fn every_box_of_the_tree_covers_the_bricks_below_it() {
    for n in 1..60usize {
        let boxes = scattered(n, 1000 + n as u32);
        let bvh = BVH::new((0..n).collect(), &boxes);
        assert!(boxes_cover(&bvh, &boxes));
        assert!(bvh.is_valid(n));
    }
}

#[test]
fn a_brick_that_touches_at_the_end_of_a_combined_box_is_found() {
    // cubes 1 and 2 touch at x = 4, where the box over cubes 0 and 1 ends
    let boxes = vec![cube(0, 0, 0, 1), cube(3, 0, 0, 1), cube(5, 0, 0, 1), cube(8, 0, 0, 1)];
    let bvh = BVH::new(vec![0, 1, 2, 3], &boxes);
    assert_eq!(bvh.neighbors(&boxes, 2), vec![1]);
    assert_eq!(bvh.neighbors(&boxes, 1), vec![2]);
    assert_eq!(bvh.neighbors(&boxes, 0), Vec::<usize>::new());
    assert_eq!(bvh.neighbors(&boxes, 3), Vec::<usize>::new());
    let mut found = vec![];
    bvh.traverse_neighbors(&boxes, bvh.root, 2, &mut found);
    assert_eq!(found, vec![1]);
}

#[test]
fn a_brick_that_touches_a_flat_box_is_found() {
    let flat = |x: i32| AABB { center: IVec3::new(x, 0, 0), halfwidths: IVec3::new(0, 0, 0) };
    let boxes = vec![flat(0), flat(3), AABB { center: IVec3::new(14, 0, 0), halfwidths: IVec3::new(11, 0, 0) }, flat(30)];
    let bvh = BVH::new(vec![0, 1, 2, 3], &boxes);
    assert!(boxes[2].neighbors(&boxes[1]));
    assert!(boxes_cover(&bvh, &boxes));
    assert_eq!(bvh.neighbors(&boxes, 2), vec![1]);
}

#[test]
fn being_a_neighbour_is_mutual() {
    let boxes = scattered(120, 5);
    let n = boxes.len();
    let bvh = BVH::new((0..n).collect(), &boxes);
    let found: Vec<Vec<usize>> = (0..n).map(|i| bvh.neighbors(&boxes, i)).collect();
    for i in 0..n {
        for j in 0..n {
            assert_eq!(found[i].contains(&j), found[j].contains(&i));
        }
    }
}

fn depth_below(bvh: &BVH, node: usize) -> u32 {
    match bvh.arena[node] {
        BVHNode::Leaf { .. } => 0,
        BVHNode::Internal { left, right, .. } => 1 + depth_below(bvh, left).max(depth_below(bvh, right)),
    }
}

#[test]
fn tree_depth_is_the_logarithm_of_the_number_of_bricks() {
    for n in 1..70usize {
        // all boxes in one place: the depth does not depend on where the bricks are
        let same = vec![cube(3, 3, 3, 1); n];
        let spread = scattered(n, n as u32);
        for boxes in [same, spread] {
            let bvh = BVH::new((0..n).collect(), &boxes);
            let depth = depth_below(&bvh, bvh.root);
            let expected = (n as f64).log2().ceil() as u32;
            assert_eq!(depth, expected);
        }
    }
}

#[test]
fn boxes_at_a_depth_below_the_root() {
    let boxes = vec![cube(1, 1, 1, 1), cube(3, 1, 1, 1), cube(5, 1, 1, 1), cube(7, 1, 1, 1), cube(9, 1, 1, 1)];
    let bvh = BVH::new((0..5).collect(), &boxes);
    let whole = bvh.boxes_at_depth(&boxes, 0);
    assert_eq!(whole, vec![AABB { center: IVec3::new(5, 1, 1), halfwidths: IVec3::new(6, 2, 2) }]);
    // the lower half holds bricks 0 and 1, the upper half 2, 3 and 4
    let halves = bvh.boxes_at_depth(&boxes, 1);
    assert_eq!(
        halves,
        vec![
            AABB { center: IVec3::new(2, 1, 1), halfwidths: IVec3::new(3, 2, 2) },
            AABB { center: IVec3::new(7, 1, 1), halfwidths: IVec3::new(4, 2, 2) },
        ]
    );
    // below that only bricks 3 and 4 still share a node
    assert_eq!(
        bvh.boxes_at_depth(&boxes, 2),
        vec![AABB { center: IVec3::new(8, 1, 1), halfwidths: IVec3::new(3, 2, 2) }]
    );
    assert_eq!(bvh.boxes_at_depth(&boxes, 3), vec![]);
    assert_eq!(bvh.boxes_at_depth(&boxes, 255), vec![]);
    let empty = BVH::new(vec![], &vec![]);
    assert_eq!(empty.boxes_at_depth(&vec![], 0), vec![]);
    let one = BVH::new(vec![0], &boxes);
    assert_eq!(one.boxes_at_depth(&boxes, 0), vec![]);
}

#[test]
fn indices_are_tested_against_the_number_of_boxes() {
    assert!(brickmesh::sort::indices_valid(&vec![0, 2, 1], 3));
    assert!(!brickmesh::sort::indices_valid(&vec![0, 3, 1], 3));
    assert!(brickmesh::sort::indices_valid(&vec![], 0));
}
