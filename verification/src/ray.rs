//! Rays against boxes and against the tree, in exact rational arithmetic.
//!
//! A ray has whole-number coordinates in ray units, `RAY_UNITS` of which make
//! one unit of the world, so that an origin between the grid points of the
//! world can be told apart from its neighbours.

use vstd::prelude::*;
use crate::aabb::{AABB, NODE_LIMIT};
use crate::bounds::all_wf;
use crate::bvh::{
    arena_wf, boxes_cover, iota, lemma_build_covers, lemma_build_holds_every_brick, lemma_build_len,
    lemma_build_wf, spec_build, subtree_leaves, BVHNode, BVH,
};
use crate::query::lemma_leaf_in_range;
use crate::vec3::{Axis, I64Vec3};

verus! {

/// Ray units per unit of the world.
pub const RAY_UNITS: i64 = 1024;

/// No coordinate of a ray's origin lies further than this from zero, in ray
/// units.
pub const RAY_ORIGIN_LIMIT: i64 = 0x100_0000_0000;

/// No component of a ray's direction is larger than this.
pub const RAY_DIRECTION_LIMIT: i64 = 0x4000_0000;

/// A half-line: the points `origin + t * direction` for `t >= 0`.
#[derive(Debug, Clone, Copy, PartialEq, Eq, Structural)]
pub struct Ray {
    /// Where the ray starts, in ray units.
    pub origin: I64Vec3,
    /// Where it goes, of any length.
    pub direction: I64Vec3,
}

impl Ray {
    /// Origin and direction stay within their limits.
    pub open spec fn wf(self) -> bool {
        self.origin.within(RAY_ORIGIN_LIMIT as int) && self.direction.within(
            RAY_DIRECTION_LIMIT as int,
        )
    }

    /// Tests `wf`.
    pub fn is_valid(&self) -> (r: bool)
        ensures
            r == self.wf(),
    {
        -RAY_ORIGIN_LIMIT <= self.origin.x && self.origin.x <= RAY_ORIGIN_LIMIT && -RAY_ORIGIN_LIMIT
            <= self.origin.y && self.origin.y <= RAY_ORIGIN_LIMIT && -RAY_ORIGIN_LIMIT
            <= self.origin.z && self.origin.z <= RAY_ORIGIN_LIMIT && -RAY_DIRECTION_LIMIT
            <= self.direction.x && self.direction.x <= RAY_DIRECTION_LIMIT && -RAY_DIRECTION_LIMIT
            <= self.direction.y && self.direction.y <= RAY_DIRECTION_LIMIT && -RAY_DIRECTION_LIMIT
            <= self.direction.z && self.direction.z <= RAY_DIRECTION_LIMIT
    }
}

/// The stretch of the ray's parameter in which the ray lies between the two
/// planes of a box on one axis: from `near / den` to `far / den`. On an axis
/// that the ray does not move along there is no such stretch, and `den` is 0.
pub struct Slab {
    pub near: int,
    pub far: int,
    pub den: int,
}

/// The slab of a box on `axis`.
pub open spec fn spec_slab(b: AABB, ray: Ray, axis: Axis) -> Slab {
    let lo = RAY_UNITS * b.lo(axis);
    let hi = RAY_UNITS * b.hi(axis);
    let o = ray.origin.at(axis);
    let d = ray.direction.at(axis);
    if d > 0 {
        Slab { near: lo - o, far: hi - o, den: d }
    } else if d < 0 {
        Slab { near: o - hi, far: o - lo, den: -d }
    } else {
        Slab { near: 0, far: 0, den: 0 }
    }
}

/// On `axis` the ray can be between the planes of the box at all: it moves
/// along the axis and leaves the slab at or after its origin, or it does not
/// move along the axis and its origin lies between the planes.
pub open spec fn reaches_on(b: AABB, ray: Ray, axis: Axis) -> bool {
    let s = spec_slab(b, ray, axis);
    if s.den == 0 {
        RAY_UNITS * b.lo(axis) <= ray.origin.at(axis) <= RAY_UNITS * b.hi(axis)
    } else {
        s.far >= 0
    }
}

/// The ray enters the slab of axis `a` no later than it leaves that of axis
/// `b`: `near_a / den_a <= far_b / den_b`, cross-multiplied.
pub open spec fn enters_before_leaving(bx: AABB, ray: Ray, a: Axis, b: Axis) -> bool {
    let sa = spec_slab(bx, ray, a);
    let sb = spec_slab(bx, ray, b);
    sa.den != 0 && sb.den != 0 ==> sa.near * sb.den <= sb.far * sa.den
}

/// The ray meets the box: the slabs of the three axes and the stretch from
/// the origin on have a parameter in common, which is so just when the ray
/// reaches the box on every axis and enters no slab after it has left
/// another.
pub open spec fn spec_intersects(b: AABB, ray: Ray) -> bool {
    &&& forall|axis: Axis| #[trigger] reaches_on(b, ray, axis)
    &&& forall|p: Axis, q: Axis| #[trigger] enters_before_leaving(b, ray, p, q)
}

/// A ray that meets a box meets every box that covers it.
pub proof fn lemma_ray_meets_covering(inner: AABB, outer: AABB, ray: Ray)
    requires
        spec_intersects(inner, ray),
        outer.contains(inner),
    ensures
        spec_intersects(outer, ray),
{
    assert forall|axis: Axis| #[trigger] reaches_on(outer, ray, axis) by {
        assert(reaches_on(inner, ray, axis));
        assert(outer.lo(axis) <= inner.lo(axis) && inner.hi(axis) <= outer.hi(axis));
    }
    assert forall|p: Axis, q: Axis| #[trigger] enters_before_leaving(outer, ray, p, q) by {
        assert(enters_before_leaving(inner, ray, p, q));
        assert(outer.lo(p) <= inner.lo(p) && inner.hi(p) <= outer.hi(p));
        assert(outer.lo(q) <= inner.lo(q) && inner.hi(q) <= outer.hi(q));
        let ia = spec_slab(inner, ray, p);
        let ib = spec_slab(inner, ray, q);
        let oa = spec_slab(outer, ray, p);
        let ob = spec_slab(outer, ray, q);
        if oa.den != 0 && ob.den != 0 {
            assert(oa.near <= ia.near && ib.far <= ob.far);
            assert(oa.den == ia.den && ob.den == ib.den);
            lemma_cross_order(oa.near, ia.near, ib.far, ob.far, ia.den, ib.den);
        }
    }
}

/// Cross-multiplied order is kept when the left side shrinks and the right
/// side grows.
pub proof fn lemma_cross_order(n1: int, n2: int, f2: int, f1: int, da: int, db: int)
    by (nonlinear_arith)
    requires
        n1 <= n2,
        f2 <= f1,
        da > 0,
        db > 0,
        n2 * db <= f2 * da,
    ensures
        n1 * db <= f1 * da,
{
}

struct ExecSlab {
    near: i64,
    far: i64,
    den: i64,
}

fn slab(b: &AABB, ray: &Ray, axis: Axis) -> (s: ExecSlab)
    requires
        b.bounded(),
        ray.wf(),
    ensures
        s.near == spec_slab(*b, *ray, axis).near,
        s.far == spec_slab(*b, *ray, axis).far,
        s.den == spec_slab(*b, *ray, axis).den,
        0 <= s.den <= RAY_DIRECTION_LIMIT,
        -0x200_0000_0000 <= s.near <= 0x200_0000_0000,
        -0x200_0000_0000 <= s.far <= 0x200_0000_0000,
{
    assert(0 <= b.halfwidths.at(axis) && -NODE_LIMIT <= b.lo(axis) && b.hi(axis) <= NODE_LIMIT);
    let c = b.center.get(axis) as i64;
    let h = b.halfwidths.get(axis) as i64;
    let lo: i64 = RAY_UNITS * (c - h);
    let hi: i64 = RAY_UNITS * (c + h);
    let o = ray.origin.get(axis);
    let d = ray.direction.get(axis);
    if d > 0 {
        ExecSlab { near: lo - o, far: hi - o, den: d }
    } else if d < 0 {
        ExecSlab { near: o - hi, far: o - lo, den: -d }
    } else {
        ExecSlab { near: 0, far: 0, den: 0 }
    }
}

fn reaches(b: &AABB, ray: &Ray, axis: Axis) -> (r: bool)
    requires
        b.bounded(),
        ray.wf(),
    ensures
        r == reaches_on(*b, *ray, axis),
{
    assert(0 <= b.halfwidths.at(axis) && -NODE_LIMIT <= b.lo(axis) && b.hi(axis) <= NODE_LIMIT);
    let s = slab(b, ray, axis);
    if s.den == 0 {
        let c = b.center.get(axis) as i64;
        let h = b.halfwidths.get(axis) as i64;
        let o = ray.origin.get(axis);
        RAY_UNITS * (c - h) <= o && o <= RAY_UNITS * (c + h)
    } else {
        s.far >= 0
    }
}

fn enters_first(b: &AABB, ray: &Ray, p: Axis, q: Axis) -> (r: bool)
    requires
        b.bounded(),
        ray.wf(),
    ensures
        r == enters_before_leaving(*b, *ray, p, q),
{
    let sa = slab(b, ray, p);
    let sb = slab(b, ray, q);
    if sa.den == 0 || sb.den == 0 {
        return true;
    }
    assert(-0x8000_0000_0000_0000_0000 <= sa.near * sb.den <= 0x8000_0000_0000_0000_0000)
        by (nonlinear_arith)
        requires
            -0x200_0000_0000 <= sa.near <= 0x200_0000_0000,
            0 <= sb.den <= 0x4000_0000,
    ;
    assert(-0x8000_0000_0000_0000_0000 <= sb.far * sa.den <= 0x8000_0000_0000_0000_0000)
        by (nonlinear_arith)
        requires
            -0x200_0000_0000 <= sb.far <= 0x200_0000_0000,
            0 <= sa.den <= 0x4000_0000,
    ;
    (sa.near as i128) * (sb.den as i128) <= (sb.far as i128) * (sa.den as i128)
}

impl AABB {
    /// Whether the ray meets the box.
    pub fn intersects(&self, ray: &Ray) -> (r: bool)
        requires
            self.bounded(),
            ray.wf(),
        ensures
            r == spec_intersects(*self, *ray),
    {
        let axes = [Axis::X, Axis::Y, Axis::Z];
        let mut i: usize = 0;
        while i < 3
            invariant
                i <= 3,
                self.bounded(),
                ray.wf(),
                axes@ == seq![Axis::X, Axis::Y, Axis::Z],
                forall|k: int| 0 <= k < i ==> reaches_on(*self, *ray, #[trigger] axes@[k]),
                forall|k: int, m: int|
                    0 <= k < i && 0 <= m < 3 ==> enters_before_leaving(
                        *self,
                        *ray,
                        #[trigger] axes@[k],
                        #[trigger] axes@[m],
                    ),
            decreases 3 - i,
        {
            if !reaches(self, ray, axes[i]) {
                return false;
            }
            let mut j: usize = 0;
            while j < 3
                invariant
                    j <= 3,
                    i < 3,
                    self.bounded(),
                    ray.wf(),
                    axes@ == seq![Axis::X, Axis::Y, Axis::Z],
                    forall|m: int|
                        0 <= m < j ==> enters_before_leaving(
                            *self,
                            *ray,
                            axes@[i as int],
                            #[trigger] axes@[m],
                        ),
                decreases 3 - j,
            {
                if !enters_first(self, ray, axes[i], axes[j]) {
                    return false;
                }
                j += 1;
            }
            i += 1;
        }
        proof {
            assert forall|axis: Axis| #[trigger] reaches_on(*self, *ray, axis) by {
                match axis {
                    Axis::X => {
                        assert(axes@[0] == Axis::X);
                    },
                    Axis::Y => {
                        assert(axes@[1] == Axis::Y);
                    },
                    Axis::Z => {
                        assert(axes@[2] == Axis::Z);
                    },
                }
            }
            assert forall|p: Axis, q: Axis| #[trigger] enters_before_leaving(*self, *ray, p, q) by {
                let k: int = match p {
                    Axis::X => 0,
                    Axis::Y => 1,
                    Axis::Z => 2,
                };
                let m: int = match q {
                    Axis::X => 0,
                    Axis::Y => 1,
                    Axis::Z => 2,
                };
                assert(axes@[k] == p && axes@[m] == q);
            }
        }
        true
    }
}

/// The first brick that the walk from `node` finds the ray to meet: the walk
/// turns back at a node whose box the ray misses, looks below the left child
/// before the right one, and stops at the first leaf whose box the ray meets.
pub open spec fn spec_first_hit(arena: Seq<BVHNode>, aabbs: Seq<AABB>, node: int, ray: Ray) -> Option<
    usize,
>
    decreases node,
{
    if 0 <= node < arena.len() {
        match arena[node] {
            BVHNode::Leaf { i } => if spec_intersects(aabbs[i as int], ray) {
                Some(i)
            } else {
                None
            },
            BVHNode::Internal { aabb, left, right } => if !spec_intersects(aabb, ray) {
                None
            } else if left < node && right < node {
                match spec_first_hit(arena, aabbs, left as int, ray) {
                    Some(i) => Some(i),
                    None => spec_first_hit(arena, aabbs, right as int, ray),
                }
            } else {
                None
            },
        }
    } else {
        None
    }
}

/// A brick that the walk returns lies below the node, and the ray meets its
/// box.
pub proof fn lemma_first_hit_sound(arena: Seq<BVHNode>, aabbs: Seq<AABB>, node: int, ray: Ray)
    ensures
        spec_first_hit(arena, aabbs, node, ray) matches Some(i) ==> subtree_leaves(
            arena,
            node,
        ).contains(i) && spec_intersects(aabbs[i as int], ray),
    decreases node,
{
    if 0 <= node < arena.len() {
        match arena[node] {
            BVHNode::Leaf { i } => {
                assert(seq![i][0] == i);
            },
            BVHNode::Internal { aabb, left, right } => {
                if spec_intersects(aabb, ray) && left < node && right < node {
                    let ll = subtree_leaves(arena, left as int);
                    let rl = subtree_leaves(arena, right as int);
                    lemma_first_hit_sound(arena, aabbs, left as int, ray);
                    lemma_first_hit_sound(arena, aabbs, right as int, ray);
                    match spec_first_hit(arena, aabbs, left as int, ray) {
                        Some(i) => {
                            let w = choose|w: int| 0 <= w < ll.len() && ll[w] == i;
                            assert((ll + rl)[w] == i);
                        },
                        None => {
                            match spec_first_hit(arena, aabbs, right as int, ray) {
                                Some(i) => {
                                    let w = choose|w: int| 0 <= w < rl.len() && rl[w] == i;
                                    assert((ll + rl)[ll.len() + w] == i);
                                },
                                None => {},
                            }
                        },
                    }
                }
            },
        }
    }
}

/// Where the boxes of the tree cover what lies below them, the walk finds a
/// brick whenever the ray meets the box of some brick below the node.
pub proof fn lemma_first_hit_complete(
    arena: Seq<BVHNode>,
    aabbs: Seq<AABB>,
    node: int,
    ray: Ray,
    j: usize,
)
    requires
        arena_wf(arena, aabbs.len()),
        boxes_cover(arena, aabbs, node),
        subtree_leaves(arena, node).contains(j),
        spec_intersects(aabbs[j as int], ray),
    ensures
        spec_first_hit(arena, aabbs, node, ray) is Some,
    decreases node,
{
    if 0 <= node < arena.len() {
        match arena[node] {
            BVHNode::Leaf { i } => {
                assert(seq![i][0] == i);
            },
            BVHNode::Internal { aabb, left, right } => {
                lemma_ray_meets_covering(aabbs[j as int], aabb, ray);
                let ll = subtree_leaves(arena, left as int);
                let rl = subtree_leaves(arena, right as int);
                let w = choose|w: int| 0 <= w < (ll + rl).len() && (ll + rl)[w] == j;
                if w < ll.len() {
                    assert(ll[w] == j);
                    lemma_first_hit_complete(arena, aabbs, left as int, ray, j);
                } else {
                    assert(rl[w - ll.len()] == j);
                    if spec_first_hit(arena, aabbs, left as int, ray) is None {
                        lemma_first_hit_complete(arena, aabbs, right as int, ray, j);
                    }
                }
            },
        }
    }
}

/// For the tree over all of `aabbs`: a ray that meets the box of exactly one
/// brick is answered with that brick.
pub proof fn lemma_ray_picks_the_one(aabbs: Seq<AABB>, ray: Ray, j: usize)
    requires
        all_wf(aabbs),
        j < aabbs.len(),
        2 * aabbs.len() - 1 <= usize::MAX,
        spec_intersects(aabbs[j as int], ray),
        forall|k: usize| k < aabbs.len() && k != j ==> !spec_intersects(#[trigger] aabbs[k as int], ray),
    ensures
        spec_first_hit(spec_build(iota(aabbs.len()), aabbs, 0), aabbs, 2 * aabbs.len() - 2, ray)
            == Some(j),
{
    let all = iota(aabbs.len());
    let arena = spec_build(all, aabbs, 0);
    let root = 2 * aabbs.len() - 2;
    lemma_build_len(all, aabbs, 0);
    lemma_build_wf(all, aabbs, 0);
    lemma_build_covers(arena, all, aabbs, 0);
    lemma_build_holds_every_brick(arena, all, aabbs, 0, j);
    assert(all[j as int] == j);
    lemma_first_hit_complete(arena, aabbs, root, ray, j);
    lemma_first_hit_sound(arena, aabbs, root, ray);
    match spec_first_hit(arena, aabbs, root, ray) {
        Some(i) => {
            lemma_leaf_in_range(arena, aabbs.len(), root, i);
        },
        None => {},
    }
}

/// A ray that meets the box of no brick of the tree is answered with no
/// brick.
pub proof fn lemma_ray_misses_all(arena: Seq<BVHNode>, aabbs: Seq<AABB>, root: int, ray: Ray)
    requires
        forall|k: usize|
            subtree_leaves(arena, root).contains(k) ==> !spec_intersects(
                #[trigger] aabbs[k as int],
                ray,
            ),
    ensures
        spec_first_hit(arena, aabbs, root, ray) is None,
{
    lemma_first_hit_sound(arena, aabbs, root, ray);
}

impl BVH {
    /// The first brick below `current_node` that the walk finds the ray to
    /// meet.
    pub fn traverse_ray(&self, aabbs: &Vec<AABB>, current_node: usize, ray: &Ray) -> (hit: Option<
        usize,
    >)
        requires
            arena_wf(self.arena@, aabbs@.len()),
            all_wf(aabbs@),
            current_node < self.arena@.len(),
            ray.wf(),
        ensures
            hit == spec_first_hit(self.arena@, aabbs@, current_node as int, *ray),
        decreases current_node,
    {
        match self.arena[current_node] {
            BVHNode::Internal { aabb, left, right } => {
                if !aabb.intersects(ray) {
                    return None;
                }
                match self.traverse_ray(aabbs, left, ray) {
                    Some(i) => Some(i),
                    None => self.traverse_ray(aabbs, right, ray),
                }
            },
            BVHNode::Leaf { i } => {
                if aabbs[i].intersects(ray) {
                    Some(i)
                } else {
                    None
                }
            },
        }
    }

    /// The first brick that the walk from the root finds the ray to meet, not
    /// the closest one along the ray; `None` where the walk finds none. In a
    /// tree from `new` over all boxes the walk finds one whenever the ray
    /// meets the box of any brick.
    pub fn intersection(&self, ray: &Ray, aabbs: &Vec<AABB>) -> (hit: Option<usize>)
        requires
            self.wf(aabbs@),
            all_wf(aabbs@),
            ray.wf(),
        ensures
            hit == spec_first_hit(self.arena@, aabbs@, self.root as int, *ray),
            hit matches Some(i) ==> i < aabbs@.len() && spec_intersects(aabbs@[i as int], *ray),
            self.covers(aabbs@) && hit is None ==> forall|j: usize|
                j < aabbs@.len() ==> !spec_intersects(#[trigger] aabbs@[j as int], *ray),
    {
        let hit = if self.arena.len() == 0 {
            None
        } else {
            self.traverse_ray(aabbs, self.root, ray)
        };
        proof {
            lemma_first_hit_sound(self.arena@, aabbs@, self.root as int, *ray);
            if let Some(i) = hit {
                lemma_leaf_in_range(self.arena@, aabbs@.len(), self.root as int, i);
            }
            if self.covers(aabbs@) && hit is None {
                assert forall|j: usize| j < aabbs@.len() implies !spec_intersects(
                    #[trigger] aabbs@[j as int],
                    *ray,
                ) by {
                    if spec_intersects(aabbs@[j as int], *ray) {
                        assert(subtree_leaves(self.arena@, self.root as int).contains(j));
                        lemma_first_hit_complete(self.arena@, aabbs@, self.root as int, *ray, j);
                    }
                }
            }
        }
        hit
    }
}

} // verus!
