//! When one face covers another: opposite normals, a common plane, and every
//! corner of the one inside the outline of the other.
//!
//! All of it is exact: normals are compared by direction, distances by
//! cross-multiplying, and the outlines are looked at along the axis that the
//! normal is longest on, which flattens them without changing what lies
//! inside what.

use vstd::prelude::*;
use crate::faces::{spec_normal, Face, FaceView, VERTEX_LIMIT};
use crate::vec3::{Axis, I64Vec3};

verus! {

/// Faces are taken to share a plane when the one's first corner lies no
/// further from the other's plane than one part in this many of a unit.
pub const COPLANAR_EPSILON_INVERSE: i128 = 10_000;

/// No component of the normal of a well-formed face is larger than this.
pub const NORMAL_LIMIT: i64 = 0x2000_0000_0000_0000;

/// A point of a flattened outline.
#[derive(Debug, Clone, Copy, PartialEq, Eq, Structural)]
pub struct Point2 {
    pub x: i64,
    pub y: i64,
}

impl Point2 {
    /// Both coordinates lie within `VERTEX_LIMIT`.
    pub open spec fn in_range(self) -> bool {
        -VERTEX_LIMIT <= self.x <= VERTEX_LIMIT && -VERTEX_LIMIT <= self.y <= VERTEX_LIMIT
    }

    /// Tests `in_range`.
    pub fn is_valid(&self) -> (r: bool)
        ensures
            r == self.in_range(),
    {
        -VERTEX_LIMIT <= self.x && self.x <= VERTEX_LIMIT && -VERTEX_LIMIT <= self.y && self.y
            <= VERTEX_LIMIT
    }
}

/// The cross product of two directions.
pub open spec fn cross(a: I64Vec3, b: I64Vec3) -> (int, int, int) {
    (a.y * b.z - a.z * b.y, a.z * b.x - a.x * b.z, a.x * b.y - a.y * b.x)
}

/// The dot product of a difference of points with a direction.
pub open spec fn offset_along(p: I64Vec3, q: I64Vec3, n: I64Vec3) -> int {
    (p.x - q.x) * n.x + (p.y - q.y) * n.y + (p.z - q.z) * n.z
}

/// The square of a direction's length.
pub open spec fn length_squared(n: I64Vec3) -> int {
    n.x * n.x + n.y * n.y + n.z * n.z
}

/// The two directions are parallel and point opposite ways.
pub open spec fn spec_opposite(a: I64Vec3, b: I64Vec3) -> bool {
    &&& cross(a, b) == (0int, 0int, 0int)
    &&& a.x * b.x + a.y * b.y + a.z * b.z < 0
}

/// The first corner of `g` lies within the tolerance of the plane through the
/// first corner of `f` that has `f`'s normal: the distance is the offset
/// along the normal over the normal's length, so its square times the
/// tolerance's inverse squared is at most one.
pub open spec fn spec_coincident_planes(f: FaceView, g: FaceView) -> bool {
    let k = offset_along(f.verts[0], g.verts[0], f.normal);
    k * k * (COPLANAR_EPSILON_INVERSE * COPLANAR_EPSILON_INVERSE) <= length_squared(f.normal)
}

/// The axis that a direction is longest on; of equally long ones X goes
/// before Y, and Y before Z.
pub open spec fn spec_dominant_axis(n: I64Vec3) -> Axis {
    let ax = if n.x < 0 {
        -n.x
    } else {
        n.x as int
    };
    let ay = if n.y < 0 {
        -n.y
    } else {
        n.y as int
    };
    let az = if n.z < 0 {
        -n.z
    } else {
        n.z as int
    };
    if ax >= ay && ax >= az {
        Axis::X
    } else if ay >= az {
        Axis::Y
    } else {
        Axis::Z
    }
}

/// A point seen along `axis`: the other two coordinates in cyclic order, the
/// first one negated when `mirror` is set.
pub open spec fn spec_project(p: I64Vec3, axis: Axis, mirror: bool) -> Point2 {
    let (u, v) = match axis {
        Axis::X => (p.y, p.z),
        Axis::Y => (p.z, p.x),
        Axis::Z => (p.x, p.y),
    };
    Point2 {
        x: if mirror {
            (-u) as i64
        } else {
            u
        },
        y: v,
    }
}

/// An outline seen along `axis`.
pub open spec fn spec_project_all(verts: Seq<I64Vec3>, axis: Axis, mirror: bool) -> Seq<Point2> {
    Seq::new(verts.len(), |i: int| spec_project(verts[i], axis, mirror))
}

/// The frame that a normal gives: the axis it is longest on, mirrored when
/// it points down that axis. A normal and its opposite give frames that
/// mirror each other.
pub open spec fn spec_to_2d(face: FaceView, flip_normal: bool) -> Seq<Point2> {
    let axis = spec_dominant_axis(face.normal);
    let down = face.normal.at(axis) < 0;
    spec_project_all(face.verts, axis, down != flip_normal)
}

/// `p` lies on the segment from `a` to `b`, ends included.
pub open spec fn on_segment(p: Point2, a: Point2, b: Point2) -> bool {
    &&& (b.x - a.x) * (p.y - a.y) == (b.y - a.y) * (p.x - a.x)
    &&& (a.x <= p.x <= b.x || b.x <= p.x <= a.x)
    &&& (a.y <= p.y <= b.y || b.y <= p.y <= a.y)
}

/// The ray from `p` toward larger `x` crosses the edge from `a` to `b`: the
/// ends lie on different sides of the ray's line, the upper end counting as
/// above only when it is strictly above, and the crossing lies beyond `p`.
pub open spec fn crosses(p: Point2, a: Point2, b: Point2) -> bool {
    &&& (a.y > p.y) != (b.y > p.y)
    &&& if b.y > a.y {
        (p.x - a.x) * (b.y - a.y) < (b.x - a.x) * (p.y - a.y)
    } else {
        (p.x - a.x) * (b.y - a.y) > (b.x - a.x) * (p.y - a.y)
    }
}

/// Edge `i` of an outline runs from corner `i` to the next, the last one back
/// to the first.
pub open spec fn edge_end(poly: Seq<Point2>, i: int) -> Point2 {
    poly[(i + 1) % (poly.len() as int)]
}

/// How many of the first `count` edges the ray from `p` crosses.
pub open spec fn crossings(p: Point2, poly: Seq<Point2>, count: nat) -> nat
    decreases count,
{
    if count == 0 {
        0
    } else {
        let i = (count - 1) as int;
        crossings(p, poly, (count - 1) as nat) + if crosses(p, poly[i], edge_end(poly, i)) {
            1nat
        } else {
            0nat
        }
    }
}

/// `p` lies on an edge of the outline.
pub open spec fn on_boundary(p: Point2, poly: Seq<Point2>) -> bool {
    exists|i: int| 0 <= i < poly.len() && on_segment(p, #[trigger] poly[i], edge_end(poly, i))
}

/// `p` lies inside the outline or on it: on an edge, or the ray from `p`
/// crosses an odd number of edges.
pub open spec fn spec_point_inside(p: Point2, poly: Seq<Point2>) -> bool {
    on_boundary(p, poly) || crossings(p, poly, poly.len()) % 2 == 1
}

/// `g` covers `f`: they face opposite ways, share a plane, and every corner
/// of `f` lies inside the outline of `g` or on it, both seen in `f`'s frame.
pub open spec fn spec_inside(f: FaceView, g: FaceView) -> bool {
    &&& spec_opposite(f.normal, g.normal)
    &&& spec_coincident_planes(f, g)
    &&& forall|i: int|
        0 <= i < f.verts.len() ==> spec_point_inside(
            #[trigger] spec_to_2d(f, false)[i],
            spec_project_all(
                g.verts,
                spec_dominant_axis(f.normal),
                f.normal.at(spec_dominant_axis(f.normal)) < 0,
            ),
        )
}

/// The absolute value of a number.
pub open spec fn abs(v: int) -> int {
    if v < 0 {
        -v
    } else {
        v
    }
}

/// Of two parallel directions that point opposite ways each is the other
/// times a negative ratio: `b * (a . a) == a * (a . b)`, where `a . a` is
/// above zero and `a . b` below.
pub proof fn lemma_opposite_is_a_negative_multiple(a: I64Vec3, b: I64Vec3)
    requires
        spec_opposite(a, b),
    ensures
        length_squared(a) > 0,
        a.x * b.x + a.y * b.y + a.z * b.z < 0,
        b.x * length_squared(a) == a.x * (a.x * b.x + a.y * b.y + a.z * b.z),
        b.y * length_squared(a) == a.y * (a.x * b.x + a.y * b.y + a.z * b.z),
        b.z * length_squared(a) == a.z * (a.x * b.x + a.y * b.y + a.z * b.z),
{
    let (ax, ay, az) = (a.x as int, a.y as int, a.z as int);
    let (bx, by, bz) = (b.x as int, b.y as int, b.z as int);
    assert(ax * ax + ay * ay + az * az > 0) by (nonlinear_arith)
        requires
            ax * bx + ay * by + az * bz < 0,
    ;
    lemma_triple_product(ax, ay, az, bx, by, bz);
    lemma_triple_product(ay, az, ax, by, bz, bx);
    lemma_triple_product(az, ax, ay, bz, bx, by);
}

/// The first component of `a x (a x b)`, written out: where `a x b` is zero,
/// `b.x * (a . a) == a.x * (a . b)`.
proof fn lemma_triple_product(ax: int, ay: int, az: int, bx: int, by: int, bz: int)
    requires
        ax * by - ay * bx == 0,
        az * bx - ax * bz == 0,
    ensures
        bx * (ax * ax + ay * ay + az * az) == ax * (ax * bx + ay * by + az * bz),
{
    let c = ax * by - ay * bx;
    let e = az * bx - ax * bz;
    let (xx, yy, zz) = (ax * ax, ay * ay, az * az);
    let (p, q, r) = (ax * bx, ay * by, az * bz);
    assert(bx * (xx + yy + zz) == bx * xx + bx * yy + bx * zz) by (nonlinear_arith);
    assert(ax * (p + q + r) == ax * p + ax * q + ax * r) by (nonlinear_arith);
    assert(bx * xx == ax * p) by (nonlinear_arith)
        requires
            xx == ax * ax,
            p == ax * bx,
    ;
    assert(az * e == bx * zz - ax * r) by (nonlinear_arith)
        requires
            e == az * bx - ax * bz,
            zz == az * az,
            r == az * bz,
    ;
    assert(ay * c == ax * q - bx * yy) by (nonlinear_arith)
        requires
            c == ax * by - ay * bx,
            yy == ay * ay,
            q == ay * by,
    ;
    assert(az * e == 0 && ay * c == 0) by (nonlinear_arith)
        requires
            c == 0,
            e == 0,
    ;
}

/// Scaling two numbers by a negative ratio keeps the order of their sizes and
/// turns their signs.
pub proof fn lemma_scaled_order(p: int, q: int, bp: int, bq: int, len2: int, d: int)
    by (nonlinear_arith)
    requires
        len2 > 0,
        d < 0,
        bp * len2 == p * d,
        bq * len2 == q * d,
    ensures
        abs(p) >= abs(q) <==> abs(bp) >= abs(bq),
        p < 0 <==> bp > 0,
        p > 0 <==> bp < 0,
{
    assert(abs(bp) * len2 == abs(p) * (-d));
    assert(abs(bq) * len2 == abs(q) * (-d));
    if abs(p) >= abs(q) {
        assert(abs(p) * (-d) >= abs(q) * (-d));
        assert(abs(bp) * len2 >= abs(bq) * len2);
    } else {
        assert(abs(p) * (-d) < abs(q) * (-d));
        assert(abs(bp) * len2 < abs(bq) * len2);
    }
}

/// Two directions that point opposite ways are longest on the same axis, and
/// point along it in opposite senses.
pub proof fn lemma_opposite_share_axis(a: I64Vec3, b: I64Vec3)
    requires
        spec_opposite(a, b),
    ensures
        spec_dominant_axis(a) == spec_dominant_axis(b),
        (a.at(spec_dominant_axis(a)) < 0) == !(b.at(spec_dominant_axis(a)) < 0),
{
    lemma_opposite_is_a_negative_multiple(a, b);
    let len2 = length_squared(a);
    let d = a.x * b.x + a.y * b.y + a.z * b.z;
    lemma_scaled_order(a.x as int, a.y as int, b.x as int, b.y as int, len2, d);
    lemma_scaled_order(a.x as int, a.z as int, b.x as int, b.z as int, len2, d);
    lemma_scaled_order(a.y as int, a.z as int, b.y as int, b.z as int, len2, d);
    lemma_scaled_order(a.z as int, a.x as int, b.z as int, b.x as int, len2, d);
    let axis = spec_dominant_axis(a);
    if a.at(axis) == 0 {
        assert(a.x == 0 && a.y == 0 && a.z == 0);
        assert(len2 == 0) by (nonlinear_arith)
            requires
                len2 == a.x * a.x + a.y * a.y + a.z * a.z,
                a.x == 0 && a.y == 0 && a.z == 0,
        ;
    }
}

/// Faces that look opposite ways have one frame: the outline of the one for
/// its normal turned round is its outline in the frame of the other.
pub proof fn lemma_opposite_faces_share_frame(f: FaceView, g: FaceView)
    requires
        spec_opposite(f.normal, g.normal),
    ensures
        spec_to_2d(g, true) == spec_project_all(
            g.verts,
            spec_dominant_axis(f.normal),
            f.normal.at(spec_dominant_axis(f.normal)) < 0,
        ),
{
    lemma_opposite_share_axis(f.normal, g.normal);
}

/// The normal that the first three corners give stays within `NORMAL_LIMIT`.
pub proof fn lemma_normal_bound(a: I64Vec3, b: I64Vec3, c: I64Vec3)
    requires
        a.within(VERTEX_LIMIT as int),
        b.within(VERTEX_LIMIT as int),
        c.within(VERTEX_LIMIT as int),
    ensures
        -NORMAL_LIMIT <= spec_normal(a, b, c).0 <= NORMAL_LIMIT,
        -NORMAL_LIMIT <= spec_normal(a, b, c).1 <= NORMAL_LIMIT,
        -NORMAL_LIMIT <= spec_normal(a, b, c).2 <= NORMAL_LIMIT,
{
    let ux = b.x - a.x;
    let uy = b.y - a.y;
    let uz = b.z - a.z;
    let vx = c.x - a.x;
    let vy = c.y - a.y;
    let vz = c.z - a.z;
    lemma_product_bound(uy, vz, 0x4000_0000, 0x4000_0000);
    lemma_product_bound(uz, vy, 0x4000_0000, 0x4000_0000);
    lemma_product_bound(uz, vx, 0x4000_0000, 0x4000_0000);
    lemma_product_bound(ux, vz, 0x4000_0000, 0x4000_0000);
    lemma_product_bound(ux, vy, 0x4000_0000, 0x4000_0000);
    lemma_product_bound(uy, vx, 0x4000_0000, 0x4000_0000);
}

/// A product is no larger than the product of bounds on its factors.
pub proof fn lemma_product_bound(a: int, b: int, ba: int, bb: int)
    by (nonlinear_arith)
    requires
        -ba <= a <= ba,
        -bb <= b <= bb,
    ensures
        -(ba * bb) <= a * b <= ba * bb,
{
}

fn mul_wide(a: i64, b: i64, Ghost(ba): Ghost<int>, Ghost(bb): Ghost<int>) -> (p: i128)
    requires
        -ba <= a <= ba,
        -bb <= b <= bb,
        0 <= ba <= 0x2000_0000_0000_0000,
        0 <= bb <= 0x2000_0000_0000_0000,
    ensures
        p == a * b,
        -(ba * bb) <= p <= ba * bb,
{
    proof {
        lemma_product_bound(a as int, b as int, ba, bb);
        lemma_product_bound(ba, bb, 0x2000_0000_0000_0000, 0x2000_0000_0000_0000);
    }
    (a as i128) * (b as i128)
}

/// Whether two directions are parallel and point opposite ways.
pub fn opposite(a: &I64Vec3, b: &I64Vec3) -> (r: bool)
    requires
        a.within(NORMAL_LIMIT as int),
        b.within(NORMAL_LIMIT as int),
    ensures
        r == spec_opposite(*a, *b),
{
    let ghost lim = NORMAL_LIMIT as int;
    let cx = mul_wide(a.y, b.z, Ghost(lim), Ghost(lim)) - mul_wide(a.z, b.y, Ghost(lim), Ghost(lim));
    let cy = mul_wide(a.z, b.x, Ghost(lim), Ghost(lim)) - mul_wide(a.x, b.z, Ghost(lim), Ghost(lim));
    let cz = mul_wide(a.x, b.y, Ghost(lim), Ghost(lim)) - mul_wide(a.y, b.x, Ghost(lim), Ghost(lim));
    let d = mul_wide(a.x, b.x, Ghost(lim), Ghost(lim)) + mul_wide(a.y, b.y, Ghost(lim), Ghost(lim))
        + mul_wide(a.z, b.z, Ghost(lim), Ghost(lim));
    cx == 0 && cy == 0 && cz == 0 && d < 0
}

/// The axis that a direction is longest on.
pub fn dominant_axis(n: &I64Vec3) -> (axis: Axis)
    requires
        n.within(NORMAL_LIMIT as int),
    ensures
        axis == spec_dominant_axis(*n),
{
    let ax = if n.x < 0 {
        -n.x
    } else {
        n.x
    };
    let ay = if n.y < 0 {
        -n.y
    } else {
        n.y
    };
    let az = if n.z < 0 {
        -n.z
    } else {
        n.z
    };
    if ax >= ay && ax >= az {
        Axis::X
    } else if ay >= az {
        Axis::Y
    } else {
        Axis::Z
    }
}

/// An outline seen along `axis`.
pub fn project_all(verts: &Vec<I64Vec3>, axis: Axis, mirror: bool) -> (out: Vec<Point2>)
    requires
        forall|i: int| 0 <= i < verts@.len() ==> (#[trigger] verts@[i]).within(VERTEX_LIMIT as int),
    ensures
        out@ == spec_project_all(verts@, axis, mirror),
{
    let mut out: Vec<Point2> = Vec::new();
    let mut i: usize = 0;
    while i < verts.len()
        invariant
            i <= verts.len(),
            forall|k: int| 0 <= k < verts@.len() ==> (#[trigger] verts@[k]).within(VERTEX_LIMIT as int),
            out@ == spec_project_all(verts@, axis, mirror).take(i as int),
        decreases verts.len() - i,
    {
        let p = verts[i];
        assert(p.within(VERTEX_LIMIT as int));
        let (u, v) = match axis {
            Axis::X => (p.y, p.z),
            Axis::Y => (p.z, p.x),
            Axis::Z => (p.x, p.y),
        };
        let x = if mirror {
            -u
        } else {
            u
        };
        out.push(Point2 { x, y: v });
        assert(out@ =~= spec_project_all(verts@, axis, mirror).take(i as int + 1));
        i += 1;
    }
    assert(out@ =~= spec_project_all(verts@, axis, mirror));
    out
}

/// Every coordinate of the outline lies within `VERTEX_LIMIT`.
pub open spec fn outline_in_range(poly: Seq<Point2>) -> bool {
    forall|i: int| 0 <= i < poly.len() ==> (#[trigger] poly[i]).in_range()
}

/// Tests `outline_in_range`.
pub fn outline_valid(poly: &Vec<Point2>) -> (r: bool)
    ensures
        r == outline_in_range(poly@),
{
    let mut i: usize = 0;
    while i < poly.len()
        invariant
            i <= poly.len(),
            forall|k: int| 0 <= k < i ==> (#[trigger] poly@[k]).in_range(),
        decreases poly.len() - i,
    {
        if !poly[i].is_valid() {
            return false;
        }
        i += 1;
    }
    true
}

/// Flattening keeps every coordinate within `VERTEX_LIMIT`.
pub proof fn lemma_project_in_range(verts: Seq<I64Vec3>, axis: Axis, mirror: bool)
    requires
        forall|i: int| 0 <= i < verts.len() ==> (#[trigger] verts[i]).within(VERTEX_LIMIT as int),
    ensures
        outline_in_range(spec_project_all(verts, axis, mirror)),
{
    let out = spec_project_all(verts, axis, mirror);
    assert forall|i: int| 0 <= i < out.len() implies (#[trigger] out[i]).in_range() by {
        assert(verts[i].within(VERTEX_LIMIT as int));
    }
}

fn point_on_edge(point: Point2, edge_start: Point2, edge_end: Point2) -> (r: bool)
    requires
        point.in_range(),
        edge_start.in_range(),
        edge_end.in_range(),
    ensures
        r == on_segment(point, edge_start, edge_end),
{
    let ghost lim = 0x4000_0000int;
    let lhs = mul_wide(edge_end.x - edge_start.x, point.y - edge_start.y, Ghost(lim), Ghost(lim));
    let rhs = mul_wide(edge_end.y - edge_start.y, point.x - edge_start.x, Ghost(lim), Ghost(lim));
    lhs == rhs && ((edge_start.x <= point.x && point.x <= edge_end.x) || (edge_end.x <= point.x
        && point.x <= edge_start.x)) && ((edge_start.y <= point.y && point.y <= edge_end.y) || (
    edge_end.y <= point.y && point.y <= edge_start.y))
}

fn ray_crosses(point: Point2, a: Point2, b: Point2) -> (r: bool)
    requires
        point.in_range(),
        a.in_range(),
        b.in_range(),
    ensures
        r == crosses(point, a, b),
{
    if (a.y > point.y) == (b.y > point.y) {
        return false;
    }
    let ghost lim = 0x4000_0000int;
    let lhs = mul_wide(point.x - a.x, b.y - a.y, Ghost(lim), Ghost(lim));
    let rhs = mul_wide(b.x - a.x, point.y - a.y, Ghost(lim), Ghost(lim));
    if b.y > a.y {
        lhs < rhs
    } else {
        lhs > rhs
    }
}

/// Whether a point lies inside an outline or on it.
pub fn point_inside_face(point: Point2, face: &Vec<Point2>) -> (r: bool)
    requires
        outline_in_range(face@),
        point.in_range(),
    ensures
        r == spec_point_inside(point, face@),
{
    let n = face.len();
    let mut num_intersections: usize = 0;
    let mut i: usize = 0;
    while i < n
        invariant
            i <= n,
            n == face@.len(),
            outline_in_range(face@),
            point.in_range(),
            num_intersections == crossings(point, face@, i as nat),
            num_intersections <= i,
            forall|k: int| 0 <= k < i ==> !on_segment(point, #[trigger] face@[k], edge_end(face@, k)),
        decreases n - i,
    {
        let start = face[i];
        let next = (i + 1) % n;
        let end = face[next];
        if point_on_edge(point, start, end) {
            assert(on_segment(point, face@[i as int], edge_end(face@, i as int)));
            return true;
        }
        if ray_crosses(point, start, end) {
            num_intersections += 1;
        }
        i += 1;
    }
    num_intersections % 2 == 1
}

impl Face {
    /// The corners of the face seen along the axis that its normal is longest
    /// on, or the same for the opposite normal when `flip_normal` is set.
    pub fn to_2d(&self, flip_normal: bool) -> (points: Vec<Point2>)
        requires
            self@.wf(),
        ensures
            points@ == spec_to_2d(self@, flip_normal),
    {
        proof {
            lemma_normal_bound(self.verts@[0], self.verts@[1], self.verts@[2]);
        }
        let axis = dominant_axis(&self.normal);
        let down = self.normal.get(axis) < 0;
        project_all(&self.verts, axis, down != flip_normal)
    }

    /// Whether the first corner of `other` lies in this face's plane, within
    /// the tolerance.
    pub fn coincident_planes(&self, other: &Face) -> (r: bool)
        requires
            self@.wf(),
            other@.wf(),
        ensures
            r == spec_coincident_planes(self@, other@),
    {
        let p = self.verts[0];
        let q = other.verts[0];
        let n = self.normal;
        proof {
            lemma_normal_bound(self.verts@[0], self.verts@[1], self.verts@[2]);
            assert(p.within(VERTEX_LIMIT as int) && q.within(VERTEX_LIMIT as int));
        }
        let ghost lim = NORMAL_LIMIT as int;
        let ghost dl = 0x4000_0000int;
        let k = mul_wide(p.x - q.x, n.x, Ghost(dl), Ghost(lim)) + mul_wide(
            p.y - q.y,
            n.y,
            Ghost(dl),
            Ghost(lim),
        ) + mul_wide(p.z - q.z, n.z, Ghost(dl), Ghost(lim));
        let len2 = mul_wide(n.x, n.x, Ghost(lim), Ghost(lim)) + mul_wide(
            n.y,
            n.y,
            Ghost(lim),
            Ghost(lim),
        ) + mul_wide(n.z, n.z, Ghost(lim), Ghost(lim));
        let scale: i128 = COPLANAR_EPSILON_INVERSE * COPLANAR_EPSILON_INVERSE;
        let far: i128 = 0x2_0000_0000_0000;
        if k >= far || k <= -far {
            assert(k * k * scale > len2) by (nonlinear_arith)
                requires
                    k >= far || k <= -far,
                    far == 0x2_0000_0000_0000,
                    scale == 100_000_000,
                    len2 <= 3 * (0x2000_0000_0000_0000 * 0x2000_0000_0000_0000),
            ;
            return false;
        }
        assert(0 <= k * k <= 0x2_0000_0000_0000 * 0x2_0000_0000_0000) by (nonlinear_arith)
            requires
                -0x2_0000_0000_0000 < k < 0x2_0000_0000_0000,
        ;
        let k2: i128 = k * k;
        k2 * scale <= len2
    }

    /// Whether `other` covers this face: the two face opposite ways, share a
    /// plane, and every corner of this face lies inside the outline of
    /// `other` or on it.
    pub fn inside(&self, other: &Face) -> (r: bool)
        requires
            self@.wf(),
            other@.wf(),
        ensures
            r == spec_inside(self@, other@),
    {
        proof {
            lemma_normal_bound(self.verts@[0], self.verts@[1], self.verts@[2]);
            lemma_normal_bound(other.verts@[0], other.verts@[1], other.verts@[2]);
        }
        if !opposite(&self.normal, &other.normal) || !self.coincident_planes(other) {
            return false;
        }
        let mine = self.to_2d(false);
        let theirs = other.to_2d(true);
        proof {
            let axis = spec_dominant_axis(self.normal);
            let down = self.normal.at(axis) < 0;
            lemma_opposite_faces_share_frame(self@, other@);
            lemma_project_in_range(self.verts@, axis, down);
            lemma_project_in_range(other.verts@, axis, down);
        }
        let mut i: usize = 0;
        while i < mine.len()
            invariant
                i <= mine.len(),
                mine@ == spec_to_2d(self@, false),
                mine@.len() == self.verts@.len(),
                outline_in_range(mine@),
                outline_in_range(theirs@),
                theirs@ == spec_project_all(
                    other@.verts,
                    spec_dominant_axis(self@.normal),
                    self@.normal.at(spec_dominant_axis(self@.normal)) < 0,
                ),
                forall|k: int| 0 <= k < i ==> spec_point_inside(#[trigger] mine@[k], theirs@),
            decreases mine.len() - i,
        {
            if !point_inside_face(mine[i], &theirs) {
                return false;
            }
            i += 1;
        }
        true
    }
}

} // verus!
