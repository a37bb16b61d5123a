//! The 24 orientations of a brick: the rotations that map a cube onto itself.

use vstd::prelude::*;
use crate::brickadia_specs::spec_scale_axis;
use crate::faces::out_of_plane;
use crate::vec3::I64Vec3;

verus! {

/// The number of orientations.
pub const ORIENTATIONS: u8 = 24;

/// `v` turned by orientation `o`. Orientation `4 * direction + rotation` is
/// the one of a brick with that direction and rotation; 16 leaves `v` as it is.
pub open spec fn spec_rotate(o: u8, v: I64Vec3) -> I64Vec3 {
    match o {
        0 => I64Vec3 { x: v.y, y: v.x, z: (-v.z) as i64 },
        1 => I64Vec3 { x: v.y, y: (-v.z) as i64, z: (-v.x) as i64 },
        2 => I64Vec3 { x: v.y, y: (-v.x) as i64, z: v.z },
        3 => I64Vec3 { x: v.y, y: v.z, z: v.x },
        4 => I64Vec3 { x: (-v.y) as i64, y: v.x, z: v.z },
        5 => I64Vec3 { x: (-v.y) as i64, y: (-v.z) as i64, z: v.x },
        6 => I64Vec3 { x: (-v.y) as i64, y: (-v.x) as i64, z: (-v.z) as i64 },
        7 => I64Vec3 { x: (-v.y) as i64, y: v.z, z: (-v.x) as i64 },
        8 => I64Vec3 { x: v.z, y: v.x, z: v.y },
        9 => I64Vec3 { x: v.x, y: (-v.z) as i64, z: v.y },
        10 => I64Vec3 { x: (-v.z) as i64, y: (-v.x) as i64, z: v.y },
        11 => I64Vec3 { x: (-v.x) as i64, y: v.z, z: v.y },
        12 => I64Vec3 { x: (-v.z) as i64, y: v.x, z: (-v.y) as i64 },
        13 => I64Vec3 { x: (-v.x) as i64, y: (-v.z) as i64, z: (-v.y) as i64 },
        14 => I64Vec3 { x: v.z, y: (-v.x) as i64, z: (-v.y) as i64 },
        15 => I64Vec3 { x: v.x, y: v.z, z: (-v.y) as i64 },
        16 => I64Vec3 { x: v.x, y: v.y, z: v.z },
        17 => I64Vec3 { x: (-v.z) as i64, y: v.y, z: v.x },
        18 => I64Vec3 { x: (-v.x) as i64, y: v.y, z: (-v.z) as i64 },
        19 => I64Vec3 { x: v.z, y: v.y, z: (-v.x) as i64 },
        20 => I64Vec3 { x: (-v.x) as i64, y: (-v.y) as i64, z: v.z },
        21 => I64Vec3 { x: v.z, y: (-v.y) as i64, z: v.x },
        22 => I64Vec3 { x: v.x, y: (-v.y) as i64, z: (-v.z) as i64 },
        23 => I64Vec3 { x: (-v.z) as i64, y: (-v.y) as i64, z: (-v.x) as i64 },
        _ => v,
    }
}

/// The orientation number of a direction (0 to 5) and a rotation (0 to 3).
pub fn orientation(direction: u8, rotation: u8) -> (o: u8)
    requires
        direction < 6,
        rotation < 4,
    ensures
        o == 4 * direction + rotation,
        o < ORIENTATIONS,
{
    let o = brickadia::util::rotation::d2o(direction, rotation);
    assert(((direction << 2u8) | rotation) == 4 * direction + rotation) by (bit_vector)
        requires
            direction < 6,
            rotation < 4,
    ;
    o
}

/// Turns `v` by orientation `o`.
pub fn rotate(o: u8, v: I64Vec3) -> (r: I64Vec3)
    requires
        o < ORIENTATIONS,
        v.x > i64::MIN && v.y > i64::MIN && v.z > i64::MIN,
    ensures
        r == spec_rotate(o, v),
{
    match o {
        0 => I64Vec3 { x: v.y, y: v.x, z: -v.z },
        1 => I64Vec3 { x: v.y, y: -v.z, z: -v.x },
        2 => I64Vec3 { x: v.y, y: -v.x, z: v.z },
        3 => I64Vec3 { x: v.y, y: v.z, z: v.x },
        4 => I64Vec3 { x: -v.y, y: v.x, z: v.z },
        5 => I64Vec3 { x: -v.y, y: -v.z, z: v.x },
        6 => I64Vec3 { x: -v.y, y: -v.x, z: -v.z },
        7 => I64Vec3 { x: -v.y, y: v.z, z: -v.x },
        8 => I64Vec3 { x: v.z, y: v.x, z: v.y },
        9 => I64Vec3 { x: v.x, y: -v.z, z: v.y },
        10 => I64Vec3 { x: -v.z, y: -v.x, z: v.y },
        11 => I64Vec3 { x: -v.x, y: v.z, z: v.y },
        12 => I64Vec3 { x: -v.z, y: v.x, z: -v.y },
        13 => I64Vec3 { x: -v.x, y: -v.z, z: -v.y },
        14 => I64Vec3 { x: v.z, y: -v.x, z: -v.y },
        15 => I64Vec3 { x: v.x, y: v.z, z: -v.y },
        16 => I64Vec3 { x: v.x, y: v.y, z: v.z },
        17 => I64Vec3 { x: -v.z, y: v.y, z: v.x },
        18 => I64Vec3 { x: -v.x, y: v.y, z: -v.z },
        19 => I64Vec3 { x: v.z, y: v.y, z: -v.x },
        20 => I64Vec3 { x: -v.x, y: -v.y, z: v.z },
        21 => I64Vec3 { x: v.z, y: -v.y, z: v.x },
        22 => I64Vec3 { x: v.x, y: -v.y, z: -v.z },
        23 => I64Vec3 { x: -v.z, y: -v.y, z: -v.x },
        _ => v,
    }
}

/// The dot product of two vectors.
pub open spec fn dot(a: I64Vec3, b: I64Vec3) -> int {
    a.x * b.x + a.y * b.y + a.z * b.z
}

/// Turning moves each component to another place, with or without a change of
/// sign, so it keeps every bound on the components.
pub proof fn lemma_rotate_within(o: u8, v: I64Vec3, bound: int)
    requires
        v.within(bound),
        bound < i64::MAX,
    ensures
        spec_rotate(o, v).within(bound),
{
}

/// Every orientation keeps lengths and angles: the dot product of two turned
/// vectors is that of the vectors themselves.
pub proof fn lemma_rotate_keeps_dot(o: u8, a: I64Vec3, b: I64Vec3)
    requires
        o < ORIENTATIONS,
        a.within(i64::MAX as int),
        b.within(i64::MAX as int),
    ensures
        dot(spec_rotate(o, a), spec_rotate(o, b)) == dot(a, b),
{
    assert((-a.x) * (-b.x) == a.x * b.x) by (nonlinear_arith);
    assert((-a.y) * (-b.y) == a.y * b.y) by (nonlinear_arith);
    assert((-a.z) * (-b.z) == a.z * b.z) by (nonlinear_arith);
}

/// The determinant of an orientation: the image of the X axis dotted with the
/// cross product of the images of the Y and Z axes.
pub open spec fn determinant(o: u8) -> int {
    let x = spec_rotate(o, I64Vec3 { x: 1, y: 0, z: 0 });
    let y = spec_rotate(o, I64Vec3 { x: 0, y: 1, z: 0 });
    let z = spec_rotate(o, I64Vec3 { x: 0, y: 0, z: 1 });
    x.x * (y.y * z.z - y.z * z.y) + x.y * (y.z * z.x - y.x * z.z) + x.z * (y.x * z.y - y.y * z.x)
}

/// Every orientation is a turn and no reflection: its determinant is one.
pub proof fn lemma_rotate_is_proper(o: u8)
    by (nonlinear_arith)
    requires
        o < ORIENTATIONS,
    ensures
        determinant(o) == 1,
{
}

/// No two orientations are the same turn: they already differ on the vector
/// (1, 2, 3).
pub proof fn lemma_orientations_distinct(o1: u8, o2: u8)
    requires
        o1 < ORIENTATIONS,
        o2 < ORIENTATIONS,
        o1 != o2,
    ensures
        spec_rotate(o1, I64Vec3 { x: 1, y: 2, z: 3 }) != spec_rotate(o2, I64Vec3 { x: 1, y: 2, z: 3 }),
{
}


/// The absolute value of a coordinate.
pub open spec fn magnitude(v: int) -> int {
    if v < 0 {
        -v
    } else {
        v
    }
}

/// The entry of a size triple that `entry` names.
pub open spec fn size_entry(size: (u32, u32, u32), entry: u8) -> int {
    if entry == 0 {
        size.0 as int
    } else if entry == 1 {
        size.1 as int
    } else {
        size.2 as int
    }
}

/// Faces and boxes are turned alike: the corner of a box with the half-extents
/// of a brick, turned by the brick's orientation, reaches on each world axis
/// as far as the brick's size along that axis.
pub proof fn lemma_turned_corner_reaches_axis_sizes(direction: u8, rotation: u8, size: (u32, u32, u32))
    requires
        direction < 6,
        rotation < 4,
    ensures
        ({
            let corner = I64Vec3 { x: size.0 as i64, y: size.2 as i64, z: size.1 as i64 };
            let turned = spec_rotate((4 * direction + rotation) as u8, corner);
            &&& magnitude(turned.x as int) == size_entry(size, spec_scale_axis(direction, rotation, 0))
            &&& magnitude(turned.y as int) == size_entry(size, spec_scale_axis(direction, rotation, 2))
            &&& magnitude(turned.z as int) == size_entry(size, spec_scale_axis(direction, rotation, 1))
        }),
{
}


/// The determinant of three vectors: the volume that they span, with a sign.
pub open spec fn det3(u: (int, int, int), v: (int, int, int), w: (int, int, int)) -> int {
    w.0 * (u.1 * v.2 - u.2 * v.1) + w.1 * (u.2 * v.0 - u.0 * v.2) + w.2 * (u.0 * v.1 - u.1 * v.0)
}

/// A vector of whole numbers of any size turned by orientation `o`.
pub open spec fn spec_turn(o: u8, t: (int, int, int)) -> (int, int, int) {
    match o {
        0 => (t.1, t.0, -t.2),
        1 => (t.1, -t.2, -t.0),
        2 => (t.1, -t.0, t.2),
        3 => (t.1, t.2, t.0),
        4 => (-t.1, t.0, t.2),
        5 => (-t.1, -t.2, t.0),
        6 => (-t.1, -t.0, -t.2),
        7 => (-t.1, t.2, -t.0),
        8 => (t.2, t.0, t.1),
        9 => (t.0, -t.2, t.1),
        10 => (-t.2, -t.0, t.1),
        11 => (-t.0, t.2, t.1),
        12 => (-t.2, t.0, -t.1),
        13 => (-t.0, -t.2, -t.1),
        14 => (t.2, -t.0, -t.1),
        15 => (t.0, t.2, -t.1),
        16 => (t.0, t.1, t.2),
        17 => (-t.2, t.1, t.0),
        18 => (-t.0, t.1, -t.2),
        19 => (t.2, t.1, -t.0),
        20 => (-t.0, -t.1, t.2),
        21 => (t.2, -t.1, t.0),
        22 => (t.0, -t.1, -t.2),
        23 => (-t.2, -t.1, -t.0),
        _ => t,
    }
}

/// Turning keeps the determinant of three vectors: it keeps volumes and
/// handedness.
pub proof fn lemma_turn_keeps_det(o: u8, u: (int, int, int), v: (int, int, int), w: (int, int, int))
    requires
        o < ORIENTATIONS,
    ensures
        det3(spec_turn(o, u), spec_turn(o, v), spec_turn(o, w)) == det3(u, v, w),
{
    if o == 0 {
        assert(det3((u.1, u.0, -u.2), (v.1, v.0, -v.2), (w.1, w.0, -w.2)) == det3(u, v, w)) by (nonlinear_arith);
    } else if o == 1 {
        assert(det3((u.1, -u.2, -u.0), (v.1, -v.2, -v.0), (w.1, -w.2, -w.0)) == det3(u, v, w)) by (nonlinear_arith);
    } else if o == 2 {
        assert(det3((u.1, -u.0, u.2), (v.1, -v.0, v.2), (w.1, -w.0, w.2)) == det3(u, v, w)) by (nonlinear_arith);
    } else if o == 3 {
        assert(det3((u.1, u.2, u.0), (v.1, v.2, v.0), (w.1, w.2, w.0)) == det3(u, v, w)) by (nonlinear_arith);
    } else if o == 4 {
        assert(det3((-u.1, u.0, u.2), (-v.1, v.0, v.2), (-w.1, w.0, w.2)) == det3(u, v, w)) by (nonlinear_arith);
    } else if o == 5 {
        assert(det3((-u.1, -u.2, u.0), (-v.1, -v.2, v.0), (-w.1, -w.2, w.0)) == det3(u, v, w)) by (nonlinear_arith);
    } else if o == 6 {
        assert(det3((-u.1, -u.0, -u.2), (-v.1, -v.0, -v.2), (-w.1, -w.0, -w.2)) == det3(u, v, w)) by (nonlinear_arith);
    } else if o == 7 {
        assert(det3((-u.1, u.2, -u.0), (-v.1, v.2, -v.0), (-w.1, w.2, -w.0)) == det3(u, v, w)) by (nonlinear_arith);
    } else if o == 8 {
        assert(det3((u.2, u.0, u.1), (v.2, v.0, v.1), (w.2, w.0, w.1)) == det3(u, v, w)) by (nonlinear_arith);
    } else if o == 9 {
        assert(det3((u.0, -u.2, u.1), (v.0, -v.2, v.1), (w.0, -w.2, w.1)) == det3(u, v, w)) by (nonlinear_arith);
    } else if o == 10 {
        assert(det3((-u.2, -u.0, u.1), (-v.2, -v.0, v.1), (-w.2, -w.0, w.1)) == det3(u, v, w)) by (nonlinear_arith);
    } else if o == 11 {
        assert(det3((-u.0, u.2, u.1), (-v.0, v.2, v.1), (-w.0, w.2, w.1)) == det3(u, v, w)) by (nonlinear_arith);
    } else if o == 12 {
        assert(det3((-u.2, u.0, -u.1), (-v.2, v.0, -v.1), (-w.2, w.0, -w.1)) == det3(u, v, w)) by (nonlinear_arith);
    } else if o == 13 {
        assert(det3((-u.0, -u.2, -u.1), (-v.0, -v.2, -v.1), (-w.0, -w.2, -w.1)) == det3(u, v, w)) by (nonlinear_arith);
    } else if o == 14 {
        assert(det3((u.2, -u.0, -u.1), (v.2, -v.0, -v.1), (w.2, -w.0, -w.1)) == det3(u, v, w)) by (nonlinear_arith);
    } else if o == 15 {
        assert(det3((u.0, u.2, -u.1), (v.0, v.2, -v.1), (w.0, w.2, -w.1)) == det3(u, v, w)) by (nonlinear_arith);
    } else if o == 16 {
        assert(det3((u.0, u.1, u.2), (v.0, v.1, v.2), (w.0, w.1, w.2)) == det3(u, v, w)) by (nonlinear_arith);
    } else if o == 17 {
        assert(det3((-u.2, u.1, u.0), (-v.2, v.1, v.0), (-w.2, w.1, w.0)) == det3(u, v, w)) by (nonlinear_arith);
    } else if o == 18 {
        assert(det3((-u.0, u.1, -u.2), (-v.0, v.1, -v.2), (-w.0, w.1, -w.2)) == det3(u, v, w)) by (nonlinear_arith);
    } else if o == 19 {
        assert(det3((u.2, u.1, -u.0), (v.2, v.1, -v.0), (w.2, w.1, -w.0)) == det3(u, v, w)) by (nonlinear_arith);
    } else if o == 20 {
        assert(det3((-u.0, -u.1, u.2), (-v.0, -v.1, v.2), (-w.0, -w.1, w.2)) == det3(u, v, w)) by (nonlinear_arith);
    } else if o == 21 {
        assert(det3((u.2, -u.1, u.0), (v.2, -v.1, v.0), (w.2, -w.1, w.0)) == det3(u, v, w)) by (nonlinear_arith);
    } else if o == 22 {
        assert(det3((u.0, -u.1, -u.2), (v.0, -v.1, -v.2), (w.0, -w.1, -w.2)) == det3(u, v, w)) by (nonlinear_arith);
    } else if o == 23 {
        assert(det3((-u.2, -u.1, -u.0), (-v.2, -v.1, -v.0), (-w.2, -w.1, -w.0)) == det3(u, v, w)) by (nonlinear_arith);
    }
}

/// Turning keeps what lies in a plane in it: how far a point lies off the
/// plane through three others is the same after all four are turned.
pub proof fn lemma_rotate_keeps_plane(o: u8, a: I64Vec3, b: I64Vec3, c: I64Vec3, p: I64Vec3)
    requires
        o < ORIENTATIONS,
        a.within(0x2_0000_0000),
        b.within(0x2_0000_0000),
        c.within(0x2_0000_0000),
        p.within(0x2_0000_0000),
    ensures
        out_of_plane(spec_rotate(o, a), spec_rotate(o, b), spec_rotate(o, c), spec_rotate(o, p))
            == out_of_plane(a, b, c, p),
{
    let u = (b.x - a.x, b.y - a.y, b.z - a.z);
    let v = (c.x - a.x, c.y - a.y, c.z - a.z);
    let w = (p.x - a.x, p.y - a.y, p.z - a.z);
    let (ra, rb, rc, rp) = (spec_rotate(o, a), spec_rotate(o, b), spec_rotate(o, c), spec_rotate(o, p));
    let tu = (rb.x - ra.x, rb.y - ra.y, rb.z - ra.z);
    let tv = (rc.x - ra.x, rc.y - ra.y, rc.z - ra.z);
    let tw = (rp.x - ra.x, rp.y - ra.y, rp.z - ra.z);
    lemma_rotate_is_turn(o, a);
    lemma_rotate_is_turn(o, b);
    lemma_rotate_is_turn(o, c);
    lemma_rotate_is_turn(o, p);
    lemma_turn_of_difference(o, (b.x as int, b.y as int, b.z as int), (a.x as int, a.y as int, a.z as int));
    lemma_turn_of_difference(o, (c.x as int, c.y as int, c.z as int), (a.x as int, a.y as int, a.z as int));
    lemma_turn_of_difference(o, (p.x as int, p.y as int, p.z as int), (a.x as int, a.y as int, a.z as int));
    assert(tu.0 == spec_turn(o, u).0 && tu.1 == spec_turn(o, u).1 && tu.2 == spec_turn(o, u).2);
    assert(tv.0 == spec_turn(o, v).0 && tv.1 == spec_turn(o, v).1 && tv.2 == spec_turn(o, v).2);
    assert(tw.0 == spec_turn(o, w).0 && tw.1 == spec_turn(o, w).1 && tw.2 == spec_turn(o, w).2);
    assert(tu == spec_turn(o, u) && tv == spec_turn(o, v) && tw == spec_turn(o, w));
    lemma_turn_keeps_det(o, u, v, w);
    lemma_out_of_plane_is_det(a, b, c, p);
    lemma_out_of_plane_is_det(ra, rb, rc, rp);
}

/// Turning a vector of 64-bit numbers is turning its numbers.
pub proof fn lemma_rotate_is_turn(o: u8, v: I64Vec3)
    requires
        v.within(0x2_0000_0000),
    ensures
        spec_turn(o, (v.x as int, v.y as int, v.z as int)).0 == spec_rotate(o, v).x,
        spec_turn(o, (v.x as int, v.y as int, v.z as int)).1 == spec_rotate(o, v).y,
        spec_turn(o, (v.x as int, v.y as int, v.z as int)).2 == spec_rotate(o, v).z,
{
}

/// Turning a difference is taking the difference of what is turned.
pub proof fn lemma_turn_of_difference(o: u8, s: (int, int, int), t: (int, int, int))
    ensures
        spec_turn(o, (s.0 - t.0, s.1 - t.1, s.2 - t.2)).0 == spec_turn(o, s).0 - spec_turn(o, t).0,
        spec_turn(o, (s.0 - t.0, s.1 - t.1, s.2 - t.2)).1 == spec_turn(o, s).1 - spec_turn(o, t).1,
        spec_turn(o, (s.0 - t.0, s.1 - t.1, s.2 - t.2)).2 == spec_turn(o, s).2 - spec_turn(o, t).2,
{
}

/// How far a point lies off a plane is the determinant of the three edges
/// from the plane's first point, negated.
pub proof fn lemma_out_of_plane_is_det(a: I64Vec3, b: I64Vec3, c: I64Vec3, p: I64Vec3)
    ensures
        out_of_plane(a, b, c, p) == -det3(
            (b.x - a.x, b.y - a.y, b.z - a.z),
            (c.x - a.x, c.y - a.y, c.z - a.z),
            (p.x - a.x, p.y - a.y, p.z - a.z),
        ),
{
    let (ux, uy, uz) = (b.x - a.x, b.y - a.y, b.z - a.z);
    let (vx, vy, vz) = (c.x - a.x, c.y - a.y, c.z - a.z);
    let (wx, wy, wz) = (p.x - a.x, p.y - a.y, p.z - a.z);
    assert(wx * (-(uy * vz - uz * vy)) == -(wx * (uy * vz - uz * vy))) by (nonlinear_arith);
    assert(wy * (-(uz * vx - ux * vz)) == -(wy * (uz * vx - ux * vz))) by (nonlinear_arith);
    assert(wz * (-(ux * vy - uy * vx)) == -(wz * (ux * vy - uy * vx))) by (nonlinear_arith);
}

} // verus!
