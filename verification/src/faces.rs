//! Polygons: the face type and the catalog of brick shapes.
//!
//! Every shape is put together from the eight corners of the box
//! `-size ..= size`, two points halfway along its top edges, and a few points
//! set off from those by fixed amounts:
//!
//! ```text
//!         B----J----C
//!        /|        /|
//!       / |       / |
//!      A----I----D  |           Y
//!      |  |      |  |           ^    -Z
//!      |  F------|--G           |   /
//!      | /       | /            |  /
//!      |/        |/             | /
//!      E---------H              +---------> X
//! ```

use vstd::prelude::*;
use crate::vec3::{I64Vec3, UVec3};

verus! {

/// No vertex of a well-formed face lies further than this from the origin on
/// any axis, which keeps normals inside 64 bits.
pub const VERTEX_LIMIT: i64 = 0x2000_0000;

/// A planar convex polygon of one brick.
#[derive(Debug, Clone)]
pub struct Face {
    /// The corners, clockwise as seen from outside the brick.
    pub verts: Vec<I64Vec3>,
    /// The outward direction, not scaled to any length.
    pub normal: I64Vec3,
    /// Set when a neighbouring brick covers the face.
    pub hidden: bool,
}

/// What a face is, with its corners as a sequence.
pub struct FaceView {
    pub verts: Seq<I64Vec3>,
    pub normal: I64Vec3,
    pub hidden: bool,
}

impl View for Face {
    type V = FaceView;

    open spec fn view(&self) -> FaceView {
        FaceView { verts: self.verts@, normal: self.normal, hidden: self.hidden }
    }
}

/// The outward direction of a polygon that starts with corners `a`, `b`, `c`
/// in clockwise order: the cross product of `b - a` and `c - a`, negated.
pub open spec fn spec_normal(a: I64Vec3, b: I64Vec3, c: I64Vec3) -> (int, int, int) {
    let ux = b.x - a.x;
    let uy = b.y - a.y;
    let uz = b.z - a.z;
    let vx = c.x - a.x;
    let vy = c.y - a.y;
    let vz = c.z - a.z;
    (-(uy * vz - uz * vy), -(uz * vx - ux * vz), -(ux * vy - uy * vx))
}

impl FaceView {
    /// At least three corners, all within `VERTEX_LIMIT`, and the normal is
    /// the one that the first three corners give.
    pub open spec fn wf(self) -> bool {
        &&& self.verts.len() >= 3
        &&& forall|i: int| 0 <= i < self.verts.len() ==> (#[trigger] self.verts[i]).within(VERTEX_LIMIT as int)
        &&& spec_normal(self.verts[0], self.verts[1], self.verts[2]) == (
            self.normal.x as int,
            self.normal.y as int,
            self.normal.z as int,
        )
    }

    /// The normal points straight down.
    pub open spec fn faces_down(self) -> bool {
        self.normal.x == 0 && self.normal.z == 0 && self.normal.y < 0
    }
}

impl Face {
    /// A face with the given corners, no normal yet, and not hidden.
    pub fn new(verts: Vec<I64Vec3>) -> (face: Face)
        ensures
            face@ == (FaceView { verts: verts@, normal: I64Vec3 { x: 0, y: 0, z: 0 }, hidden: false }),
    {
        Face { verts, normal: I64Vec3 { x: 0, y: 0, z: 0 }, hidden: false }
    }

    /// Sets the normal from the first three corners.
    pub fn calc_normal(&mut self)
        requires
            old(self).verts.len() >= 3,
            forall|i: int| 0 <= i < 3 ==> (#[trigger] old(self).verts[i]).within(VERTEX_LIMIT as int),
        ensures
            final(self).verts == old(self).verts,
            final(self).hidden == old(self).hidden,
            spec_normal(old(self).verts[0], old(self).verts[1], old(self).verts[2]) == (
                final(self).normal.x as int,
                final(self).normal.y as int,
                final(self).normal.z as int,
            ),
    {
        let a = self.verts[0];
        let b = self.verts[1];
        let c = self.verts[2];
        assert(a.within(VERTEX_LIMIT as int) && b.within(VERTEX_LIMIT as int) && c.within(
            VERTEX_LIMIT as int,
        ));
        let ux: i64 = b.x - a.x;
        let uy: i64 = b.y - a.y;
        let uz: i64 = b.z - a.z;
        let vx: i64 = c.x - a.x;
        let vy: i64 = c.y - a.y;
        let vz: i64 = c.z - a.z;
        self.normal = I64Vec3 {
            x: -(mul_small(uy, vz) - mul_small(uz, vy)),
            y: -(mul_small(uz, vx) - mul_small(ux, vz)),
            z: -(mul_small(ux, vy) - mul_small(uy, vx)),
        };
    }

    /// Tests whether the face is well formed.
    pub fn is_valid(&self) -> (r: bool)
        ensures
            r == self@.wf(),
    {
        if self.verts.len() < 3 {
            return false;
        }
        let mut i: usize = 0;
        while i < self.verts.len()
            invariant
                i <= self.verts.len(),
                forall|k: int| 0 <= k < i ==> (#[trigger] self.verts@[k]).within(VERTEX_LIMIT as int),
            decreases self.verts.len() - i,
        {
            let v = self.verts[i];
            if !(-VERTEX_LIMIT <= v.x && v.x <= VERTEX_LIMIT && -VERTEX_LIMIT <= v.y && v.y
                <= VERTEX_LIMIT && -VERTEX_LIMIT <= v.z && v.z <= VERTEX_LIMIT) {
                return false;
            }
            i += 1;
        }
        let a = self.verts[0];
        let b = self.verts[1];
        let c = self.verts[2];
        assert(a.within(VERTEX_LIMIT as int) && b.within(VERTEX_LIMIT as int) && c.within(
            VERTEX_LIMIT as int,
        ));
        let ux: i64 = b.x - a.x;
        let uy: i64 = b.y - a.y;
        let uz: i64 = b.z - a.z;
        let vx: i64 = c.x - a.x;
        let vy: i64 = c.y - a.y;
        let vz: i64 = c.z - a.z;
        self.normal.x == -(mul_small(uy, vz) - mul_small(uz, vy)) && self.normal.y == -(mul_small(
            uz,
            vx,
        ) - mul_small(ux, vz)) && self.normal.z == -(mul_small(ux, vy) - mul_small(uy, vx))
    }

    /// The triangles of the face as a fan about its first corner: for each
    /// `i`, corners `0`, `i + 2` and `i + 1`.
    pub fn positions(&self) -> (out: Vec<[i64; 3]>)
        requires
            self.verts.len() >= 3,
        ensures
            out@ == spec_positions(self.verts@),
    {
        let mut out: Vec<[i64; 3]> = Vec::new();
        let n = self.verts.len();
        let mut i: usize = 0;
        while i < n - 2
            invariant
                n == self.verts.len(),
                n >= 3,
                i <= n - 2,
                out@ == spec_fan(self.verts@, i as nat),
            decreases n - i,
        {
            let a = self.verts[0];
            let b = self.verts[2 + i];
            let c = self.verts[1 + i];
            out.push([a.x, a.y, a.z]);
            out.push([b.x, b.y, b.z]);
            out.push([c.x, c.y, c.z]);
            i += 1;
        }
        out
    }
}

/// A product of two differences of coordinates.
fn mul_small(a: i64, b: i64) -> (p: i64)
    requires
        -0x4000_0000 <= a <= 0x4000_0000,
        -0x4000_0000 <= b <= 0x4000_0000,
    ensures
        p == a * b,
        -0x1000_0000_0000_0000 <= p <= 0x1000_0000_0000_0000,
{
    assert(-0x1000_0000_0000_0000 <= a * b <= 0x1000_0000_0000_0000) by (nonlinear_arith)
        requires
            -0x4000_0000 <= a <= 0x4000_0000,
            -0x4000_0000 <= b <= 0x4000_0000,
    ;
    a * b
}

/// A corner as the three numbers of a vertex buffer.
pub open spec fn spec_position(v: I64Vec3) -> [i64; 3] {
    [v.x, v.y, v.z]
}

/// The first `count` triangles of the fan about corner 0.
pub open spec fn spec_fan(verts: Seq<I64Vec3>, count: nat) -> Seq<[i64; 3]>
    decreases count,
{
    if count == 0 {
        Seq::empty()
    } else {
        let i = (count - 1) as int;
        spec_fan(verts, (count - 1) as nat).push(spec_position(verts[0])).push(
            spec_position(verts[i + 2]),
        ).push(spec_position(verts[i + 1]))
    }
}

/// The whole fan: a polygon of `n` corners gives `n - 2` triangles.
pub open spec fn spec_positions(verts: Seq<I64Vec3>) -> Seq<[i64; 3]> {
    spec_fan(verts, (verts.len() - 2) as nat)
}

/// `faces` are the polygons `polys`, in order, as `Face::new` leaves them.
pub open spec fn fresh_faces(faces: Seq<Face>, polys: Seq<Seq<I64Vec3>>) -> bool {
    &&& faces.len() == polys.len()
    &&& forall|i: int|
        0 <= i < faces.len() ==> (#[trigger] faces[i])@ == (FaceView {
            verts: polys[i],
            normal: I64Vec3 { x: 0, y: 0, z: 0 },
            hidden: false,
        })
}

/// How far `p` lies off the plane through `a`, `b` and `c`, in units of the
/// length of that plane's normal: zero just when it lies in the plane.
pub open spec fn out_of_plane(a: I64Vec3, b: I64Vec3, c: I64Vec3, p: I64Vec3) -> int {
    let n = spec_normal(a, b, c);
    (p.x - a.x) * n.0 + (p.y - a.y) * n.1 + (p.z - a.z) * n.2
}

/// Every corner of the polygon lies in the plane of its first three.
pub open spec fn poly_planar(poly: Seq<I64Vec3>) -> bool {
    forall|j: int|
        0 <= j < poly.len() ==> out_of_plane(poly[0], poly[1], poly[2], #[trigger] poly[j]) == 0
}

/// Every polygon is flat.
pub open spec fn polys_planar(polys: Seq<Seq<I64Vec3>>) -> bool {
    forall|i: int| 0 <= i < polys.len() ==> poly_planar(#[trigger] polys[i])
}

/// Three points lie in the plane that they span.
pub proof fn lemma_first_corners_in_plane(a: I64Vec3, b: I64Vec3, c: I64Vec3)
    ensures
        out_of_plane(a, b, c, a) == 0,
        out_of_plane(a, b, c, b) == 0,
        out_of_plane(a, b, c, c) == 0,
{
    let (ux, uy, uz) = (b.x - a.x, b.y - a.y, b.z - a.z);
    let (vx, vy, vz) = (c.x - a.x, c.y - a.y, c.z - a.z);
    let n = spec_normal(a, b, c);
    assert(0 * n.0 + 0 * n.1 + 0 * n.2 == 0) by (nonlinear_arith);
    assert(ux * (uy * vz) == uy * (ux * vz)) by (nonlinear_arith);
    assert(ux * (uz * vy) == uz * (ux * vy)) by (nonlinear_arith);
    assert(uy * (uz * vx) == uz * (uy * vx)) by (nonlinear_arith);
    assert(ux * (-(uy * vz - uz * vy)) == ux * (uz * vy) - ux * (uy * vz)) by (nonlinear_arith);
    assert(uy * (-(uz * vx - ux * vz)) == uy * (ux * vz) - uy * (uz * vx)) by (nonlinear_arith);
    assert(uz * (-(ux * vy - uy * vx)) == uz * (uy * vx) - uz * (ux * vy)) by (nonlinear_arith);
    assert(vx * (uy * vz) == vz * (uy * vx)) by (nonlinear_arith);
    assert(vx * (uz * vy) == vy * (uz * vx)) by (nonlinear_arith);
    assert(vy * (ux * vz) == vz * (ux * vy)) by (nonlinear_arith);
    assert(vx * (-(uy * vz - uz * vy)) == vx * (uz * vy) - vx * (uy * vz)) by (nonlinear_arith);
    assert(vy * (-(uz * vx - ux * vz)) == vy * (ux * vz) - vy * (uz * vx)) by (nonlinear_arith);
    assert(vz * (-(ux * vy - uy * vx)) == vz * (uy * vx) - vz * (ux * vy)) by (nonlinear_arith);
}

/// The named points of a box of half-extents `size`.
pub struct Corners {
    pub a: I64Vec3,
    pub b: I64Vec3,
    pub c: I64Vec3,
    pub d: I64Vec3,
    pub e: I64Vec3,
    pub f: I64Vec3,
    pub g: I64Vec3,
    pub h: I64Vec3,
    pub i: I64Vec3,
    pub j: I64Vec3,
}

/// The corners `A` to `H` of the box and the edge midpoints `I` and `J`.
pub open spec fn spec_corners(size: UVec3) -> Corners {
    let x = size.x as i64;
    let y = size.y as i64;
    let z = size.z as i64;
    Corners {
        a: I64Vec3 { x: (-x) as i64, y: y, z: z },
        b: I64Vec3 { x: (-x) as i64, y: y, z: (-z) as i64 },
        c: I64Vec3 { x: x, y: y, z: (-z) as i64 },
        d: I64Vec3 { x: x, y: y, z: z },
        e: I64Vec3 { x: (-x) as i64, y: (-y) as i64, z: z },
        f: I64Vec3 { x: (-x) as i64, y: (-y) as i64, z: (-z) as i64 },
        g: I64Vec3 { x: x, y: (-y) as i64, z: (-z) as i64 },
        h: I64Vec3 { x: x, y: (-y) as i64, z: z },
        i: I64Vec3 { x: 0, y: y, z: z },
        j: I64Vec3 { x: 0, y: y, z: (-z) as i64 },
    }
}

/// `v` moved ten units along X.
pub open spec fn spec_tenx(v: I64Vec3) -> I64Vec3 {
    I64Vec3 { x: (v.x + 10) as i64, y: v.y, z: v.z }
}

/// `v` moved ten units along Z.
pub open spec fn spec_tenz(v: I64Vec3) -> I64Vec3 {
    I64Vec3 { x: v.x, y: v.y, z: (v.z + 10) as i64 }
}

/// `v` moved two units up.
pub open spec fn spec_twoy(v: I64Vec3) -> I64Vec3 {
    I64Vec3 { x: v.x, y: (v.y + 2) as i64, z: v.z }
}

/// No corner of a shape lies further than this from the brick's centre on any
/// axis: the largest half-extent and the fixed offsets.
pub const SHAPE_REACH: i64 = 0x1_0000_0020;

/// Within the reach of a shape.
pub open spec fn near(v: I64Vec3) -> bool {
    v.within(SHAPE_REACH as int)
}

/// Every corner of the polygon lies within `bound` of the origin.
pub open spec fn poly_within(poly: Seq<I64Vec3>, bound: int) -> bool {
    forall|j: int| 0 <= j < poly.len() ==> (#[trigger] poly[j]).within(bound)
}

/// Every polygon has at least three corners.
pub open spec fn polys_proper(polys: Seq<Seq<I64Vec3>>) -> bool {
    forall|i: int| 0 <= i < polys.len() ==> (#[trigger] polys[i]).len() >= 3
}

/// Every corner of every polygon lies within `bound` of the origin.
pub open spec fn polys_within(polys: Seq<Seq<I64Vec3>>, bound: int) -> bool {
    forall|i: int| 0 <= i < polys.len() ==> poly_within(#[trigger] polys[i], bound)
}

fn corners(size: UVec3) -> (p: Corners)
    ensures
        p == spec_corners(size),
        near(p.a) && near(p.b) && near(p.c) && near(p.d) && near(p.e) && near(p.f) && near(p.g)
            && near(p.h) && near(p.i) && near(p.j),
{
    let x = size.x as i64;
    let y = size.y as i64;
    let z = size.z as i64;
    Corners {
        a: I64Vec3 { x: -x, y: y, z: z },
        b: I64Vec3 { x: -x, y: y, z: -z },
        c: I64Vec3 { x: x, y: y, z: -z },
        d: I64Vec3 { x: x, y: y, z: z },
        e: I64Vec3 { x: -x, y: -y, z: z },
        f: I64Vec3 { x: -x, y: -y, z: -z },
        g: I64Vec3 { x: x, y: -y, z: -z },
        h: I64Vec3 { x: x, y: -y, z: z },
        i: I64Vec3 { x: 0, y: y, z: z },
        j: I64Vec3 { x: 0, y: y, z: -z },
    }
}

fn tenx(v: I64Vec3) -> (r: I64Vec3)
    requires
        v.within(0x1_0000_0000),
    ensures
        r == spec_tenx(v),
        near(r),
{
    I64Vec3 { x: v.x + 10, y: v.y, z: v.z }
}

fn tenz(v: I64Vec3) -> (r: I64Vec3)
    requires
        v.within(0x1_0000_0010),
    ensures
        r == spec_tenz(v),
        near(r),
{
    I64Vec3 { x: v.x, y: v.y, z: v.z + 10 }
}

fn twoy(v: I64Vec3) -> (r: I64Vec3)
    requires
        v.within(0x1_0000_0000),
    ensures
        r == spec_twoy(v),
        near(r),
{
    I64Vec3 { x: v.x, y: v.y + 2, z: v.z }
}

/// The polygons of `default_wedge`, each from its first corner clockwise as seen from outside.
pub open spec fn spec_default_wedge(size: UVec3) -> Seq<Seq<I64Vec3>> {
    let p = spec_corners(size);
    seq![
        seq![p.a, p.b, spec_twoy(p.g), spec_twoy(p.h)],
        seq![p.a, spec_twoy(p.h), p.h, p.e],
        seq![spec_twoy(p.h), spec_twoy(p.g), p.g, p.h],
        seq![p.b, p.a, p.e, p.f],
        seq![p.b, p.f, p.g, spec_twoy(p.g)],
        seq![p.e, p.h, p.g, p.f],
    ]
}

/// A wedge: a box whose top slopes down along X to a lip two units high.
pub fn default_wedge(size: UVec3) -> (faces: Vec<Face>)
    ensures
        fresh_faces(faces@, spec_default_wedge(size)),
        polys_within(spec_default_wedge(size), SHAPE_REACH as int),
        polys_proper(spec_default_wedge(size)),
{
    let p = corners(size);
    let faces = vec![
        Face::new(vec![p.a, p.b, twoy(p.g), twoy(p.h)]),
        Face::new(vec![p.a, twoy(p.h), p.h, p.e]),
        Face::new(vec![twoy(p.h), twoy(p.g), p.g, p.h]),
        Face::new(vec![p.b, p.a, p.e, p.f]),
        Face::new(vec![p.b, p.f, p.g, twoy(p.g)]),
        Face::new(vec![p.e, p.h, p.g, p.f]),
    ];
    proof {
        let polys = spec_default_wedge(size);
        lemma_default_wedge_reach(size);
        assert(faces@[0]@.verts =~= polys[0]);
        assert(faces@[1]@.verts =~= polys[1]);
        assert(faces@[2]@.verts =~= polys[2]);
        assert(faces@[3]@.verts =~= polys[3]);
        assert(faces@[4]@.verts =~= polys[4]);
        assert(faces@[5]@.verts =~= polys[5]);
    }
    faces
}

/// Every face of `default_wedge` has three corners or more, none further from the centre than a shape reaches.
pub proof fn lemma_default_wedge_reach(size: UVec3)
    ensures
        polys_within(spec_default_wedge(size), SHAPE_REACH as int),
        polys_proper(spec_default_wedge(size)),
{
    let polys = spec_default_wedge(size);
    assert(poly_within(polys[0], SHAPE_REACH as int) && polys[0].len() >= 3);
    assert(poly_within(polys[1], SHAPE_REACH as int) && polys[1].len() >= 3);
    assert(poly_within(polys[2], SHAPE_REACH as int) && polys[2].len() >= 3);
    assert(poly_within(polys[3], SHAPE_REACH as int) && polys[3].len() >= 3);
    assert(poly_within(polys[4], SHAPE_REACH as int) && polys[4].len() >= 3);
    assert(poly_within(polys[5], SHAPE_REACH as int) && polys[5].len() >= 3);
}

/// Every face of `default_wedge` is flat: all its corners lie in the plane of the first three.
pub proof fn lemma_default_wedge_is_flat(size: UVec3)
    ensures
        polys_planar(spec_default_wedge(size)),
{
    let polys = spec_default_wedge(size);
    let x = size.x as int;
    let y = size.y as int;
    let z = size.z as int;
    assert(poly_planar(polys[0])) by {
        let f = polys[0];
        lemma_first_corners_in_plane(f[0], f[1], f[2]);
        assert(out_of_plane(f[0], f[1], f[2], f[3]) == 0) by (nonlinear_arith)
            requires
                f[0].x == -x,
                f[0].y == y,
                f[0].z == z,
                f[1].x == -x,
                f[1].y == y,
                f[1].z == -z,
                f[2].x == x,
                f[2].y == -y + 2,
                f[2].z == -z,
                f[3].x == x,
                f[3].y == -y + 2,
                f[3].z == z,
        ;
    }
    assert(poly_planar(polys[1])) by {
        let f = polys[1];
        lemma_first_corners_in_plane(f[0], f[1], f[2]);
        assert(out_of_plane(f[0], f[1], f[2], f[3]) == 0) by (nonlinear_arith)
            requires
                f[0].x == -x,
                f[0].y == y,
                f[0].z == z,
                f[1].x == x,
                f[1].y == -y + 2,
                f[1].z == z,
                f[2].x == x,
                f[2].y == -y,
                f[2].z == z,
                f[3].x == -x,
                f[3].y == -y,
                f[3].z == z,
        ;
    }
    assert(poly_planar(polys[2])) by {
        let f = polys[2];
        lemma_first_corners_in_plane(f[0], f[1], f[2]);
        assert(out_of_plane(f[0], f[1], f[2], f[3]) == 0) by (nonlinear_arith)
            requires
                f[0].x == x,
                f[0].y == -y + 2,
                f[0].z == z,
                f[1].x == x,
                f[1].y == -y + 2,
                f[1].z == -z,
                f[2].x == x,
                f[2].y == -y,
                f[2].z == -z,
                f[3].x == x,
                f[3].y == -y,
                f[3].z == z,
        ;
    }
    assert(poly_planar(polys[3])) by {
        let f = polys[3];
        lemma_first_corners_in_plane(f[0], f[1], f[2]);
        assert(out_of_plane(f[0], f[1], f[2], f[3]) == 0) by (nonlinear_arith)
            requires
                f[0].x == -x,
                f[0].y == y,
                f[0].z == -z,
                f[1].x == -x,
                f[1].y == y,
                f[1].z == z,
                f[2].x == -x,
                f[2].y == -y,
                f[2].z == z,
                f[3].x == -x,
                f[3].y == -y,
                f[3].z == -z,
        ;
    }
    assert(poly_planar(polys[4])) by {
        let f = polys[4];
        lemma_first_corners_in_plane(f[0], f[1], f[2]);
        assert(out_of_plane(f[0], f[1], f[2], f[3]) == 0) by (nonlinear_arith)
            requires
                f[0].x == -x,
                f[0].y == y,
                f[0].z == -z,
                f[1].x == -x,
                f[1].y == -y,
                f[1].z == -z,
                f[2].x == x,
                f[2].y == -y,
                f[2].z == -z,
                f[3].x == x,
                f[3].y == -y + 2,
                f[3].z == -z,
        ;
    }
    assert(poly_planar(polys[5])) by {
        let f = polys[5];
        lemma_first_corners_in_plane(f[0], f[1], f[2]);
        assert(out_of_plane(f[0], f[1], f[2], f[3]) == 0) by (nonlinear_arith)
            requires
                f[0].x == -x,
                f[0].y == -y,
                f[0].z == z,
                f[1].x == x,
                f[1].y == -y,
                f[1].z == z,
                f[2].x == x,
                f[2].y == -y,
                f[2].z == -z,
                f[3].x == -x,
                f[3].y == -y,
                f[3].z == -z,
        ;
    }
}

/// The polygons of `ramp_inner_corner`, each from its first corner clockwise as seen from outside.
pub open spec fn spec_ramp_inner_corner(size: UVec3) -> Seq<Seq<I64Vec3>> {
    let p = spec_corners(size);
    seq![
        seq![p.a, p.b, spec_tenx(p.b), spec_tenx(p.a)],
        seq![spec_tenx(p.b), p.c, spec_tenz(p.c), spec_tenz(spec_tenx(p.b))],
        seq![spec_tenx(p.a), spec_tenz(spec_tenx(p.b)), spec_twoy(p.h)],
        seq![spec_tenz(spec_tenx(p.b)), spec_tenz(p.c), spec_twoy(p.h)],
        seq![p.a, spec_tenx(p.a), spec_twoy(p.h), p.h, p.e],
        seq![spec_tenz(p.c), p.c, p.g, p.h, spec_twoy(p.h)],
        seq![p.b, p.a, p.e, p.f],
        seq![p.c, p.b, p.f, p.g],
        seq![p.e, p.h, p.g, p.f],
    ]
}

/// The inner corner where two ramps meet: flat on two sides of the top, sloping into the corner between them.
pub fn ramp_inner_corner(size: UVec3) -> (faces: Vec<Face>)
    ensures
        fresh_faces(faces@, spec_ramp_inner_corner(size)),
        polys_within(spec_ramp_inner_corner(size), SHAPE_REACH as int),
        polys_proper(spec_ramp_inner_corner(size)),
{
    let p = corners(size);
    let faces = vec![
        Face::new(vec![p.a, p.b, tenx(p.b), tenx(p.a)]),
        Face::new(vec![tenx(p.b), p.c, tenz(p.c), tenz(tenx(p.b))]),
        Face::new(vec![tenx(p.a), tenz(tenx(p.b)), twoy(p.h)]),
        Face::new(vec![tenz(tenx(p.b)), tenz(p.c), twoy(p.h)]),
        Face::new(vec![p.a, tenx(p.a), twoy(p.h), p.h, p.e]),
        Face::new(vec![tenz(p.c), p.c, p.g, p.h, twoy(p.h)]),
        Face::new(vec![p.b, p.a, p.e, p.f]),
        Face::new(vec![p.c, p.b, p.f, p.g]),
        Face::new(vec![p.e, p.h, p.g, p.f]),
    ];
    proof {
        let polys = spec_ramp_inner_corner(size);
        lemma_ramp_inner_corner_reach(size);
        assert(faces@[0]@.verts =~= polys[0]);
        assert(faces@[1]@.verts =~= polys[1]);
        assert(faces@[2]@.verts =~= polys[2]);
        assert(faces@[3]@.verts =~= polys[3]);
        assert(faces@[4]@.verts =~= polys[4]);
        assert(faces@[5]@.verts =~= polys[5]);
        assert(faces@[6]@.verts =~= polys[6]);
        assert(faces@[7]@.verts =~= polys[7]);
        assert(faces@[8]@.verts =~= polys[8]);
    }
    faces
}

/// Every face of `ramp_inner_corner` has three corners or more, none further from the centre than a shape reaches.
pub proof fn lemma_ramp_inner_corner_reach(size: UVec3)
    ensures
        polys_within(spec_ramp_inner_corner(size), SHAPE_REACH as int),
        polys_proper(spec_ramp_inner_corner(size)),
{
    let polys = spec_ramp_inner_corner(size);
    assert(poly_within(polys[0], SHAPE_REACH as int) && polys[0].len() >= 3);
    assert(poly_within(polys[1], SHAPE_REACH as int) && polys[1].len() >= 3);
    assert(poly_within(polys[2], SHAPE_REACH as int) && polys[2].len() >= 3);
    assert(poly_within(polys[3], SHAPE_REACH as int) && polys[3].len() >= 3);
    assert(poly_within(polys[4], SHAPE_REACH as int) && polys[4].len() >= 3);
    assert(poly_within(polys[5], SHAPE_REACH as int) && polys[5].len() >= 3);
    assert(poly_within(polys[6], SHAPE_REACH as int) && polys[6].len() >= 3);
    assert(poly_within(polys[7], SHAPE_REACH as int) && polys[7].len() >= 3);
    assert(poly_within(polys[8], SHAPE_REACH as int) && polys[8].len() >= 3);
}

/// Every face of `ramp_inner_corner` is flat: all its corners lie in the plane of the first three.
pub proof fn lemma_ramp_inner_corner_is_flat(size: UVec3)
    ensures
        polys_planar(spec_ramp_inner_corner(size)),
{
    let polys = spec_ramp_inner_corner(size);
    let x = size.x as int;
    let y = size.y as int;
    let z = size.z as int;
    assert(poly_planar(polys[0])) by {
        let f = polys[0];
        lemma_first_corners_in_plane(f[0], f[1], f[2]);
        assert(out_of_plane(f[0], f[1], f[2], f[3]) == 0) by (nonlinear_arith)
            requires
                f[0].x == -x,
                f[0].y == y,
                f[0].z == z,
                f[1].x == -x,
                f[1].y == y,
                f[1].z == -z,
                f[2].x == -x + 10,
                f[2].y == y,
                f[2].z == -z,
                f[3].x == -x + 10,
                f[3].y == y,
                f[3].z == z,
        ;
    }
    assert(poly_planar(polys[1])) by {
        let f = polys[1];
        lemma_first_corners_in_plane(f[0], f[1], f[2]);
        assert(out_of_plane(f[0], f[1], f[2], f[3]) == 0) by (nonlinear_arith)
            requires
                f[0].x == -x + 10,
                f[0].y == y,
                f[0].z == -z,
                f[1].x == x,
                f[1].y == y,
                f[1].z == -z,
                f[2].x == x,
                f[2].y == y,
                f[2].z == -z + 10,
                f[3].x == -x + 10,
                f[3].y == y,
                f[3].z == -z + 10,
        ;
    }
    assert(poly_planar(polys[2])) by {
        let f = polys[2];
        lemma_first_corners_in_plane(f[0], f[1], f[2]);
    }
    assert(poly_planar(polys[3])) by {
        let f = polys[3];
        lemma_first_corners_in_plane(f[0], f[1], f[2]);
    }
    assert(poly_planar(polys[4])) by {
        let f = polys[4];
        lemma_first_corners_in_plane(f[0], f[1], f[2]);
        assert(out_of_plane(f[0], f[1], f[2], f[3]) == 0) by (nonlinear_arith)
            requires
                f[0].x == -x,
                f[0].y == y,
                f[0].z == z,
                f[1].x == -x + 10,
                f[1].y == y,
                f[1].z == z,
                f[2].x == x,
                f[2].y == -y + 2,
                f[2].z == z,
                f[3].x == x,
                f[3].y == -y,
                f[3].z == z,
        ;
        assert(out_of_plane(f[0], f[1], f[2], f[4]) == 0) by (nonlinear_arith)
            requires
                f[0].x == -x,
                f[0].y == y,
                f[0].z == z,
                f[1].x == -x + 10,
                f[1].y == y,
                f[1].z == z,
                f[2].x == x,
                f[2].y == -y + 2,
                f[2].z == z,
                f[4].x == -x,
                f[4].y == -y,
                f[4].z == z,
        ;
    }
    assert(poly_planar(polys[5])) by {
        let f = polys[5];
        lemma_first_corners_in_plane(f[0], f[1], f[2]);
        assert(out_of_plane(f[0], f[1], f[2], f[3]) == 0) by (nonlinear_arith)
            requires
                f[0].x == x,
                f[0].y == y,
                f[0].z == -z + 10,
                f[1].x == x,
                f[1].y == y,
                f[1].z == -z,
                f[2].x == x,
                f[2].y == -y,
                f[2].z == -z,
                f[3].x == x,
                f[3].y == -y,
                f[3].z == z,
        ;
        assert(out_of_plane(f[0], f[1], f[2], f[4]) == 0) by (nonlinear_arith)
            requires
                f[0].x == x,
                f[0].y == y,
                f[0].z == -z + 10,
                f[1].x == x,
                f[1].y == y,
                f[1].z == -z,
                f[2].x == x,
                f[2].y == -y,
                f[2].z == -z,
                f[4].x == x,
                f[4].y == -y + 2,
                f[4].z == z,
        ;
    }
    assert(poly_planar(polys[6])) by {
        let f = polys[6];
        lemma_first_corners_in_plane(f[0], f[1], f[2]);
        assert(out_of_plane(f[0], f[1], f[2], f[3]) == 0) by (nonlinear_arith)
            requires
                f[0].x == -x,
                f[0].y == y,
                f[0].z == -z,
                f[1].x == -x,
                f[1].y == y,
                f[1].z == z,
                f[2].x == -x,
                f[2].y == -y,
                f[2].z == z,
                f[3].x == -x,
                f[3].y == -y,
                f[3].z == -z,
        ;
    }
    assert(poly_planar(polys[7])) by {
        let f = polys[7];
        lemma_first_corners_in_plane(f[0], f[1], f[2]);
        assert(out_of_plane(f[0], f[1], f[2], f[3]) == 0) by (nonlinear_arith)
            requires
                f[0].x == x,
                f[0].y == y,
                f[0].z == -z,
                f[1].x == -x,
                f[1].y == y,
                f[1].z == -z,
                f[2].x == -x,
                f[2].y == -y,
                f[2].z == -z,
                f[3].x == x,
                f[3].y == -y,
                f[3].z == -z,
        ;
    }
    assert(poly_planar(polys[8])) by {
        let f = polys[8];
        lemma_first_corners_in_plane(f[0], f[1], f[2]);
        assert(out_of_plane(f[0], f[1], f[2], f[3]) == 0) by (nonlinear_arith)
            requires
                f[0].x == -x,
                f[0].y == -y,
                f[0].z == z,
                f[1].x == x,
                f[1].y == -y,
                f[1].z == z,
                f[2].x == x,
                f[2].y == -y,
                f[2].z == -z,
                f[3].x == -x,
                f[3].y == -y,
                f[3].z == -z,
        ;
    }
}

/// The polygons of `ramp_crest`, each from its first corner clockwise as seen from outside.
pub open spec fn spec_ramp_crest(size: UVec3) -> Seq<Seq<I64Vec3>> {
    let p = spec_corners(size);
    seq![
        seq![p.i, spec_twoy(p.h), p.h, p.e, spec_twoy(p.e)],
        seq![spec_twoy(p.f), spec_twoy(p.e), p.e, p.f],
        seq![spec_twoy(p.h), spec_twoy(p.g), p.g, p.h],
        seq![p.j, p.i, spec_twoy(p.e), spec_twoy(p.f)],
        seq![p.i, p.j, spec_twoy(p.g), spec_twoy(p.h)],
        seq![p.j, spec_twoy(p.f), p.f, p.g, spec_twoy(p.g)],
        seq![p.e, p.h, p.g, p.f],
    ]
}

/// The crest of a ramp: a ridge along Z with a slope down either side to lips two units high.
pub fn ramp_crest(size: UVec3) -> (faces: Vec<Face>)
    ensures
        fresh_faces(faces@, spec_ramp_crest(size)),
        polys_within(spec_ramp_crest(size), SHAPE_REACH as int),
        polys_proper(spec_ramp_crest(size)),
{
    let p = corners(size);
    let faces = vec![
        Face::new(vec![p.i, twoy(p.h), p.h, p.e, twoy(p.e)]),
        Face::new(vec![twoy(p.f), twoy(p.e), p.e, p.f]),
        Face::new(vec![twoy(p.h), twoy(p.g), p.g, p.h]),
        Face::new(vec![p.j, p.i, twoy(p.e), twoy(p.f)]),
        Face::new(vec![p.i, p.j, twoy(p.g), twoy(p.h)]),
        Face::new(vec![p.j, twoy(p.f), p.f, p.g, twoy(p.g)]),
        Face::new(vec![p.e, p.h, p.g, p.f]),
    ];
    proof {
        let polys = spec_ramp_crest(size);
        lemma_ramp_crest_reach(size);
        assert(faces@[0]@.verts =~= polys[0]);
        assert(faces@[1]@.verts =~= polys[1]);
        assert(faces@[2]@.verts =~= polys[2]);
        assert(faces@[3]@.verts =~= polys[3]);
        assert(faces@[4]@.verts =~= polys[4]);
        assert(faces@[5]@.verts =~= polys[5]);
        assert(faces@[6]@.verts =~= polys[6]);
    }
    faces
}

/// Every face of `ramp_crest` has three corners or more, none further from the centre than a shape reaches.
pub proof fn lemma_ramp_crest_reach(size: UVec3)
    ensures
        polys_within(spec_ramp_crest(size), SHAPE_REACH as int),
        polys_proper(spec_ramp_crest(size)),
{
    let polys = spec_ramp_crest(size);
    assert(poly_within(polys[0], SHAPE_REACH as int) && polys[0].len() >= 3);
    assert(poly_within(polys[1], SHAPE_REACH as int) && polys[1].len() >= 3);
    assert(poly_within(polys[2], SHAPE_REACH as int) && polys[2].len() >= 3);
    assert(poly_within(polys[3], SHAPE_REACH as int) && polys[3].len() >= 3);
    assert(poly_within(polys[4], SHAPE_REACH as int) && polys[4].len() >= 3);
    assert(poly_within(polys[5], SHAPE_REACH as int) && polys[5].len() >= 3);
    assert(poly_within(polys[6], SHAPE_REACH as int) && polys[6].len() >= 3);
}

/// Every face of `ramp_crest` is flat: all its corners lie in the plane of the first three.
pub proof fn lemma_ramp_crest_is_flat(size: UVec3)
    ensures
        polys_planar(spec_ramp_crest(size)),
{
    let polys = spec_ramp_crest(size);
    let x = size.x as int;
    let y = size.y as int;
    let z = size.z as int;
    assert(poly_planar(polys[0])) by {
        let f = polys[0];
        lemma_first_corners_in_plane(f[0], f[1], f[2]);
        assert(out_of_plane(f[0], f[1], f[2], f[3]) == 0) by (nonlinear_arith)
            requires
                f[0].x == 0,
                f[0].y == y,
                f[0].z == z,
                f[1].x == x,
                f[1].y == -y + 2,
                f[1].z == z,
                f[2].x == x,
                f[2].y == -y,
                f[2].z == z,
                f[3].x == -x,
                f[3].y == -y,
                f[3].z == z,
        ;
        assert(out_of_plane(f[0], f[1], f[2], f[4]) == 0) by (nonlinear_arith)
            requires
                f[0].x == 0,
                f[0].y == y,
                f[0].z == z,
                f[1].x == x,
                f[1].y == -y + 2,
                f[1].z == z,
                f[2].x == x,
                f[2].y == -y,
                f[2].z == z,
                f[4].x == -x,
                f[4].y == -y + 2,
                f[4].z == z,
        ;
    }
    assert(poly_planar(polys[1])) by {
        let f = polys[1];
        lemma_first_corners_in_plane(f[0], f[1], f[2]);
        assert(out_of_plane(f[0], f[1], f[2], f[3]) == 0) by (nonlinear_arith)
            requires
                f[0].x == -x,
                f[0].y == -y + 2,
                f[0].z == -z,
                f[1].x == -x,
                f[1].y == -y + 2,
                f[1].z == z,
                f[2].x == -x,
                f[2].y == -y,
                f[2].z == z,
                f[3].x == -x,
                f[3].y == -y,
                f[3].z == -z,
        ;
    }
    assert(poly_planar(polys[2])) by {
        let f = polys[2];
        lemma_first_corners_in_plane(f[0], f[1], f[2]);
        assert(out_of_plane(f[0], f[1], f[2], f[3]) == 0) by (nonlinear_arith)
            requires
                f[0].x == x,
                f[0].y == -y + 2,
                f[0].z == z,
                f[1].x == x,
                f[1].y == -y + 2,
                f[1].z == -z,
                f[2].x == x,
                f[2].y == -y,
                f[2].z == -z,
                f[3].x == x,
                f[3].y == -y,
                f[3].z == z,
        ;
    }
    assert(poly_planar(polys[3])) by {
        let f = polys[3];
        lemma_first_corners_in_plane(f[0], f[1], f[2]);
        assert(out_of_plane(f[0], f[1], f[2], f[3]) == 0) by (nonlinear_arith)
            requires
                f[0].x == 0,
                f[0].y == y,
                f[0].z == -z,
                f[1].x == 0,
                f[1].y == y,
                f[1].z == z,
                f[2].x == -x,
                f[2].y == -y + 2,
                f[2].z == z,
                f[3].x == -x,
                f[3].y == -y + 2,
                f[3].z == -z,
        ;
    }
    assert(poly_planar(polys[4])) by {
        let f = polys[4];
        lemma_first_corners_in_plane(f[0], f[1], f[2]);
        assert(out_of_plane(f[0], f[1], f[2], f[3]) == 0) by (nonlinear_arith)
            requires
                f[0].x == 0,
                f[0].y == y,
                f[0].z == z,
                f[1].x == 0,
                f[1].y == y,
                f[1].z == -z,
                f[2].x == x,
                f[2].y == -y + 2,
                f[2].z == -z,
                f[3].x == x,
                f[3].y == -y + 2,
                f[3].z == z,
        ;
    }
    assert(poly_planar(polys[5])) by {
        let f = polys[5];
        lemma_first_corners_in_plane(f[0], f[1], f[2]);
        assert(out_of_plane(f[0], f[1], f[2], f[3]) == 0) by (nonlinear_arith)
            requires
                f[0].x == 0,
                f[0].y == y,
                f[0].z == -z,
                f[1].x == -x,
                f[1].y == -y + 2,
                f[1].z == -z,
                f[2].x == -x,
                f[2].y == -y,
                f[2].z == -z,
                f[3].x == x,
                f[3].y == -y,
                f[3].z == -z,
        ;
        assert(out_of_plane(f[0], f[1], f[2], f[4]) == 0) by (nonlinear_arith)
            requires
                f[0].x == 0,
                f[0].y == y,
                f[0].z == -z,
                f[1].x == -x,
                f[1].y == -y + 2,
                f[1].z == -z,
                f[2].x == -x,
                f[2].y == -y,
                f[2].z == -z,
                f[4].x == x,
                f[4].y == -y + 2,
                f[4].z == -z,
        ;
    }
    assert(poly_planar(polys[6])) by {
        let f = polys[6];
        lemma_first_corners_in_plane(f[0], f[1], f[2]);
        assert(out_of_plane(f[0], f[1], f[2], f[3]) == 0) by (nonlinear_arith)
            requires
                f[0].x == -x,
                f[0].y == -y,
                f[0].z == z,
                f[1].x == x,
                f[1].y == -y,
                f[1].z == z,
                f[2].x == x,
                f[2].y == -y,
                f[2].z == -z,
                f[3].x == -x,
                f[3].y == -y,
                f[3].z == -z,
        ;
    }
}

/// The polygons of `ramp_corner`, each from its first corner clockwise as seen from outside.
pub open spec fn spec_ramp_corner(size: UVec3) -> Seq<Seq<I64Vec3>> {
    let p = spec_corners(size);
    seq![
        seq![p.b, spec_tenx(p.b), spec_tenz(spec_tenx(p.b)), spec_tenz(p.b)],
        seq![spec_tenz(p.b), spec_tenz(spec_tenx(p.b)), spec_twoy(p.h), spec_twoy(p.e)],
        seq![spec_tenz(spec_tenx(p.b)), spec_tenx(p.b), spec_twoy(p.g), spec_twoy(p.h)],
        seq![spec_twoy(p.e), spec_twoy(p.h), p.h, p.e],
        seq![spec_twoy(p.h), spec_twoy(p.g), p.g, p.h],
        seq![p.b, spec_tenz(p.b), spec_twoy(p.e), p.e, p.f],
        seq![spec_tenx(p.b), p.b, p.f, p.g, spec_twoy(p.g)],
        seq![p.e, p.h, p.g, p.f],
    ]
}

/// The outer corner where two ramps meet: a small flat top with slopes down two sides.
pub fn ramp_corner(size: UVec3) -> (faces: Vec<Face>)
    ensures
        fresh_faces(faces@, spec_ramp_corner(size)),
        polys_within(spec_ramp_corner(size), SHAPE_REACH as int),
        polys_proper(spec_ramp_corner(size)),
{
    let p = corners(size);
    let faces = vec![
        Face::new(vec![p.b, tenx(p.b), tenz(tenx(p.b)), tenz(p.b)]),
        Face::new(vec![tenz(p.b), tenz(tenx(p.b)), twoy(p.h), twoy(p.e)]),
        Face::new(vec![tenz(tenx(p.b)), tenx(p.b), twoy(p.g), twoy(p.h)]),
        Face::new(vec![twoy(p.e), twoy(p.h), p.h, p.e]),
        Face::new(vec![twoy(p.h), twoy(p.g), p.g, p.h]),
        Face::new(vec![p.b, tenz(p.b), twoy(p.e), p.e, p.f]),
        Face::new(vec![tenx(p.b), p.b, p.f, p.g, twoy(p.g)]),
        Face::new(vec![p.e, p.h, p.g, p.f]),
    ];
    proof {
        let polys = spec_ramp_corner(size);
        lemma_ramp_corner_reach(size);
        assert(faces@[0]@.verts =~= polys[0]);
        assert(faces@[1]@.verts =~= polys[1]);
        assert(faces@[2]@.verts =~= polys[2]);
        assert(faces@[3]@.verts =~= polys[3]);
        assert(faces@[4]@.verts =~= polys[4]);
        assert(faces@[5]@.verts =~= polys[5]);
        assert(faces@[6]@.verts =~= polys[6]);
        assert(faces@[7]@.verts =~= polys[7]);
    }
    faces
}

/// Every face of `ramp_corner` has three corners or more, none further from the centre than a shape reaches.
pub proof fn lemma_ramp_corner_reach(size: UVec3)
    ensures
        polys_within(spec_ramp_corner(size), SHAPE_REACH as int),
        polys_proper(spec_ramp_corner(size)),
{
    let polys = spec_ramp_corner(size);
    assert(poly_within(polys[0], SHAPE_REACH as int) && polys[0].len() >= 3);
    assert(poly_within(polys[1], SHAPE_REACH as int) && polys[1].len() >= 3);
    assert(poly_within(polys[2], SHAPE_REACH as int) && polys[2].len() >= 3);
    assert(poly_within(polys[3], SHAPE_REACH as int) && polys[3].len() >= 3);
    assert(poly_within(polys[4], SHAPE_REACH as int) && polys[4].len() >= 3);
    assert(poly_within(polys[5], SHAPE_REACH as int) && polys[5].len() >= 3);
    assert(poly_within(polys[6], SHAPE_REACH as int) && polys[6].len() >= 3);
    assert(poly_within(polys[7], SHAPE_REACH as int) && polys[7].len() >= 3);
}

/// Every face of `ramp_corner` is flat: all its corners lie in the plane of the first three.
pub proof fn lemma_ramp_corner_is_flat(size: UVec3)
    ensures
        polys_planar(spec_ramp_corner(size)),
{
    let polys = spec_ramp_corner(size);
    let x = size.x as int;
    let y = size.y as int;
    let z = size.z as int;
    assert(poly_planar(polys[0])) by {
        let f = polys[0];
        lemma_first_corners_in_plane(f[0], f[1], f[2]);
        assert(out_of_plane(f[0], f[1], f[2], f[3]) == 0) by (nonlinear_arith)
            requires
                f[0].x == -x,
                f[0].y == y,
                f[0].z == -z,
                f[1].x == -x + 10,
                f[1].y == y,
                f[1].z == -z,
                f[2].x == -x + 10,
                f[2].y == y,
                f[2].z == -z + 10,
                f[3].x == -x,
                f[3].y == y,
                f[3].z == -z + 10,
        ;
    }
    assert(poly_planar(polys[1])) by {
        let f = polys[1];
        lemma_first_corners_in_plane(f[0], f[1], f[2]);
        assert(out_of_plane(f[0], f[1], f[2], f[3]) == 0) by (nonlinear_arith)
            requires
                f[0].x == -x,
                f[0].y == y,
                f[0].z == -z + 10,
                f[1].x == -x + 10,
                f[1].y == y,
                f[1].z == -z + 10,
                f[2].x == x,
                f[2].y == -y + 2,
                f[2].z == z,
                f[3].x == -x,
                f[3].y == -y + 2,
                f[3].z == z,
        ;
    }
    assert(poly_planar(polys[2])) by {
        let f = polys[2];
        lemma_first_corners_in_plane(f[0], f[1], f[2]);
        assert(out_of_plane(f[0], f[1], f[2], f[3]) == 0) by (nonlinear_arith)
            requires
                f[0].x == -x + 10,
                f[0].y == y,
                f[0].z == -z + 10,
                f[1].x == -x + 10,
                f[1].y == y,
                f[1].z == -z,
                f[2].x == x,
                f[2].y == -y + 2,
                f[2].z == -z,
                f[3].x == x,
                f[3].y == -y + 2,
                f[3].z == z,
        ;
    }
    assert(poly_planar(polys[3])) by {
        let f = polys[3];
        lemma_first_corners_in_plane(f[0], f[1], f[2]);
        assert(out_of_plane(f[0], f[1], f[2], f[3]) == 0) by (nonlinear_arith)
            requires
                f[0].x == -x,
                f[0].y == -y + 2,
                f[0].z == z,
                f[1].x == x,
                f[1].y == -y + 2,
                f[1].z == z,
                f[2].x == x,
                f[2].y == -y,
                f[2].z == z,
                f[3].x == -x,
                f[3].y == -y,
                f[3].z == z,
        ;
    }
    assert(poly_planar(polys[4])) by {
        let f = polys[4];
        lemma_first_corners_in_plane(f[0], f[1], f[2]);
        assert(out_of_plane(f[0], f[1], f[2], f[3]) == 0) by (nonlinear_arith)
            requires
                f[0].x == x,
                f[0].y == -y + 2,
                f[0].z == z,
                f[1].x == x,
                f[1].y == -y + 2,
                f[1].z == -z,
                f[2].x == x,
                f[2].y == -y,
                f[2].z == -z,
                f[3].x == x,
                f[3].y == -y,
                f[3].z == z,
        ;
    }
    assert(poly_planar(polys[5])) by {
        let f = polys[5];
        lemma_first_corners_in_plane(f[0], f[1], f[2]);
        assert(out_of_plane(f[0], f[1], f[2], f[3]) == 0) by (nonlinear_arith)
            requires
                f[0].x == -x,
                f[0].y == y,
                f[0].z == -z,
                f[1].x == -x,
                f[1].y == y,
                f[1].z == -z + 10,
                f[2].x == -x,
                f[2].y == -y + 2,
                f[2].z == z,
                f[3].x == -x,
                f[3].y == -y,
                f[3].z == z,
        ;
        assert(out_of_plane(f[0], f[1], f[2], f[4]) == 0) by (nonlinear_arith)
            requires
                f[0].x == -x,
                f[0].y == y,
                f[0].z == -z,
                f[1].x == -x,
                f[1].y == y,
                f[1].z == -z + 10,
                f[2].x == -x,
                f[2].y == -y + 2,
                f[2].z == z,
                f[4].x == -x,
                f[4].y == -y,
                f[4].z == -z,
        ;
    }
    assert(poly_planar(polys[6])) by {
        let f = polys[6];
        lemma_first_corners_in_plane(f[0], f[1], f[2]);
        assert(out_of_plane(f[0], f[1], f[2], f[3]) == 0) by (nonlinear_arith)
            requires
                f[0].x == -x + 10,
                f[0].y == y,
                f[0].z == -z,
                f[1].x == -x,
                f[1].y == y,
                f[1].z == -z,
                f[2].x == -x,
                f[2].y == -y,
                f[2].z == -z,
                f[3].x == x,
                f[3].y == -y,
                f[3].z == -z,
        ;
        assert(out_of_plane(f[0], f[1], f[2], f[4]) == 0) by (nonlinear_arith)
            requires
                f[0].x == -x + 10,
                f[0].y == y,
                f[0].z == -z,
                f[1].x == -x,
                f[1].y == y,
                f[1].z == -z,
                f[2].x == -x,
                f[2].y == -y,
                f[2].z == -z,
                f[4].x == x,
                f[4].y == -y + 2,
                f[4].z == -z,
        ;
    }
    assert(poly_planar(polys[7])) by {
        let f = polys[7];
        lemma_first_corners_in_plane(f[0], f[1], f[2]);
        assert(out_of_plane(f[0], f[1], f[2], f[3]) == 0) by (nonlinear_arith)
            requires
                f[0].x == -x,
                f[0].y == -y,
                f[0].z == z,
                f[1].x == x,
                f[1].y == -y,
                f[1].z == z,
                f[2].x == x,
                f[2].y == -y,
                f[2].z == -z,
                f[3].x == -x,
                f[3].y == -y,
                f[3].z == -z,
        ;
    }
}

/// The polygons of `microwedge_inner_corner`, each from its first corner clockwise as seen from outside.
pub open spec fn spec_microwedge_inner_corner(size: UVec3) -> Seq<Seq<I64Vec3>> {
    let p = spec_corners(size);
    seq![
        seq![p.b, p.h, p.a],
        seq![p.b, p.c, p.h],
        seq![p.a, p.h, p.e],
        seq![p.b, p.a, p.e, p.f],
        seq![p.c, p.g, p.h],
        seq![p.c, p.b, p.f, p.g],
        seq![p.e, p.h, p.g, p.f],
    ]
}

/// A micro-wedge inner corner: a box with one top corner cut down to the base.
pub fn microwedge_inner_corner(size: UVec3) -> (faces: Vec<Face>)
    ensures
        fresh_faces(faces@, spec_microwedge_inner_corner(size)),
        polys_within(spec_microwedge_inner_corner(size), SHAPE_REACH as int),
        polys_proper(spec_microwedge_inner_corner(size)),
{
    let p = corners(size);
    let faces = vec![
        Face::new(vec![p.b, p.h, p.a]),
        Face::new(vec![p.b, p.c, p.h]),
        Face::new(vec![p.a, p.h, p.e]),
        Face::new(vec![p.b, p.a, p.e, p.f]),
        Face::new(vec![p.c, p.g, p.h]),
        Face::new(vec![p.c, p.b, p.f, p.g]),
        Face::new(vec![p.e, p.h, p.g, p.f]),
    ];
    proof {
        let polys = spec_microwedge_inner_corner(size);
        lemma_microwedge_inner_corner_reach(size);
        assert(faces@[0]@.verts =~= polys[0]);
        assert(faces@[1]@.verts =~= polys[1]);
        assert(faces@[2]@.verts =~= polys[2]);
        assert(faces@[3]@.verts =~= polys[3]);
        assert(faces@[4]@.verts =~= polys[4]);
        assert(faces@[5]@.verts =~= polys[5]);
        assert(faces@[6]@.verts =~= polys[6]);
    }
    faces
}

/// Every face of `microwedge_inner_corner` has three corners or more, none further from the centre than a shape reaches.
pub proof fn lemma_microwedge_inner_corner_reach(size: UVec3)
    ensures
        polys_within(spec_microwedge_inner_corner(size), SHAPE_REACH as int),
        polys_proper(spec_microwedge_inner_corner(size)),
{
    let polys = spec_microwedge_inner_corner(size);
    assert(poly_within(polys[0], SHAPE_REACH as int) && polys[0].len() >= 3);
    assert(poly_within(polys[1], SHAPE_REACH as int) && polys[1].len() >= 3);
    assert(poly_within(polys[2], SHAPE_REACH as int) && polys[2].len() >= 3);
    assert(poly_within(polys[3], SHAPE_REACH as int) && polys[3].len() >= 3);
    assert(poly_within(polys[4], SHAPE_REACH as int) && polys[4].len() >= 3);
    assert(poly_within(polys[5], SHAPE_REACH as int) && polys[5].len() >= 3);
    assert(poly_within(polys[6], SHAPE_REACH as int) && polys[6].len() >= 3);
}

/// Every face of `microwedge_inner_corner` is flat: all its corners lie in the plane of the first three.
pub proof fn lemma_microwedge_inner_corner_is_flat(size: UVec3)
    ensures
        polys_planar(spec_microwedge_inner_corner(size)),
{
    let polys = spec_microwedge_inner_corner(size);
    let x = size.x as int;
    let y = size.y as int;
    let z = size.z as int;
    assert(poly_planar(polys[0])) by {
        let f = polys[0];
        lemma_first_corners_in_plane(f[0], f[1], f[2]);
    }
    assert(poly_planar(polys[1])) by {
        let f = polys[1];
        lemma_first_corners_in_plane(f[0], f[1], f[2]);
    }
    assert(poly_planar(polys[2])) by {
        let f = polys[2];
        lemma_first_corners_in_plane(f[0], f[1], f[2]);
    }
    assert(poly_planar(polys[3])) by {
        let f = polys[3];
        lemma_first_corners_in_plane(f[0], f[1], f[2]);
        assert(out_of_plane(f[0], f[1], f[2], f[3]) == 0) by (nonlinear_arith)
            requires
                f[0].x == -x,
                f[0].y == y,
                f[0].z == -z,
                f[1].x == -x,
                f[1].y == y,
                f[1].z == z,
                f[2].x == -x,
                f[2].y == -y,
                f[2].z == z,
                f[3].x == -x,
                f[3].y == -y,
                f[3].z == -z,
        ;
    }
    assert(poly_planar(polys[4])) by {
        let f = polys[4];
        lemma_first_corners_in_plane(f[0], f[1], f[2]);
    }
    assert(poly_planar(polys[5])) by {
        let f = polys[5];
        lemma_first_corners_in_plane(f[0], f[1], f[2]);
        assert(out_of_plane(f[0], f[1], f[2], f[3]) == 0) by (nonlinear_arith)
            requires
                f[0].x == x,
                f[0].y == y,
                f[0].z == -z,
                f[1].x == -x,
                f[1].y == y,
                f[1].z == -z,
                f[2].x == -x,
                f[2].y == -y,
                f[2].z == -z,
                f[3].x == x,
                f[3].y == -y,
                f[3].z == -z,
        ;
    }
    assert(poly_planar(polys[6])) by {
        let f = polys[6];
        lemma_first_corners_in_plane(f[0], f[1], f[2]);
        assert(out_of_plane(f[0], f[1], f[2], f[3]) == 0) by (nonlinear_arith)
            requires
                f[0].x == -x,
                f[0].y == -y,
                f[0].z == z,
                f[1].x == x,
                f[1].y == -y,
                f[1].z == z,
                f[2].x == x,
                f[2].y == -y,
                f[2].z == -z,
                f[3].x == -x,
                f[3].y == -y,
                f[3].z == -z,
        ;
    }
}

/// The polygons of `microwedge_corner`, each from its first corner clockwise as seen from outside.
pub open spec fn spec_microwedge_corner(size: UVec3) -> Seq<Seq<I64Vec3>> {
    let p = spec_corners(size);
    seq![
        seq![p.b, p.h, p.e],
        seq![p.b, p.g, p.h],
        seq![p.b, p.e, p.f],
        seq![p.b, p.f, p.g],
        seq![p.e, p.h, p.g, p.f],
    ]
}

/// A micro-wedge corner: a pyramid with its apex above one base corner.
pub fn microwedge_corner(size: UVec3) -> (faces: Vec<Face>)
    ensures
        fresh_faces(faces@, spec_microwedge_corner(size)),
        polys_within(spec_microwedge_corner(size), SHAPE_REACH as int),
        polys_proper(spec_microwedge_corner(size)),
{
    let p = corners(size);
    let faces = vec![
        Face::new(vec![p.b, p.h, p.e]),
        Face::new(vec![p.b, p.g, p.h]),
        Face::new(vec![p.b, p.e, p.f]),
        Face::new(vec![p.b, p.f, p.g]),
        Face::new(vec![p.e, p.h, p.g, p.f]),
    ];
    proof {
        let polys = spec_microwedge_corner(size);
        lemma_microwedge_corner_reach(size);
        assert(faces@[0]@.verts =~= polys[0]);
        assert(faces@[1]@.verts =~= polys[1]);
        assert(faces@[2]@.verts =~= polys[2]);
        assert(faces@[3]@.verts =~= polys[3]);
        assert(faces@[4]@.verts =~= polys[4]);
    }
    faces
}

/// Every face of `microwedge_corner` has three corners or more, none further from the centre than a shape reaches.
pub proof fn lemma_microwedge_corner_reach(size: UVec3)
    ensures
        polys_within(spec_microwedge_corner(size), SHAPE_REACH as int),
        polys_proper(spec_microwedge_corner(size)),
{
    let polys = spec_microwedge_corner(size);
    assert(poly_within(polys[0], SHAPE_REACH as int) && polys[0].len() >= 3);
    assert(poly_within(polys[1], SHAPE_REACH as int) && polys[1].len() >= 3);
    assert(poly_within(polys[2], SHAPE_REACH as int) && polys[2].len() >= 3);
    assert(poly_within(polys[3], SHAPE_REACH as int) && polys[3].len() >= 3);
    assert(poly_within(polys[4], SHAPE_REACH as int) && polys[4].len() >= 3);
}

/// Every face of `microwedge_corner` is flat: all its corners lie in the plane of the first three.
pub proof fn lemma_microwedge_corner_is_flat(size: UVec3)
    ensures
        polys_planar(spec_microwedge_corner(size)),
{
    let polys = spec_microwedge_corner(size);
    let x = size.x as int;
    let y = size.y as int;
    let z = size.z as int;
    assert(poly_planar(polys[0])) by {
        let f = polys[0];
        lemma_first_corners_in_plane(f[0], f[1], f[2]);
    }
    assert(poly_planar(polys[1])) by {
        let f = polys[1];
        lemma_first_corners_in_plane(f[0], f[1], f[2]);
    }
    assert(poly_planar(polys[2])) by {
        let f = polys[2];
        lemma_first_corners_in_plane(f[0], f[1], f[2]);
    }
    assert(poly_planar(polys[3])) by {
        let f = polys[3];
        lemma_first_corners_in_plane(f[0], f[1], f[2]);
    }
    assert(poly_planar(polys[4])) by {
        let f = polys[4];
        lemma_first_corners_in_plane(f[0], f[1], f[2]);
        assert(out_of_plane(f[0], f[1], f[2], f[3]) == 0) by (nonlinear_arith)
            requires
                f[0].x == -x,
                f[0].y == -y,
                f[0].z == z,
                f[1].x == x,
                f[1].y == -y,
                f[1].z == z,
                f[2].x == x,
                f[2].y == -y,
                f[2].z == -z,
                f[3].x == -x,
                f[3].y == -y,
                f[3].z == -z,
        ;
    }
}

/// The polygons of `microwedge_half_outer_corner`, each from its first corner clockwise as seen from outside.
pub open spec fn spec_microwedge_half_outer_corner(size: UVec3) -> Seq<Seq<I64Vec3>> {
    let p = spec_corners(size);
    seq![
        seq![p.a, p.c, p.g, p.e],
        seq![p.c, p.a, p.f],
        seq![p.a, p.e, p.f],
        seq![p.c, p.f, p.g],
        seq![p.e, p.g, p.f],
    ]
}

/// A half outer corner: a slope from one top edge diagonal down to the opposite base corner.
pub fn microwedge_half_outer_corner(size: UVec3) -> (faces: Vec<Face>)
    ensures
        fresh_faces(faces@, spec_microwedge_half_outer_corner(size)),
        polys_within(spec_microwedge_half_outer_corner(size), SHAPE_REACH as int),
        polys_proper(spec_microwedge_half_outer_corner(size)),
{
    let p = corners(size);
    let faces = vec![
        Face::new(vec![p.a, p.c, p.g, p.e]),
        Face::new(vec![p.c, p.a, p.f]),
        Face::new(vec![p.a, p.e, p.f]),
        Face::new(vec![p.c, p.f, p.g]),
        Face::new(vec![p.e, p.g, p.f]),
    ];
    proof {
        let polys = spec_microwedge_half_outer_corner(size);
        lemma_microwedge_half_outer_corner_reach(size);
        assert(faces@[0]@.verts =~= polys[0]);
        assert(faces@[1]@.verts =~= polys[1]);
        assert(faces@[2]@.verts =~= polys[2]);
        assert(faces@[3]@.verts =~= polys[3]);
        assert(faces@[4]@.verts =~= polys[4]);
    }
    faces
}

/// Every face of `microwedge_half_outer_corner` has three corners or more, none further from the centre than a shape reaches.
pub proof fn lemma_microwedge_half_outer_corner_reach(size: UVec3)
    ensures
        polys_within(spec_microwedge_half_outer_corner(size), SHAPE_REACH as int),
        polys_proper(spec_microwedge_half_outer_corner(size)),
{
    let polys = spec_microwedge_half_outer_corner(size);
    assert(poly_within(polys[0], SHAPE_REACH as int) && polys[0].len() >= 3);
    assert(poly_within(polys[1], SHAPE_REACH as int) && polys[1].len() >= 3);
    assert(poly_within(polys[2], SHAPE_REACH as int) && polys[2].len() >= 3);
    assert(poly_within(polys[3], SHAPE_REACH as int) && polys[3].len() >= 3);
    assert(poly_within(polys[4], SHAPE_REACH as int) && polys[4].len() >= 3);
}

/// Every face of `microwedge_half_outer_corner` is flat: all its corners lie in the plane of the first three.
pub proof fn lemma_microwedge_half_outer_corner_is_flat(size: UVec3)
    ensures
        polys_planar(spec_microwedge_half_outer_corner(size)),
{
    let polys = spec_microwedge_half_outer_corner(size);
    let x = size.x as int;
    let y = size.y as int;
    let z = size.z as int;
    assert(poly_planar(polys[0])) by {
        let f = polys[0];
        lemma_first_corners_in_plane(f[0], f[1], f[2]);
        assert(out_of_plane(f[0], f[1], f[2], f[3]) == 0) by (nonlinear_arith)
            requires
                f[0].x == -x,
                f[0].y == y,
                f[0].z == z,
                f[1].x == x,
                f[1].y == y,
                f[1].z == -z,
                f[2].x == x,
                f[2].y == -y,
                f[2].z == -z,
                f[3].x == -x,
                f[3].y == -y,
                f[3].z == z,
        ;
    }
    assert(poly_planar(polys[1])) by {
        let f = polys[1];
        lemma_first_corners_in_plane(f[0], f[1], f[2]);
    }
    assert(poly_planar(polys[2])) by {
        let f = polys[2];
        lemma_first_corners_in_plane(f[0], f[1], f[2]);
    }
    assert(poly_planar(polys[3])) by {
        let f = polys[3];
        lemma_first_corners_in_plane(f[0], f[1], f[2]);
    }
    assert(poly_planar(polys[4])) by {
        let f = polys[4];
        lemma_first_corners_in_plane(f[0], f[1], f[2]);
    }
}

/// The polygons of `microwedge_half_inner_corner_inverted`, each from its first corner clockwise as seen from outside.
pub open spec fn spec_microwedge_half_inner_corner_inverted(size: UVec3) -> Seq<Seq<I64Vec3>> {
    let p = spec_corners(size);
    seq![
        seq![p.c, p.e, p.f],
        seq![p.c, p.g, p.e],
        seq![p.c, p.f, p.g],
        seq![p.e, p.g, p.f],
    ]
}

/// An inverted half inner corner: a tetrahedron with its apex above one base corner.
pub fn microwedge_half_inner_corner_inverted(size: UVec3) -> (faces: Vec<Face>)
    ensures
        fresh_faces(faces@, spec_microwedge_half_inner_corner_inverted(size)),
        polys_within(spec_microwedge_half_inner_corner_inverted(size), SHAPE_REACH as int),
        polys_proper(spec_microwedge_half_inner_corner_inverted(size)),
{
    let p = corners(size);
    let faces = vec![
        Face::new(vec![p.c, p.e, p.f]),
        Face::new(vec![p.c, p.g, p.e]),
        Face::new(vec![p.c, p.f, p.g]),
        Face::new(vec![p.e, p.g, p.f]),
    ];
    proof {
        let polys = spec_microwedge_half_inner_corner_inverted(size);
        lemma_microwedge_half_inner_corner_inverted_reach(size);
        assert(faces@[0]@.verts =~= polys[0]);
        assert(faces@[1]@.verts =~= polys[1]);
        assert(faces@[2]@.verts =~= polys[2]);
        assert(faces@[3]@.verts =~= polys[3]);
    }
    faces
}

/// Every face of `microwedge_half_inner_corner_inverted` has three corners or more, none further from the centre than a shape reaches.
pub proof fn lemma_microwedge_half_inner_corner_inverted_reach(size: UVec3)
    ensures
        polys_within(spec_microwedge_half_inner_corner_inverted(size), SHAPE_REACH as int),
        polys_proper(spec_microwedge_half_inner_corner_inverted(size)),
{
    let polys = spec_microwedge_half_inner_corner_inverted(size);
    assert(poly_within(polys[0], SHAPE_REACH as int) && polys[0].len() >= 3);
    assert(poly_within(polys[1], SHAPE_REACH as int) && polys[1].len() >= 3);
    assert(poly_within(polys[2], SHAPE_REACH as int) && polys[2].len() >= 3);
    assert(poly_within(polys[3], SHAPE_REACH as int) && polys[3].len() >= 3);
}

/// Every face of `microwedge_half_inner_corner_inverted` is flat: all its corners lie in the plane of the first three.
pub proof fn lemma_microwedge_half_inner_corner_inverted_is_flat(size: UVec3)
    ensures
        polys_planar(spec_microwedge_half_inner_corner_inverted(size)),
{
    let polys = spec_microwedge_half_inner_corner_inverted(size);
    let x = size.x as int;
    let y = size.y as int;
    let z = size.z as int;
    assert(poly_planar(polys[0])) by {
        let f = polys[0];
        lemma_first_corners_in_plane(f[0], f[1], f[2]);
    }
    assert(poly_planar(polys[1])) by {
        let f = polys[1];
        lemma_first_corners_in_plane(f[0], f[1], f[2]);
    }
    assert(poly_planar(polys[2])) by {
        let f = polys[2];
        lemma_first_corners_in_plane(f[0], f[1], f[2]);
    }
    assert(poly_planar(polys[3])) by {
        let f = polys[3];
        lemma_first_corners_in_plane(f[0], f[1], f[2]);
    }
}

/// The polygons of `microwedge_half_inner_corner`, each from its first corner clockwise as seen from outside.
pub open spec fn spec_microwedge_half_inner_corner(size: UVec3) -> Seq<Seq<I64Vec3>> {
    let p = spec_corners(size);
    seq![
        seq![p.a, p.g, p.e],
        seq![p.a, p.e, p.f],
        seq![p.f, p.g, p.a],
        seq![p.e, p.g, p.f],
    ]
}

/// A half inner corner: a tetrahedron with its apex above the opposite base corner.
pub fn microwedge_half_inner_corner(size: UVec3) -> (faces: Vec<Face>)
    ensures
        fresh_faces(faces@, spec_microwedge_half_inner_corner(size)),
        polys_within(spec_microwedge_half_inner_corner(size), SHAPE_REACH as int),
        polys_proper(spec_microwedge_half_inner_corner(size)),
{
    let p = corners(size);
    let faces = vec![
        Face::new(vec![p.a, p.g, p.e]),
        Face::new(vec![p.a, p.e, p.f]),
        Face::new(vec![p.f, p.g, p.a]),
        Face::new(vec![p.e, p.g, p.f]),
    ];
    proof {
        let polys = spec_microwedge_half_inner_corner(size);
        lemma_microwedge_half_inner_corner_reach(size);
        assert(faces@[0]@.verts =~= polys[0]);
        assert(faces@[1]@.verts =~= polys[1]);
        assert(faces@[2]@.verts =~= polys[2]);
        assert(faces@[3]@.verts =~= polys[3]);
    }
    faces
}

/// Every face of `microwedge_half_inner_corner` has three corners or more, none further from the centre than a shape reaches.
pub proof fn lemma_microwedge_half_inner_corner_reach(size: UVec3)
    ensures
        polys_within(spec_microwedge_half_inner_corner(size), SHAPE_REACH as int),
        polys_proper(spec_microwedge_half_inner_corner(size)),
{
    let polys = spec_microwedge_half_inner_corner(size);
    assert(poly_within(polys[0], SHAPE_REACH as int) && polys[0].len() >= 3);
    assert(poly_within(polys[1], SHAPE_REACH as int) && polys[1].len() >= 3);
    assert(poly_within(polys[2], SHAPE_REACH as int) && polys[2].len() >= 3);
    assert(poly_within(polys[3], SHAPE_REACH as int) && polys[3].len() >= 3);
}

/// Every face of `microwedge_half_inner_corner` is flat: all its corners lie in the plane of the first three.
pub proof fn lemma_microwedge_half_inner_corner_is_flat(size: UVec3)
    ensures
        polys_planar(spec_microwedge_half_inner_corner(size)),
{
    let polys = spec_microwedge_half_inner_corner(size);
    let x = size.x as int;
    let y = size.y as int;
    let z = size.z as int;
    assert(poly_planar(polys[0])) by {
        let f = polys[0];
        lemma_first_corners_in_plane(f[0], f[1], f[2]);
    }
    assert(poly_planar(polys[1])) by {
        let f = polys[1];
        lemma_first_corners_in_plane(f[0], f[1], f[2]);
    }
    assert(poly_planar(polys[2])) by {
        let f = polys[2];
        lemma_first_corners_in_plane(f[0], f[1], f[2]);
    }
    assert(poly_planar(polys[3])) by {
        let f = polys[3];
        lemma_first_corners_in_plane(f[0], f[1], f[2]);
    }
}

/// The polygons of `microwedge_outer_corner`, each from its first corner clockwise as seen from outside.
pub open spec fn spec_microwedge_outer_corner(size: UVec3) -> Seq<Seq<I64Vec3>> {
    let p = spec_corners(size);
    seq![
        seq![p.a, p.c, p.h],
        seq![p.b, p.c, p.a],
        seq![p.a, p.h, p.e],
        seq![p.c, p.g, p.h],
        seq![p.c, p.b, p.f, p.g],
        seq![p.b, p.a, p.e, p.f],
        seq![p.e, p.h, p.g, p.f],
    ]
}

/// A micro-wedge outer corner: a box with one top corner lowered to the base.
pub fn microwedge_outer_corner(size: UVec3) -> (faces: Vec<Face>)
    ensures
        fresh_faces(faces@, spec_microwedge_outer_corner(size)),
        polys_within(spec_microwedge_outer_corner(size), SHAPE_REACH as int),
        polys_proper(spec_microwedge_outer_corner(size)),
{
    let p = corners(size);
    let faces = vec![
        Face::new(vec![p.a, p.c, p.h]),
        Face::new(vec![p.b, p.c, p.a]),
        Face::new(vec![p.a, p.h, p.e]),
        Face::new(vec![p.c, p.g, p.h]),
        Face::new(vec![p.c, p.b, p.f, p.g]),
        Face::new(vec![p.b, p.a, p.e, p.f]),
        Face::new(vec![p.e, p.h, p.g, p.f]),
    ];
    proof {
        let polys = spec_microwedge_outer_corner(size);
        lemma_microwedge_outer_corner_reach(size);
        assert(faces@[0]@.verts =~= polys[0]);
        assert(faces@[1]@.verts =~= polys[1]);
        assert(faces@[2]@.verts =~= polys[2]);
        assert(faces@[3]@.verts =~= polys[3]);
        assert(faces@[4]@.verts =~= polys[4]);
        assert(faces@[5]@.verts =~= polys[5]);
        assert(faces@[6]@.verts =~= polys[6]);
    }
    faces
}

/// Every face of `microwedge_outer_corner` has three corners or more, none further from the centre than a shape reaches.
pub proof fn lemma_microwedge_outer_corner_reach(size: UVec3)
    ensures
        polys_within(spec_microwedge_outer_corner(size), SHAPE_REACH as int),
        polys_proper(spec_microwedge_outer_corner(size)),
{
    let polys = spec_microwedge_outer_corner(size);
    assert(poly_within(polys[0], SHAPE_REACH as int) && polys[0].len() >= 3);
    assert(poly_within(polys[1], SHAPE_REACH as int) && polys[1].len() >= 3);
    assert(poly_within(polys[2], SHAPE_REACH as int) && polys[2].len() >= 3);
    assert(poly_within(polys[3], SHAPE_REACH as int) && polys[3].len() >= 3);
    assert(poly_within(polys[4], SHAPE_REACH as int) && polys[4].len() >= 3);
    assert(poly_within(polys[5], SHAPE_REACH as int) && polys[5].len() >= 3);
    assert(poly_within(polys[6], SHAPE_REACH as int) && polys[6].len() >= 3);
}

/// Every face of `microwedge_outer_corner` is flat: all its corners lie in the plane of the first three.
pub proof fn lemma_microwedge_outer_corner_is_flat(size: UVec3)
    ensures
        polys_planar(spec_microwedge_outer_corner(size)),
{
    let polys = spec_microwedge_outer_corner(size);
    let x = size.x as int;
    let y = size.y as int;
    let z = size.z as int;
    assert(poly_planar(polys[0])) by {
        let f = polys[0];
        lemma_first_corners_in_plane(f[0], f[1], f[2]);
    }
    assert(poly_planar(polys[1])) by {
        let f = polys[1];
        lemma_first_corners_in_plane(f[0], f[1], f[2]);
    }
    assert(poly_planar(polys[2])) by {
        let f = polys[2];
        lemma_first_corners_in_plane(f[0], f[1], f[2]);
    }
    assert(poly_planar(polys[3])) by {
        let f = polys[3];
        lemma_first_corners_in_plane(f[0], f[1], f[2]);
    }
    assert(poly_planar(polys[4])) by {
        let f = polys[4];
        lemma_first_corners_in_plane(f[0], f[1], f[2]);
        assert(out_of_plane(f[0], f[1], f[2], f[3]) == 0) by (nonlinear_arith)
            requires
                f[0].x == x,
                f[0].y == y,
                f[0].z == -z,
                f[1].x == -x,
                f[1].y == y,
                f[1].z == -z,
                f[2].x == -x,
                f[2].y == -y,
                f[2].z == -z,
                f[3].x == x,
                f[3].y == -y,
                f[3].z == -z,
        ;
    }
    assert(poly_planar(polys[5])) by {
        let f = polys[5];
        lemma_first_corners_in_plane(f[0], f[1], f[2]);
        assert(out_of_plane(f[0], f[1], f[2], f[3]) == 0) by (nonlinear_arith)
            requires
                f[0].x == -x,
                f[0].y == y,
                f[0].z == -z,
                f[1].x == -x,
                f[1].y == y,
                f[1].z == z,
                f[2].x == -x,
                f[2].y == -y,
                f[2].z == z,
                f[3].x == -x,
                f[3].y == -y,
                f[3].z == -z,
        ;
    }
    assert(poly_planar(polys[6])) by {
        let f = polys[6];
        lemma_first_corners_in_plane(f[0], f[1], f[2]);
        assert(out_of_plane(f[0], f[1], f[2], f[3]) == 0) by (nonlinear_arith)
            requires
                f[0].x == -x,
                f[0].y == -y,
                f[0].z == z,
                f[1].x == x,
                f[1].y == -y,
                f[1].z == z,
                f[2].x == x,
                f[2].y == -y,
                f[2].z == -z,
                f[3].x == -x,
                f[3].y == -y,
                f[3].z == -z,
        ;
    }
}

/// The polygons of `microwedge_triangle_corner`, each from its first corner clockwise as seen from outside.
pub open spec fn spec_microwedge_triangle_corner(size: UVec3) -> Seq<Seq<I64Vec3>> {
    let p = spec_corners(size);
    seq![
        seq![p.b, p.e, p.f],
        seq![p.b, p.g, p.e],
        seq![p.b, p.f, p.g],
        seq![p.f, p.e, p.g],
    ]
}

/// A triangle corner: a tetrahedron over half of the base.
pub fn microwedge_triangle_corner(size: UVec3) -> (faces: Vec<Face>)
    ensures
        fresh_faces(faces@, spec_microwedge_triangle_corner(size)),
        polys_within(spec_microwedge_triangle_corner(size), SHAPE_REACH as int),
        polys_proper(spec_microwedge_triangle_corner(size)),
{
    let p = corners(size);
    let faces = vec![
        Face::new(vec![p.b, p.e, p.f]),
        Face::new(vec![p.b, p.g, p.e]),
        Face::new(vec![p.b, p.f, p.g]),
        Face::new(vec![p.f, p.e, p.g]),
    ];
    proof {
        let polys = spec_microwedge_triangle_corner(size);
        lemma_microwedge_triangle_corner_reach(size);
        assert(faces@[0]@.verts =~= polys[0]);
        assert(faces@[1]@.verts =~= polys[1]);
        assert(faces@[2]@.verts =~= polys[2]);
        assert(faces@[3]@.verts =~= polys[3]);
    }
    faces
}

/// Every face of `microwedge_triangle_corner` has three corners or more, none further from the centre than a shape reaches.
pub proof fn lemma_microwedge_triangle_corner_reach(size: UVec3)
    ensures
        polys_within(spec_microwedge_triangle_corner(size), SHAPE_REACH as int),
        polys_proper(spec_microwedge_triangle_corner(size)),
{
    let polys = spec_microwedge_triangle_corner(size);
    assert(poly_within(polys[0], SHAPE_REACH as int) && polys[0].len() >= 3);
    assert(poly_within(polys[1], SHAPE_REACH as int) && polys[1].len() >= 3);
    assert(poly_within(polys[2], SHAPE_REACH as int) && polys[2].len() >= 3);
    assert(poly_within(polys[3], SHAPE_REACH as int) && polys[3].len() >= 3);
}

/// Every face of `microwedge_triangle_corner` is flat: all its corners lie in the plane of the first three.
pub proof fn lemma_microwedge_triangle_corner_is_flat(size: UVec3)
    ensures
        polys_planar(spec_microwedge_triangle_corner(size)),
{
    let polys = spec_microwedge_triangle_corner(size);
    let x = size.x as int;
    let y = size.y as int;
    let z = size.z as int;
    assert(poly_planar(polys[0])) by {
        let f = polys[0];
        lemma_first_corners_in_plane(f[0], f[1], f[2]);
    }
    assert(poly_planar(polys[1])) by {
        let f = polys[1];
        lemma_first_corners_in_plane(f[0], f[1], f[2]);
    }
    assert(poly_planar(polys[2])) by {
        let f = polys[2];
        lemma_first_corners_in_plane(f[0], f[1], f[2]);
    }
    assert(poly_planar(polys[3])) by {
        let f = polys[3];
        lemma_first_corners_in_plane(f[0], f[1], f[2]);
    }
}

/// The polygons of `ramp`, each from its first corner clockwise as seen from outside.
pub open spec fn spec_ramp(size: UVec3) -> Seq<Seq<I64Vec3>> {
    let p = spec_corners(size);
    seq![
        seq![p.b, spec_tenx(p.b), spec_tenx(p.a), p.a],
        seq![p.e, p.h, p.g, p.f],
        seq![p.a, spec_tenx(p.a), spec_twoy(p.h), p.h, p.e],
        seq![spec_tenx(p.b), p.b, p.f, p.g, spec_twoy(p.g)],
        seq![p.b, p.a, p.e, p.f],
        seq![spec_tenx(p.a), spec_tenx(p.b), spec_twoy(p.g), spec_twoy(p.h)],
        seq![spec_twoy(p.h), spec_twoy(p.g), p.g, p.h],
    ]
}

/// A ramp: a flat strip ten units deep at the top, then a slope along X down to a lip two units high.
pub fn ramp(size: UVec3) -> (faces: Vec<Face>)
    ensures
        fresh_faces(faces@, spec_ramp(size)),
        polys_within(spec_ramp(size), SHAPE_REACH as int),
        polys_proper(spec_ramp(size)),
{
    let p = corners(size);
    let faces = vec![
        Face::new(vec![p.b, tenx(p.b), tenx(p.a), p.a]),
        Face::new(vec![p.e, p.h, p.g, p.f]),
        Face::new(vec![p.a, tenx(p.a), twoy(p.h), p.h, p.e]),
        Face::new(vec![tenx(p.b), p.b, p.f, p.g, twoy(p.g)]),
        Face::new(vec![p.b, p.a, p.e, p.f]),
        Face::new(vec![tenx(p.a), tenx(p.b), twoy(p.g), twoy(p.h)]),
        Face::new(vec![twoy(p.h), twoy(p.g), p.g, p.h]),
    ];
    proof {
        let polys = spec_ramp(size);
        lemma_ramp_reach(size);
        assert(faces@[0]@.verts =~= polys[0]);
        assert(faces@[1]@.verts =~= polys[1]);
        assert(faces@[2]@.verts =~= polys[2]);
        assert(faces@[3]@.verts =~= polys[3]);
        assert(faces@[4]@.verts =~= polys[4]);
        assert(faces@[5]@.verts =~= polys[5]);
        assert(faces@[6]@.verts =~= polys[6]);
    }
    faces
}

/// Every face of `ramp` has three corners or more, none further from the centre than a shape reaches.
pub proof fn lemma_ramp_reach(size: UVec3)
    ensures
        polys_within(spec_ramp(size), SHAPE_REACH as int),
        polys_proper(spec_ramp(size)),
{
    let polys = spec_ramp(size);
    assert(poly_within(polys[0], SHAPE_REACH as int) && polys[0].len() >= 3);
    assert(poly_within(polys[1], SHAPE_REACH as int) && polys[1].len() >= 3);
    assert(poly_within(polys[2], SHAPE_REACH as int) && polys[2].len() >= 3);
    assert(poly_within(polys[3], SHAPE_REACH as int) && polys[3].len() >= 3);
    assert(poly_within(polys[4], SHAPE_REACH as int) && polys[4].len() >= 3);
    assert(poly_within(polys[5], SHAPE_REACH as int) && polys[5].len() >= 3);
    assert(poly_within(polys[6], SHAPE_REACH as int) && polys[6].len() >= 3);
}

/// Every face of `ramp` is flat: all its corners lie in the plane of the first three.
pub proof fn lemma_ramp_is_flat(size: UVec3)
    ensures
        polys_planar(spec_ramp(size)),
{
    let polys = spec_ramp(size);
    let x = size.x as int;
    let y = size.y as int;
    let z = size.z as int;
    assert(poly_planar(polys[0])) by {
        let f = polys[0];
        lemma_first_corners_in_plane(f[0], f[1], f[2]);
        assert(out_of_plane(f[0], f[1], f[2], f[3]) == 0) by (nonlinear_arith)
            requires
                f[0].x == -x,
                f[0].y == y,
                f[0].z == -z,
                f[1].x == -x + 10,
                f[1].y == y,
                f[1].z == -z,
                f[2].x == -x + 10,
                f[2].y == y,
                f[2].z == z,
                f[3].x == -x,
                f[3].y == y,
                f[3].z == z,
        ;
    }
    assert(poly_planar(polys[1])) by {
        let f = polys[1];
        lemma_first_corners_in_plane(f[0], f[1], f[2]);
        assert(out_of_plane(f[0], f[1], f[2], f[3]) == 0) by (nonlinear_arith)
            requires
                f[0].x == -x,
                f[0].y == -y,
                f[0].z == z,
                f[1].x == x,
                f[1].y == -y,
                f[1].z == z,
                f[2].x == x,
                f[2].y == -y,
                f[2].z == -z,
                f[3].x == -x,
                f[3].y == -y,
                f[3].z == -z,
        ;
    }
    assert(poly_planar(polys[2])) by {
        let f = polys[2];
        lemma_first_corners_in_plane(f[0], f[1], f[2]);
        assert(out_of_plane(f[0], f[1], f[2], f[3]) == 0) by (nonlinear_arith)
            requires
                f[0].x == -x,
                f[0].y == y,
                f[0].z == z,
                f[1].x == -x + 10,
                f[1].y == y,
                f[1].z == z,
                f[2].x == x,
                f[2].y == -y + 2,
                f[2].z == z,
                f[3].x == x,
                f[3].y == -y,
                f[3].z == z,
        ;
        assert(out_of_plane(f[0], f[1], f[2], f[4]) == 0) by (nonlinear_arith)
            requires
                f[0].x == -x,
                f[0].y == y,
                f[0].z == z,
                f[1].x == -x + 10,
                f[1].y == y,
                f[1].z == z,
                f[2].x == x,
                f[2].y == -y + 2,
                f[2].z == z,
                f[4].x == -x,
                f[4].y == -y,
                f[4].z == z,
        ;
    }
    assert(poly_planar(polys[3])) by {
        let f = polys[3];
        lemma_first_corners_in_plane(f[0], f[1], f[2]);
        assert(out_of_plane(f[0], f[1], f[2], f[3]) == 0) by (nonlinear_arith)
            requires
                f[0].x == -x + 10,
                f[0].y == y,
                f[0].z == -z,
                f[1].x == -x,
                f[1].y == y,
                f[1].z == -z,
                f[2].x == -x,
                f[2].y == -y,
                f[2].z == -z,
                f[3].x == x,
                f[3].y == -y,
                f[3].z == -z,
        ;
        assert(out_of_plane(f[0], f[1], f[2], f[4]) == 0) by (nonlinear_arith)
            requires
                f[0].x == -x + 10,
                f[0].y == y,
                f[0].z == -z,
                f[1].x == -x,
                f[1].y == y,
                f[1].z == -z,
                f[2].x == -x,
                f[2].y == -y,
                f[2].z == -z,
                f[4].x == x,
                f[4].y == -y + 2,
                f[4].z == -z,
        ;
    }
    assert(poly_planar(polys[4])) by {
        let f = polys[4];
        lemma_first_corners_in_plane(f[0], f[1], f[2]);
        assert(out_of_plane(f[0], f[1], f[2], f[3]) == 0) by (nonlinear_arith)
            requires
                f[0].x == -x,
                f[0].y == y,
                f[0].z == -z,
                f[1].x == -x,
                f[1].y == y,
                f[1].z == z,
                f[2].x == -x,
                f[2].y == -y,
                f[2].z == z,
                f[3].x == -x,
                f[3].y == -y,
                f[3].z == -z,
        ;
    }
    assert(poly_planar(polys[5])) by {
        let f = polys[5];
        lemma_first_corners_in_plane(f[0], f[1], f[2]);
        assert(out_of_plane(f[0], f[1], f[2], f[3]) == 0) by (nonlinear_arith)
            requires
                f[0].x == -x + 10,
                f[0].y == y,
                f[0].z == z,
                f[1].x == -x + 10,
                f[1].y == y,
                f[1].z == -z,
                f[2].x == x,
                f[2].y == -y + 2,
                f[2].z == -z,
                f[3].x == x,
                f[3].y == -y + 2,
                f[3].z == z,
        ;
    }
    assert(poly_planar(polys[6])) by {
        let f = polys[6];
        lemma_first_corners_in_plane(f[0], f[1], f[2]);
        assert(out_of_plane(f[0], f[1], f[2], f[3]) == 0) by (nonlinear_arith)
            requires
                f[0].x == x,
                f[0].y == -y + 2,
                f[0].z == z,
                f[1].x == x,
                f[1].y == -y + 2,
                f[1].z == -z,
                f[2].x == x,
                f[2].y == -y,
                f[2].z == -z,
                f[3].x == x,
                f[3].y == -y,
                f[3].z == z,
        ;
    }
}

/// The polygons of `side_wedge`, each from its first corner clockwise as seen from outside.
pub open spec fn spec_side_wedge(size: UVec3) -> Seq<Seq<I64Vec3>> {
    let p = spec_corners(size);
    seq![
        seq![p.b, p.c, p.a],
        seq![p.e, p.g, p.f],
        seq![p.a, p.c, p.g, p.e],
        seq![p.c, p.b, p.f, p.g],
        seq![p.b, p.a, p.e, p.f],
    ]
}

/// A side wedge: a prism over half of the base, cut along the diagonal.
pub fn side_wedge(size: UVec3) -> (faces: Vec<Face>)
    ensures
        fresh_faces(faces@, spec_side_wedge(size)),
        polys_within(spec_side_wedge(size), SHAPE_REACH as int),
        polys_proper(spec_side_wedge(size)),
{
    let p = corners(size);
    let faces = vec![
        Face::new(vec![p.b, p.c, p.a]),
        Face::new(vec![p.e, p.g, p.f]),
        Face::new(vec![p.a, p.c, p.g, p.e]),
        Face::new(vec![p.c, p.b, p.f, p.g]),
        Face::new(vec![p.b, p.a, p.e, p.f]),
    ];
    proof {
        let polys = spec_side_wedge(size);
        lemma_side_wedge_reach(size);
        assert(faces@[0]@.verts =~= polys[0]);
        assert(faces@[1]@.verts =~= polys[1]);
        assert(faces@[2]@.verts =~= polys[2]);
        assert(faces@[3]@.verts =~= polys[3]);
        assert(faces@[4]@.verts =~= polys[4]);
    }
    faces
}

/// Every face of `side_wedge` has three corners or more, none further from the centre than a shape reaches.
pub proof fn lemma_side_wedge_reach(size: UVec3)
    ensures
        polys_within(spec_side_wedge(size), SHAPE_REACH as int),
        polys_proper(spec_side_wedge(size)),
{
    let polys = spec_side_wedge(size);
    assert(poly_within(polys[0], SHAPE_REACH as int) && polys[0].len() >= 3);
    assert(poly_within(polys[1], SHAPE_REACH as int) && polys[1].len() >= 3);
    assert(poly_within(polys[2], SHAPE_REACH as int) && polys[2].len() >= 3);
    assert(poly_within(polys[3], SHAPE_REACH as int) && polys[3].len() >= 3);
    assert(poly_within(polys[4], SHAPE_REACH as int) && polys[4].len() >= 3);
}

/// Every face of `side_wedge` is flat: all its corners lie in the plane of the first three.
pub proof fn lemma_side_wedge_is_flat(size: UVec3)
    ensures
        polys_planar(spec_side_wedge(size)),
{
    let polys = spec_side_wedge(size);
    let x = size.x as int;
    let y = size.y as int;
    let z = size.z as int;
    assert(poly_planar(polys[0])) by {
        let f = polys[0];
        lemma_first_corners_in_plane(f[0], f[1], f[2]);
    }
    assert(poly_planar(polys[1])) by {
        let f = polys[1];
        lemma_first_corners_in_plane(f[0], f[1], f[2]);
    }
    assert(poly_planar(polys[2])) by {
        let f = polys[2];
        lemma_first_corners_in_plane(f[0], f[1], f[2]);
        assert(out_of_plane(f[0], f[1], f[2], f[3]) == 0) by (nonlinear_arith)
            requires
                f[0].x == -x,
                f[0].y == y,
                f[0].z == z,
                f[1].x == x,
                f[1].y == y,
                f[1].z == -z,
                f[2].x == x,
                f[2].y == -y,
                f[2].z == -z,
                f[3].x == -x,
                f[3].y == -y,
                f[3].z == z,
        ;
    }
    assert(poly_planar(polys[3])) by {
        let f = polys[3];
        lemma_first_corners_in_plane(f[0], f[1], f[2]);
        assert(out_of_plane(f[0], f[1], f[2], f[3]) == 0) by (nonlinear_arith)
            requires
                f[0].x == x,
                f[0].y == y,
                f[0].z == -z,
                f[1].x == -x,
                f[1].y == y,
                f[1].z == -z,
                f[2].x == -x,
                f[2].y == -y,
                f[2].z == -z,
                f[3].x == x,
                f[3].y == -y,
                f[3].z == -z,
        ;
    }
    assert(poly_planar(polys[4])) by {
        let f = polys[4];
        lemma_first_corners_in_plane(f[0], f[1], f[2]);
        assert(out_of_plane(f[0], f[1], f[2], f[3]) == 0) by (nonlinear_arith)
            requires
                f[0].x == -x,
                f[0].y == y,
                f[0].z == -z,
                f[1].x == -x,
                f[1].y == y,
                f[1].z == z,
                f[2].x == -x,
                f[2].y == -y,
                f[2].z == z,
                f[3].x == -x,
                f[3].y == -y,
                f[3].z == -z,
        ;
    }
}

/// The polygons of `standard_brick`, each from its first corner clockwise as seen from outside.
pub open spec fn spec_standard_brick(size: UVec3) -> Seq<Seq<I64Vec3>> {
    let p = spec_corners(size);
    seq![
        seq![p.b, p.c, p.d, p.a],
        seq![p.e, p.h, p.g, p.f],
        seq![p.a, p.d, p.h, p.e],
        seq![p.c, p.b, p.f, p.g],
        seq![p.b, p.a, p.e, p.f],
        seq![p.d, p.c, p.g, p.h],
    ]
}

/// A plain box.
pub fn standard_brick(size: UVec3) -> (faces: Vec<Face>)
    ensures
        fresh_faces(faces@, spec_standard_brick(size)),
        polys_within(spec_standard_brick(size), SHAPE_REACH as int),
        polys_proper(spec_standard_brick(size)),
{
    let p = corners(size);
    let faces = vec![
        Face::new(vec![p.b, p.c, p.d, p.a]),
        Face::new(vec![p.e, p.h, p.g, p.f]),
        Face::new(vec![p.a, p.d, p.h, p.e]),
        Face::new(vec![p.c, p.b, p.f, p.g]),
        Face::new(vec![p.b, p.a, p.e, p.f]),
        Face::new(vec![p.d, p.c, p.g, p.h]),
    ];
    proof {
        let polys = spec_standard_brick(size);
        lemma_standard_brick_reach(size);
        assert(faces@[0]@.verts =~= polys[0]);
        assert(faces@[1]@.verts =~= polys[1]);
        assert(faces@[2]@.verts =~= polys[2]);
        assert(faces@[3]@.verts =~= polys[3]);
        assert(faces@[4]@.verts =~= polys[4]);
        assert(faces@[5]@.verts =~= polys[5]);
    }
    faces
}

/// Every face of `standard_brick` has three corners or more, none further from the centre than a shape reaches.
pub proof fn lemma_standard_brick_reach(size: UVec3)
    ensures
        polys_within(spec_standard_brick(size), SHAPE_REACH as int),
        polys_proper(spec_standard_brick(size)),
{
    let polys = spec_standard_brick(size);
    assert(poly_within(polys[0], SHAPE_REACH as int) && polys[0].len() >= 3);
    assert(poly_within(polys[1], SHAPE_REACH as int) && polys[1].len() >= 3);
    assert(poly_within(polys[2], SHAPE_REACH as int) && polys[2].len() >= 3);
    assert(poly_within(polys[3], SHAPE_REACH as int) && polys[3].len() >= 3);
    assert(poly_within(polys[4], SHAPE_REACH as int) && polys[4].len() >= 3);
    assert(poly_within(polys[5], SHAPE_REACH as int) && polys[5].len() >= 3);
}

/// Every face of `standard_brick` is flat: all its corners lie in the plane of the first three.
pub proof fn lemma_standard_brick_is_flat(size: UVec3)
    ensures
        polys_planar(spec_standard_brick(size)),
{
    let polys = spec_standard_brick(size);
    let x = size.x as int;
    let y = size.y as int;
    let z = size.z as int;
    assert(poly_planar(polys[0])) by {
        let f = polys[0];
        lemma_first_corners_in_plane(f[0], f[1], f[2]);
        assert(out_of_plane(f[0], f[1], f[2], f[3]) == 0) by (nonlinear_arith)
            requires
                f[0].x == -x,
                f[0].y == y,
                f[0].z == -z,
                f[1].x == x,
                f[1].y == y,
                f[1].z == -z,
                f[2].x == x,
                f[2].y == y,
                f[2].z == z,
                f[3].x == -x,
                f[3].y == y,
                f[3].z == z,
        ;
    }
    assert(poly_planar(polys[1])) by {
        let f = polys[1];
        lemma_first_corners_in_plane(f[0], f[1], f[2]);
        assert(out_of_plane(f[0], f[1], f[2], f[3]) == 0) by (nonlinear_arith)
            requires
                f[0].x == -x,
                f[0].y == -y,
                f[0].z == z,
                f[1].x == x,
                f[1].y == -y,
                f[1].z == z,
                f[2].x == x,
                f[2].y == -y,
                f[2].z == -z,
                f[3].x == -x,
                f[3].y == -y,
                f[3].z == -z,
        ;
    }
    assert(poly_planar(polys[2])) by {
        let f = polys[2];
        lemma_first_corners_in_plane(f[0], f[1], f[2]);
        assert(out_of_plane(f[0], f[1], f[2], f[3]) == 0) by (nonlinear_arith)
            requires
                f[0].x == -x,
                f[0].y == y,
                f[0].z == z,
                f[1].x == x,
                f[1].y == y,
                f[1].z == z,
                f[2].x == x,
                f[2].y == -y,
                f[2].z == z,
                f[3].x == -x,
                f[3].y == -y,
                f[3].z == z,
        ;
    }
    assert(poly_planar(polys[3])) by {
        let f = polys[3];
        lemma_first_corners_in_plane(f[0], f[1], f[2]);
        assert(out_of_plane(f[0], f[1], f[2], f[3]) == 0) by (nonlinear_arith)
            requires
                f[0].x == x,
                f[0].y == y,
                f[0].z == -z,
                f[1].x == -x,
                f[1].y == y,
                f[1].z == -z,
                f[2].x == -x,
                f[2].y == -y,
                f[2].z == -z,
                f[3].x == x,
                f[3].y == -y,
                f[3].z == -z,
        ;
    }
    assert(poly_planar(polys[4])) by {
        let f = polys[4];
        lemma_first_corners_in_plane(f[0], f[1], f[2]);
        assert(out_of_plane(f[0], f[1], f[2], f[3]) == 0) by (nonlinear_arith)
            requires
                f[0].x == -x,
                f[0].y == y,
                f[0].z == -z,
                f[1].x == -x,
                f[1].y == y,
                f[1].z == z,
                f[2].x == -x,
                f[2].y == -y,
                f[2].z == z,
                f[3].x == -x,
                f[3].y == -y,
                f[3].z == -z,
        ;
    }
    assert(poly_planar(polys[5])) by {
        let f = polys[5];
        lemma_first_corners_in_plane(f[0], f[1], f[2]);
        assert(out_of_plane(f[0], f[1], f[2], f[3]) == 0) by (nonlinear_arith)
            requires
                f[0].x == x,
                f[0].y == y,
                f[0].z == z,
                f[1].x == x,
                f[1].y == y,
                f[1].z == -z,
                f[2].x == x,
                f[2].y == -y,
                f[2].z == -z,
                f[3].x == x,
                f[3].y == -y,
                f[3].z == z,
        ;
    }
}

} // verus!
