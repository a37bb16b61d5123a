//! From a brick record to its polygons in the world.

use vstd::prelude::*;
use crate::brick::{str_eq, Brick, Size};
use crate::brickadia_specs::{brick_size_map, default_size};
use crate::error::GeometryError;
use crate::faces::{
    fresh_faces, near, out_of_plane, poly_planar, poly_within, polys_planar, polys_proper,
    polys_within, spec_normal, Face, FaceView, SHAPE_REACH, VERTEX_LIMIT,
};
use crate::faces::{
    default_wedge, lemma_default_wedge_is_flat, lemma_default_wedge_reach, spec_default_wedge,
    ramp_inner_corner, lemma_ramp_inner_corner_is_flat, lemma_ramp_inner_corner_reach, spec_ramp_inner_corner,
    ramp_crest, lemma_ramp_crest_is_flat, lemma_ramp_crest_reach, spec_ramp_crest,
    ramp_corner, lemma_ramp_corner_is_flat, lemma_ramp_corner_reach, spec_ramp_corner,
    microwedge_inner_corner, lemma_microwedge_inner_corner_is_flat, lemma_microwedge_inner_corner_reach, spec_microwedge_inner_corner,
    microwedge_corner, lemma_microwedge_corner_is_flat, lemma_microwedge_corner_reach, spec_microwedge_corner,
    microwedge_half_outer_corner, lemma_microwedge_half_outer_corner_is_flat, lemma_microwedge_half_outer_corner_reach, spec_microwedge_half_outer_corner,
    microwedge_half_inner_corner_inverted, lemma_microwedge_half_inner_corner_inverted_is_flat, lemma_microwedge_half_inner_corner_inverted_reach, spec_microwedge_half_inner_corner_inverted,
    microwedge_half_inner_corner, lemma_microwedge_half_inner_corner_is_flat, lemma_microwedge_half_inner_corner_reach, spec_microwedge_half_inner_corner,
    microwedge_outer_corner, lemma_microwedge_outer_corner_is_flat, lemma_microwedge_outer_corner_reach, spec_microwedge_outer_corner,
    microwedge_triangle_corner, lemma_microwedge_triangle_corner_is_flat, lemma_microwedge_triangle_corner_reach, spec_microwedge_triangle_corner,
    ramp, lemma_ramp_is_flat, lemma_ramp_reach, spec_ramp,
    side_wedge, lemma_side_wedge_is_flat, lemma_side_wedge_reach, spec_side_wedge,
    standard_brick, lemma_standard_brick_is_flat, lemma_standard_brick_reach, spec_standard_brick,
};
use crate::orient::{
    lemma_out_of_plane_is_det, lemma_rotate_keeps_plane, lemma_rotate_within, orientation, rotate,
    spec_rotate,
};
use crate::vec3::{I64Vec3, UVec3};

verus! {

/// The shapes of the catalog.
#[derive(Debug, Clone, Copy, PartialEq, Eq, Structural)]
pub enum ShapeKind {
    DefaultWedge,
    RampInnerCorner,
    RampCrest,
    RampCorner,
    MicroWedgeInnerCorner,
    MicroWedgeCorner,
    MicroWedgeHalfOuterCorner,
    MicroWedgeHalfInnerCornerInverted,
    MicroWedgeHalfInnerCorner,
    MicroWedgeOuterCorner,
    MicroWedgeTriangleCorner,
    Ramp,
    SideWedge,
    /// A plain box, also for every asset name that the catalog does not know.
    Standard,
}

/// The shape that an asset name stands for.
pub open spec fn spec_shape_kind(name: Seq<char>) -> ShapeKind {
    if name == "PB_DefaultWedge"@ {
        ShapeKind::DefaultWedge
    } else if name == "PB_DefaultRampInnerCorner"@ {
        ShapeKind::RampInnerCorner
    } else if name == "PB_DefaultRampCrest"@ {
        ShapeKind::RampCrest
    } else if name == "PB_DefaultRampCorner"@ {
        ShapeKind::RampCorner
    } else if name == "PB_DefaultMicroWedgeInnerCorner"@ {
        ShapeKind::MicroWedgeInnerCorner
    } else if name == "PB_DefaultMicroWedgeCorner"@ {
        ShapeKind::MicroWedgeCorner
    } else if name == "PB_DefaultMicroWedgeHalfOuterCorner"@ {
        ShapeKind::MicroWedgeHalfOuterCorner
    } else if name == "PB_DefaultMicroWedgeHalfInnerCornerInverted"@ {
        ShapeKind::MicroWedgeHalfInnerCornerInverted
    } else if name == "PB_DefaultMicroWedgeHalfInnerCorner"@ {
        ShapeKind::MicroWedgeHalfInnerCorner
    } else if name == "PB_DefaultMicroWedgeOuterCorner"@ {
        ShapeKind::MicroWedgeOuterCorner
    } else if name == "PB_DefaultMicroWedgeTriangleCorner"@ {
        ShapeKind::MicroWedgeTriangleCorner
    } else if name == "PB_DefaultRamp"@ {
        ShapeKind::Ramp
    } else if name == "PB_DefaultMicroWedge"@ || name == "PB_DefaultSideWedgeTile"@ || name
        == "PB_DefaultSideWedge"@ {
        ShapeKind::SideWedge
    } else {
        ShapeKind::Standard
    }
}

/// The shape that an asset name stands for.
pub fn shape_kind(name: &str) -> (kind: ShapeKind)
    ensures
        kind == spec_shape_kind(name@),
{
    if str_eq(name, "PB_DefaultWedge") {
        ShapeKind::DefaultWedge
    } else if str_eq(name, "PB_DefaultRampInnerCorner") {
        ShapeKind::RampInnerCorner
    } else if str_eq(name, "PB_DefaultRampCrest") {
        ShapeKind::RampCrest
    } else if str_eq(name, "PB_DefaultRampCorner") {
        ShapeKind::RampCorner
    } else if str_eq(name, "PB_DefaultMicroWedgeInnerCorner") {
        ShapeKind::MicroWedgeInnerCorner
    } else if str_eq(name, "PB_DefaultMicroWedgeCorner") {
        ShapeKind::MicroWedgeCorner
    } else if str_eq(name, "PB_DefaultMicroWedgeHalfOuterCorner") {
        ShapeKind::MicroWedgeHalfOuterCorner
    } else if str_eq(name, "PB_DefaultMicroWedgeHalfInnerCornerInverted") {
        ShapeKind::MicroWedgeHalfInnerCornerInverted
    } else if str_eq(name, "PB_DefaultMicroWedgeHalfInnerCorner") {
        ShapeKind::MicroWedgeHalfInnerCorner
    } else if str_eq(name, "PB_DefaultMicroWedgeOuterCorner") {
        ShapeKind::MicroWedgeOuterCorner
    } else if str_eq(name, "PB_DefaultMicroWedgeTriangleCorner") {
        ShapeKind::MicroWedgeTriangleCorner
    } else if str_eq(name, "PB_DefaultRamp") {
        ShapeKind::Ramp
    } else if str_eq(name, "PB_DefaultMicroWedge") || str_eq(name, "PB_DefaultSideWedgeTile")
        || str_eq(name, "PB_DefaultSideWedge") {
        ShapeKind::SideWedge
    } else {
        ShapeKind::Standard
    }
}

/// The polygons of a shape about the origin, for the given half-extents.
pub open spec fn spec_shape(kind: ShapeKind, size: UVec3) -> Seq<Seq<I64Vec3>> {
    match kind {
        ShapeKind::DefaultWedge => spec_default_wedge(size),
        ShapeKind::RampInnerCorner => spec_ramp_inner_corner(size),
        ShapeKind::RampCrest => spec_ramp_crest(size),
        ShapeKind::RampCorner => spec_ramp_corner(size),
        ShapeKind::MicroWedgeInnerCorner => spec_microwedge_inner_corner(size),
        ShapeKind::MicroWedgeCorner => spec_microwedge_corner(size),
        ShapeKind::MicroWedgeHalfOuterCorner => spec_microwedge_half_outer_corner(size),
        ShapeKind::MicroWedgeHalfInnerCornerInverted => spec_microwedge_half_inner_corner_inverted(
            size,
        ),
        ShapeKind::MicroWedgeHalfInnerCorner => spec_microwedge_half_inner_corner(size),
        ShapeKind::MicroWedgeOuterCorner => spec_microwedge_outer_corner(size),
        ShapeKind::MicroWedgeTriangleCorner => spec_microwedge_triangle_corner(size),
        ShapeKind::Ramp => spec_ramp(size),
        ShapeKind::SideWedge => spec_side_wedge(size),
        ShapeKind::Standard => spec_standard_brick(size),
    }
}

/// The polygons of a shape about the origin, for the given half-extents.
pub fn shape(kind: ShapeKind, size: UVec3) -> (faces: Vec<Face>)
    ensures
        fresh_faces(faces@, spec_shape(kind, size)),
        polys_within(spec_shape(kind, size), SHAPE_REACH as int),
        polys_proper(spec_shape(kind, size)),
{
    match kind {
        ShapeKind::DefaultWedge => default_wedge(size),
        ShapeKind::RampInnerCorner => ramp_inner_corner(size),
        ShapeKind::RampCrest => ramp_crest(size),
        ShapeKind::RampCorner => ramp_corner(size),
        ShapeKind::MicroWedgeInnerCorner => microwedge_inner_corner(size),
        ShapeKind::MicroWedgeCorner => microwedge_corner(size),
        ShapeKind::MicroWedgeHalfOuterCorner => microwedge_half_outer_corner(size),
        ShapeKind::MicroWedgeHalfInnerCornerInverted => microwedge_half_inner_corner_inverted(size),
        ShapeKind::MicroWedgeHalfInnerCorner => microwedge_half_inner_corner(size),
        ShapeKind::MicroWedgeOuterCorner => microwedge_outer_corner(size),
        ShapeKind::MicroWedgeTriangleCorner => microwedge_triangle_corner(size),
        ShapeKind::Ramp => ramp(size),
        ShapeKind::SideWedge => side_wedge(size),
        ShapeKind::Standard => standard_brick(size),
    }
}

/// The half-extents that a brick's shape is built with, in world axis order:
/// a procedural brick's own, else the catalog's entry for the asset name, with
/// the save's second and third entries swapped. `None` for a static-mesh
/// brick whose name the catalog lacks.
pub open spec fn spec_shape_size(brick: Brick, name: Seq<char>) -> Option<UVec3> {
    match brick.size {
        Size::Procedural(w, l, h) => Some(UVec3 { x: w, y: h, z: l }),
        Size::Empty => match brick_size_map(name) {
            Some((w, l, h)) => Some(UVec3 { x: w, y: h, z: l }),
            None => None,
        },
    }
}

/// `v` turned by orientation `o` and moved to a brick at `pos`, which is in
/// the save's axis order.
pub open spec fn spec_place(o: u8, pos: (i32, i32, i32), v: I64Vec3) -> I64Vec3 {
    let r = spec_rotate(o, v);
    I64Vec3 { x: (r.x + pos.0) as i64, y: (r.y + pos.2) as i64, z: (r.z + pos.1) as i64 }
}

/// Every corner of every polygon turned and moved.
pub open spec fn spec_place_polys(polys: Seq<Seq<I64Vec3>>, o: u8, pos: (i32, i32, i32)) -> Seq<
    Seq<I64Vec3>,
> {
    Seq::new(
        polys.len(),
        |i: int| Seq::new(polys[i].len(), |j: int| spec_place(o, pos, polys[i][j])),
    )
}

/// All polygons of a brick in the world, the downward ones too. A brick that
/// is not visible, or whose size is not known, has none.
pub open spec fn spec_brick_polys(brick: Brick, name: Seq<char>) -> Seq<Seq<I64Vec3>> {
    if !brick.visibility {
        Seq::empty()
    } else {
        match spec_shape_size(brick, name) {
            None => Seq::empty(),
            Some(size) => spec_place_polys(
                spec_shape(spec_shape_kind(name), size),
                (4 * brick.direction + brick.rotation) as u8,
                brick.position,
            ),
        }
    }
}

/// The face of a polygon: its corners, the normal they give, not hidden.
pub open spec fn spec_face_of(poly: Seq<I64Vec3>) -> FaceView {
    let n = spec_normal(poly[0], poly[1], poly[2]);
    FaceView {
        verts: poly,
        normal: I64Vec3 { x: n.0 as i64, y: n.1 as i64, z: n.2 as i64 },
        hidden: false,
    }
}

/// The faces of the polygons, in order, without those that face straight down.
pub open spec fn spec_upward_faces(polys: Seq<Seq<I64Vec3>>) -> Seq<FaceView>
    decreases polys.len(),
{
    if polys.len() == 0 {
        Seq::empty()
    } else {
        let rest = spec_upward_faces(polys.drop_last());
        let face = spec_face_of(polys.last());
        if face.faces_down() {
            rest
        } else {
            rest.push(face)
        }
    }
}

/// Every face of every shape has three corners or more, none further from
/// the centre than a shape reaches, and is flat.
pub proof fn lemma_shape(kind: ShapeKind, size: UVec3)
    ensures
        polys_within(spec_shape(kind, size), SHAPE_REACH as int),
        polys_proper(spec_shape(kind, size)),
        polys_planar(spec_shape(kind, size)),
{
    match kind {
        ShapeKind::DefaultWedge => {
            lemma_default_wedge_reach(size);
            lemma_default_wedge_is_flat(size);
        },
        ShapeKind::RampInnerCorner => {
            lemma_ramp_inner_corner_reach(size);
            lemma_ramp_inner_corner_is_flat(size);
        },
        ShapeKind::RampCrest => {
            lemma_ramp_crest_reach(size);
            lemma_ramp_crest_is_flat(size);
        },
        ShapeKind::RampCorner => {
            lemma_ramp_corner_reach(size);
            lemma_ramp_corner_is_flat(size);
        },
        ShapeKind::MicroWedgeInnerCorner => {
            lemma_microwedge_inner_corner_reach(size);
            lemma_microwedge_inner_corner_is_flat(size);
        },
        ShapeKind::MicroWedgeCorner => {
            lemma_microwedge_corner_reach(size);
            lemma_microwedge_corner_is_flat(size);
        },
        ShapeKind::MicroWedgeHalfOuterCorner => {
            lemma_microwedge_half_outer_corner_reach(size);
            lemma_microwedge_half_outer_corner_is_flat(size);
        },
        ShapeKind::MicroWedgeHalfInnerCornerInverted => {
            lemma_microwedge_half_inner_corner_inverted_reach(size);
            lemma_microwedge_half_inner_corner_inverted_is_flat(size);
        },
        ShapeKind::MicroWedgeHalfInnerCorner => {
            lemma_microwedge_half_inner_corner_reach(size);
            lemma_microwedge_half_inner_corner_is_flat(size);
        },
        ShapeKind::MicroWedgeOuterCorner => {
            lemma_microwedge_outer_corner_reach(size);
            lemma_microwedge_outer_corner_is_flat(size);
        },
        ShapeKind::MicroWedgeTriangleCorner => {
            lemma_microwedge_triangle_corner_reach(size);
            lemma_microwedge_triangle_corner_is_flat(size);
        },
        ShapeKind::Ramp => {
            lemma_ramp_reach(size);
            lemma_ramp_is_flat(size);
        },
        ShapeKind::SideWedge => {
            lemma_side_wedge_reach(size);
            lemma_side_wedge_is_flat(size);
        },
        ShapeKind::Standard => {
            lemma_standard_brick_reach(size);
            lemma_standard_brick_is_flat(size);
        },
    }
}

/// Turning and moving keep what lies in a plane in it.
pub proof fn lemma_place_keeps_plane(
    o: u8,
    pos: (i32, i32, i32),
    a: I64Vec3,
    b: I64Vec3,
    c: I64Vec3,
    p: I64Vec3,
)
    requires
        o < 24,
        near(a),
        near(b),
        near(c),
        near(p),
    ensures
        out_of_plane(
            spec_place(o, pos, a),
            spec_place(o, pos, b),
            spec_place(o, pos, c),
            spec_place(o, pos, p),
        ) == out_of_plane(a, b, c, p),
{
    lemma_rotate_within(o, a, SHAPE_REACH as int);
    lemma_rotate_within(o, b, SHAPE_REACH as int);
    lemma_rotate_within(o, c, SHAPE_REACH as int);
    lemma_rotate_within(o, p, SHAPE_REACH as int);
    lemma_rotate_keeps_plane(o, a, b, c, p);
    lemma_out_of_plane_is_det(
        spec_rotate(o, a),
        spec_rotate(o, b),
        spec_rotate(o, c),
        spec_rotate(o, p),
    );
    lemma_out_of_plane_is_det(
        spec_place(o, pos, a),
        spec_place(o, pos, b),
        spec_place(o, pos, c),
        spec_place(o, pos, p),
    );
}

/// Every polygon of a brick in the world is flat and has three corners or
/// more.
pub proof fn lemma_brick_polys_are_flat(brick: Brick, name: Seq<char>)
    requires
        brick.wf(),
    ensures
        polys_planar(spec_brick_polys(brick, name)),
        polys_proper(spec_brick_polys(brick, name)),
{
    let polys = spec_brick_polys(brick, name);
    if brick.visibility {
        match spec_shape_size(brick, name) {
            None => {},
            Some(size) => {
                let local = spec_shape(spec_shape_kind(name), size);
                let o = (4 * brick.direction + brick.rotation) as u8;
                lemma_shape(spec_shape_kind(name), size);
                assert forall|i: int| 0 <= i < polys.len() implies poly_planar(#[trigger] polys[i])
                    && polys[i].len() >= 3 by {
                    assert(poly_within(local[i], SHAPE_REACH as int));
                    assert(poly_planar(local[i]));
                    assert(local[i].len() >= 3);
                    assert forall|j: int| 0 <= j < polys[i].len() implies out_of_plane(
                        polys[i][0],
                        polys[i][1],
                        polys[i][2],
                        #[trigger] polys[i][j],
                    ) == 0 by {
                        assert(near(local[i][0]) && near(local[i][1]) && near(local[i][2]) && near(
                            local[i][j],
                        ));
                        lemma_place_keeps_plane(
                            o,
                            brick.position,
                            local[i][0],
                            local[i][1],
                            local[i][2],
                            local[i][j],
                        );
                        assert(out_of_plane(local[i][0], local[i][1], local[i][2], local[i][j]) == 0);
                    }
                }
            },
        }
    }
}

/// Every face that is kept has the corners of one of the polygons.
pub proof fn lemma_upward_faces_are_polys(polys: Seq<Seq<I64Vec3>>, k: int)
    requires
        0 <= k < spec_upward_faces(polys).len(),
    ensures
        exists|i: int| 0 <= i < polys.len() && spec_upward_faces(polys)[k].verts == #[trigger] polys[i],
    decreases polys.len(),
{
    if polys.len() > 0 {
        let rest = spec_upward_faces(polys.drop_last());
        let face = spec_face_of(polys.last());
        if k < rest.len() {
            lemma_upward_faces_are_polys(polys.drop_last(), k);
            let i = choose|i: int|
                0 <= i < polys.drop_last().len() && rest[k].verts == #[trigger] polys.drop_last()[i];
            assert(polys[i] == polys.drop_last()[i]);
        } else {
            assert(spec_upward_faces(polys)[k].verts == polys[polys.len() - 1]);
        }
    }
}

/// Every face of a brick is flat: all its corners lie in the plane of the
/// first three, which its normal is taken from.
pub proof fn lemma_brick_faces_are_flat(brick: Brick, name: Seq<char>, k: int)
    requires
        brick.wf(),
        0 <= k < spec_upward_faces(spec_brick_polys(brick, name)).len(),
    ensures
        poly_planar(spec_upward_faces(spec_brick_polys(brick, name))[k].verts),
{
    let polys = spec_brick_polys(brick, name);
    lemma_brick_polys_are_flat(brick, name);
    lemma_upward_faces_are_polys(polys, k);
    let i = choose|i: int|
        0 <= i < polys.len() && spec_upward_faces(polys)[k].verts == #[trigger] polys[i];
    assert(poly_planar(polys[i]));
}

/// The views of a list of faces.
pub open spec fn face_views(faces: Seq<Face>) -> Seq<FaceView> {
    Seq::new(faces.len(), |i: int| faces[i]@)
}

/// Every face of the list is well formed.
pub open spec fn faces_wf(faces: Seq<Face>) -> bool {
    forall|i: int| 0 <= i < faces.len() ==> (#[trigger] faces[i])@.wf()
}

/// Tests `faces_wf`.
pub fn faces_valid(faces: &Vec<Face>) -> (r: bool)
    ensures
        r == faces_wf(faces@),
{
    let mut i: usize = 0;
    while i < faces.len()
        invariant
            i <= faces.len(),
            forall|k: int| 0 <= k < i ==> (#[trigger] faces@[k])@.wf(),
        decreases faces.len() - i,
    {
        if !faces[i].is_valid() {
            return false;
        }
        i += 1;
    }
    true
}

fn place(o: u8, pos: (i32, i32, i32), v: I64Vec3) -> (r: I64Vec3)
    requires
        o < 24,
        near(v),
    ensures
        r == spec_place(o, pos, v),
{
    proof {
        lemma_rotate_within(o, v, SHAPE_REACH as int);
    }
    let t = rotate(o, v);
    I64Vec3 { x: t.x + pos.0 as i64, y: t.y + pos.2 as i64, z: t.z + pos.1 as i64 }
}

fn is_within(v: &I64Vec3, bound: i64) -> (r: bool)
    requires
        0 <= bound,
    ensures
        r == v.within(bound as int),
{
    -bound <= v.x && v.x <= bound && -bound <= v.y && v.y <= bound && -bound <= v.z && v.z
        <= bound
}

/// The visible faces of one brick, in the world: the polygons of its shape,
/// turned by its orientation and moved to its position, each with its normal,
/// without those that face straight down. `name` is the brick's asset name.
///
/// A corner beyond `VERTEX_LIMIT` is reported as `NumericOverflow`.
pub fn brick_faces(brick: &Brick, name: &str) -> (r: Result<Vec<Face>, GeometryError>)
    requires
        brick.wf(),
    ensures
        match r {
            Ok(faces) => {
                &&& polys_within(spec_brick_polys(*brick, name@), VERTEX_LIMIT as int)
                &&& face_views(faces@) == spec_upward_faces(spec_brick_polys(*brick, name@))
                &&& faces_wf(faces@)
                &&& faces@.len() <= usize::MAX
            },
            Err(e) => {
                &&& e == GeometryError::NumericOverflow
                &&& !polys_within(spec_brick_polys(*brick, name@), VERTEX_LIMIT as int)
            },
        },
{
    let mut out: Vec<Face> = Vec::new();
    if !brick.visibility {
        assert(face_views(out@) =~= spec_upward_faces(spec_brick_polys(*brick, name@)));
        return Ok(out);
    }
    let size = match brick.size {
        Size::Procedural(w, l, h) => UVec3 { x: w, y: h, z: l },
        Size::Empty => match default_size(name) {
            Some((w, l, h)) => UVec3 { x: w, y: h, z: l },
            None => {
                assert(face_views(out@) =~= spec_upward_faces(spec_brick_polys(*brick, name@)));
                return Ok(out);
            },
        },
    };
    let kind = shape_kind(name);
    let local = shape(kind, size);
    let o = orientation(brick.direction, brick.rotation);
    let pos = brick.position;
    let ghost shape_polys = spec_shape(kind, size);
    let ghost polys = spec_brick_polys(*brick, name@);
    assert(polys == spec_place_polys(shape_polys, o, pos));
    let mut i: usize = 0;
    while i < local.len()
        invariant
            i <= local.len(),
            o < 24,
            polys == spec_brick_polys(*brick, name@),
            polys == spec_place_polys(shape_polys, o, pos),
            fresh_faces(local@, shape_polys),
            polys_within(shape_polys, SHAPE_REACH as int),
            polys_proper(shape_polys),
            polys_within(polys.take(i as int), VERTEX_LIMIT as int),
            face_views(out@) == spec_upward_faces(polys.take(i as int)),
            faces_wf(out@),
            out@.len() <= i,
        decreases local.len() - i,
    {
        let ghost shape_poly = shape_polys[i as int];
        let ghost poly = polys[i as int];
        assert(local@[i as int]@.verts == shape_poly);
        assert(poly_within(shape_poly, SHAPE_REACH as int));
        let src = &local[i].verts;
        let mut verts: Vec<I64Vec3> = Vec::new();
        let mut j: usize = 0;
        while j < src.len()
            invariant
                j <= src.len(),
                o < 24,
                src@ == shape_poly,
                poly_within(shape_poly, SHAPE_REACH as int),
                poly.len() == shape_poly.len(),
                forall|k: int| 0 <= k < poly.len() ==> poly[k] == spec_place(o, pos, shape_poly[k]),
                verts@ == poly.take(j as int),
                poly_within(verts@, VERTEX_LIMIT as int),
                poly == polys[i as int],
                i < polys.len(),
                polys == spec_brick_polys(*brick, name@),
            decreases src.len() - j,
        {
            let v = place(o, pos, src[j]);
            if !is_within(&v, VERTEX_LIMIT) {
                assert(!poly_within(polys[i as int], VERTEX_LIMIT as int)) by {
                    assert(polys[i as int][j as int] == v);
                }
                return Err(GeometryError::NumericOverflow);
            }
            verts.push(v);
            assert(verts@ =~= poly.take(j as int + 1));
            j += 1;
        }
        assert(verts@ =~= poly);
        let mut face = Face::new(verts);
        face.calc_normal();
        assert(face@ == spec_face_of(poly));
        assert(face@.wf());
        assert(polys.take(i as int + 1).drop_last() =~= polys.take(i as int));
        assert(polys.take(i as int + 1).last() == poly);
        assert(polys_within(polys.take(i as int + 1), VERTEX_LIMIT as int)) by {
            assert forall|k: int| 0 <= k < i + 1 implies poly_within(
                #[trigger] polys.take(i as int + 1)[k],
                VERTEX_LIMIT as int,
            ) by {
                if k < i {
                    assert(polys.take(i as int + 1)[k] == polys.take(i as int)[k]);
                }
            }
        }
        let down = face.normal.x == 0 && face.normal.z == 0 && face.normal.y < 0;
        if !down {
            let ghost before = out@;
            out.push(face);
            assert(face_views(out@) =~= face_views(before).push(face@));
        }
        i += 1;
    }
    assert(polys.take(i as int) =~= polys);
    Ok(out)
}

} // verus!
