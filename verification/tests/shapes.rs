use brickmesh::brick::{Brick, BrickColor, Size};
use brickmesh::builder::{brick_faces, shape, shape_kind, ShapeKind};
use brickmesh::error::GeometryError;
use brickmesh::faces::{
    default_wedge, microwedge_corner, microwedge_half_inner_corner,
    microwedge_half_inner_corner_inverted, microwedge_half_outer_corner, microwedge_inner_corner,
    microwedge_outer_corner, microwedge_triangle_corner, ramp, ramp_corner, ramp_crest,
    ramp_inner_corner, side_wedge, standard_brick, Face, VERTEX_LIMIT,
};
use brickmesh::orient::{orientation, rotate};
use brickmesh::vec3::{I64Vec3, UVec3};

fn v(x: i64, y: i64, z: i64) -> I64Vec3 {
    I64Vec3::new(x, y, z)
}

fn brick(position: (i32, i32, i32), size: Size, direction: u8, rotation: u8) -> Brick {
    Brick {
        asset_name_index: 0,
        size,
        position,
        direction,
        rotation,
        visibility: true,
        material_index: 0,
        color: BrickColor::Index(0),
        owner_index: 0,
    }
}

fn verts(faces: &Vec<Face>) -> Vec<Vec<I64Vec3>> {
    faces.iter().map(|f| f.verts.clone()).collect()
}

#[test]
fn standard_brick_is_the_six_sides_of_the_box() {
    let faces = standard_brick(UVec3::new(1, 2, 3));
    assert_eq!(
        verts(&faces),
        vec![
            vec![v(-1, 2, -3), v(1, 2, -3), v(1, 2, 3), v(-1, 2, 3)],
            vec![v(-1, -2, 3), v(1, -2, 3), v(1, -2, -3), v(-1, -2, -3)],
            vec![v(-1, 2, 3), v(1, 2, 3), v(1, -2, 3), v(-1, -2, 3)],
            vec![v(1, 2, -3), v(-1, 2, -3), v(-1, -2, -3), v(1, -2, -3)],
            vec![v(-1, 2, -3), v(-1, 2, 3), v(-1, -2, 3), v(-1, -2, -3)],
            vec![v(1, 2, 3), v(1, 2, -3), v(1, -2, -3), v(1, -2, 3)],
        ]
    );
    for f in &faces {
        assert_eq!(f.normal, v(0, 0, 0));
        assert!(!f.hidden);
    }
}

#[test]
fn default_wedge_slopes_to_a_lip_of_two() {
    let faces = default_wedge(UVec3::new(5, 6, 5));
    assert_eq!(faces.len(), 6);
    assert_eq!(faces[0].verts, vec![v(-5, 6, 5), v(-5, 6, -5), v(5, -4, -5), v(5, -4, 5)]);
    assert_eq!(faces[2].verts, vec![v(5, -4, 5), v(5, -4, -5), v(5, -6, -5), v(5, -6, 5)]);
    assert_eq!(faces[5].verts, vec![v(-5, -6, 5), v(5, -6, 5), v(5, -6, -5), v(-5, -6, -5)]);
}

#[test]
fn ramp_has_a_flat_strip_of_ten() {
    let faces = ramp(UVec3::new(20, 6, 5));
    assert_eq!(faces.len(), 7);
    assert_eq!(faces[0].verts, vec![v(-20, 6, -5), v(-10, 6, -5), v(-10, 6, 5), v(-20, 6, 5)]);
    assert_eq!(faces[5].verts, vec![v(-10, 6, 5), v(-10, 6, -5), v(20, -4, -5), v(20, -4, 5)]);
    assert_eq!(
        faces[2].verts,
        vec![v(-20, 6, 5), v(-10, 6, 5), v(20, -4, 5), v(20, -6, 5), v(-20, -6, 5)]
    );
}

#[test]
fn ramp_inner_corner_uses_both_offsets() {
    let faces = ramp_inner_corner(UVec3::new(20, 6, 20));
    assert_eq!(faces.len(), 9);
    assert_eq!(faces[1].verts, vec![v(-10, 6, -20), v(20, 6, -20), v(20, 6, -10), v(-10, 6, -10)]);
    assert_eq!(faces[2].verts, vec![v(-10, 6, 20), v(-10, 6, -10), v(20, -4, 20)]);
}

#[test]
fn ramp_crest_has_a_ridge_in_the_middle() {
    let faces = ramp_crest(UVec3::new(10, 6, 5));
    assert_eq!(faces.len(), 7);
    assert_eq!(faces[3].verts, vec![v(0, 6, -5), v(0, 6, 5), v(-10, -4, 5), v(-10, -4, -5)]);
    assert_eq!(faces[4].verts, vec![v(0, 6, 5), v(0, 6, -5), v(10, -4, -5), v(10, -4, 5)]);
}

#[test]
fn every_shape_has_its_number_of_faces() {
    let s = UVec3::new(10, 4, 10);
    assert_eq!(default_wedge(s).len(), 6);
    assert_eq!(ramp_inner_corner(s).len(), 9);
    assert_eq!(ramp_crest(s).len(), 7);
    assert_eq!(ramp_corner(s).len(), 8);
    assert_eq!(microwedge_inner_corner(s).len(), 7);
    assert_eq!(microwedge_corner(s).len(), 5);
    assert_eq!(microwedge_half_outer_corner(s).len(), 5);
    assert_eq!(microwedge_half_inner_corner_inverted(s).len(), 4);
    assert_eq!(microwedge_half_inner_corner(s).len(), 4);
    assert_eq!(microwedge_outer_corner(s).len(), 7);
    assert_eq!(microwedge_triangle_corner(s).len(), 4);
    assert_eq!(ramp(s).len(), 7);
    assert_eq!(side_wedge(s).len(), 5);
    assert_eq!(standard_brick(s).len(), 6);
}

#[test]
fn every_face_of_every_shape_has_three_corners_or_more() {
    let kinds = [
        ShapeKind::DefaultWedge,
        ShapeKind::RampInnerCorner,
        ShapeKind::RampCrest,
        ShapeKind::RampCorner,
        ShapeKind::MicroWedgeInnerCorner,
        ShapeKind::MicroWedgeCorner,
        ShapeKind::MicroWedgeHalfOuterCorner,
        ShapeKind::MicroWedgeHalfInnerCornerInverted,
        ShapeKind::MicroWedgeHalfInnerCorner,
        ShapeKind::MicroWedgeOuterCorner,
        ShapeKind::MicroWedgeTriangleCorner,
        ShapeKind::Ramp,
        ShapeKind::SideWedge,
        ShapeKind::Standard,
    ];
    for kind in kinds {
        for f in shape(kind, UVec3::new(u32::MAX, 0, 7)) {
            assert!(f.verts.len() >= 3);
            for p in &f.verts {
                assert!(p.x.abs() <= u32::MAX as i64 + 10);
                assert!(p.y.abs() <= 2);
                assert!(p.z.abs() <= 17);
            }
        }
    }
}

#[test]
fn shape_of_an_asset_name() {
    assert_eq!(shape_kind("PB_DefaultWedge"), ShapeKind::DefaultWedge);
    assert_eq!(shape_kind("PB_DefaultRampInnerCorner"), ShapeKind::RampInnerCorner);
    assert_eq!(shape_kind("PB_DefaultRampCrest"), ShapeKind::RampCrest);
    assert_eq!(shape_kind("PB_DefaultRampCorner"), ShapeKind::RampCorner);
    assert_eq!(shape_kind("PB_DefaultMicroWedgeInnerCorner"), ShapeKind::MicroWedgeInnerCorner);
    assert_eq!(shape_kind("PB_DefaultMicroWedgeCorner"), ShapeKind::MicroWedgeCorner);
    assert_eq!(
        shape_kind("PB_DefaultMicroWedgeHalfOuterCorner"),
        ShapeKind::MicroWedgeHalfOuterCorner
    );
    assert_eq!(
        shape_kind("PB_DefaultMicroWedgeHalfInnerCornerInverted"),
        ShapeKind::MicroWedgeHalfInnerCornerInverted
    );
    assert_eq!(
        shape_kind("PB_DefaultMicroWedgeHalfInnerCorner"),
        ShapeKind::MicroWedgeHalfInnerCorner
    );
    assert_eq!(shape_kind("PB_DefaultMicroWedgeOuterCorner"), ShapeKind::MicroWedgeOuterCorner);
    assert_eq!(
        shape_kind("PB_DefaultMicroWedgeTriangleCorner"),
        ShapeKind::MicroWedgeTriangleCorner
    );
    assert_eq!(shape_kind("PB_DefaultRamp"), ShapeKind::Ramp);
    assert_eq!(shape_kind("PB_DefaultMicroWedge"), ShapeKind::SideWedge);
    assert_eq!(shape_kind("PB_DefaultSideWedgeTile"), ShapeKind::SideWedge);
    assert_eq!(shape_kind("PB_DefaultSideWedge"), ShapeKind::SideWedge);
    assert_eq!(shape_kind("PB_DefaultBrick"), ShapeKind::Standard);
    assert_eq!(shape_kind("PB_DefaultTile"), ShapeKind::Standard);
    assert_eq!(shape_kind(""), ShapeKind::Standard);
    assert_eq!(shape_kind("pb_defaultwedge"), ShapeKind::Standard);
}

#[test]
fn normal_of_a_clockwise_face_points_outward() {
    let faces = standard_brick(UVec3::new(1, 1, 1));
    let expected = [v(0, 4, 0), v(0, -4, 0), v(0, 0, 4), v(0, 0, -4), v(-4, 0, 0), v(4, 0, 0)];
    for (mut f, n) in faces.into_iter().zip(expected) {
        f.calc_normal();
        assert_eq!(f.normal, n);
    }
}

#[test]
fn normal_of_a_slope() {
    let mut f = Face::new(vec![v(-5, 6, 5), v(-5, 6, -5), v(5, -4, -5), v(5, -4, 5)]);
    f.calc_normal();
    // (b - a) x (c - a) = (0, 0, -10) x (10, -10, -10) = (-100, -100, 0), negated
    assert_eq!(f.normal, v(100, 100, 0));
}

#[test]
fn normal_at_the_limit_of_the_corners() {
    let m = VERTEX_LIMIT;
    let mut f = Face::new(vec![v(-m, -m, 0), v(-m, m, 0), v(m, m, 0)]);
    f.calc_normal();
    assert_eq!(f.normal, v(0, 0, 4 * m * m));
}

#[test]
fn positions_are_a_fan_about_the_first_corner() {
    let f = Face::new(vec![v(0, 0, 0), v(1, 0, 0), v(2, 1, 0), v(1, 2, 0), v(0, 1, 0)]);
    assert_eq!(
        f.positions(),
        vec![
            [0, 0, 0],
            [2, 1, 0],
            [1, 0, 0],
            [0, 0, 0],
            [1, 2, 0],
            [2, 1, 0],
            [0, 0, 0],
            [0, 1, 0],
            [1, 2, 0],
        ]
    );
    let t = Face::new(vec![v(0, 0, 0), v(1, 0, 0), v(0, 1, 0)]);
    assert_eq!(t.positions(), vec![[0, 0, 0], [0, 1, 0], [1, 0, 0]]);
}

#[test]
fn orientation_number_is_four_directions_plus_rotation() {
    assert_eq!(orientation(0, 0), 0);
    assert_eq!(orientation(0, 3), 3);
    assert_eq!(orientation(4, 0), 16);
    assert_eq!(orientation(5, 3), 23);
    assert_eq!(orientation(2, 1), 9);
}

#[test]
fn rotate_by_each_orientation() {
    let p = v(1, 2, 3);
    let expected = [
        v(2, 1, -3),
        v(2, -3, -1),
        v(2, -1, 3),
        v(2, 3, 1),
        v(-2, 1, 3),
        v(-2, -3, 1),
        v(-2, -1, -3),
        v(-2, 3, -1),
        v(3, 1, 2),
        v(1, -3, 2),
        v(-3, -1, 2),
        v(-1, 3, 2),
        v(-3, 1, -2),
        v(-1, -3, -2),
        v(3, -1, -2),
        v(1, 3, -2),
        v(1, 2, 3),
        v(-3, 2, 1),
        v(-1, 2, -3),
        v(3, 2, -1),
        v(-1, -2, 3),
        v(3, -2, 1),
        v(1, -2, -3),
        v(-3, -2, -1),
    ];
    for o in 0..24u8 {
        assert_eq!(rotate(o, p), expected[o as usize]);
    }
}

#[test]
fn rotations_keep_length_and_handedness() {
    let cross = |a: I64Vec3, b: I64Vec3| {
        v(a.y * b.z - a.z * b.y, a.z * b.x - a.x * b.z, a.x * b.y - a.y * b.x)
    };
    let (a, b) = (v(1, 2, 3), v(-4, 5, 7));
    for o in 0..24u8 {
        let (ra, rb) = (rotate(o, a), rotate(o, b));
        assert_eq!(ra.x * ra.x + ra.y * ra.y + ra.z * ra.z, 14);
        assert_eq!(ra.x * rb.x + ra.y * rb.y + ra.z * rb.z, -4 + 10 + 21);
        assert_eq!(cross(ra, rb), rotate(o, cross(a, b)));
    }
}

#[test]
fn upright_brick_loses_its_bottom() {
    let b = brick((10, 20, 30), Size::Procedural(5, 5, 2), 4, 0);
    let faces = brick_faces(&b, "PB_DefaultBrick").unwrap();
    assert_eq!(faces.len(), 5);
    // the top: size is (5, 2, 5) in world order, the brick stands at (10, 30, 20)
    assert_eq!(faces[0].verts, vec![v(5, 32, 15), v(15, 32, 15), v(15, 32, 25), v(5, 32, 25)]);
    assert_eq!(faces[0].normal, v(0, 100, 0));
    assert_eq!(faces[1].normal, v(0, 0, 40));
    assert_eq!(faces[2].normal, v(0, 0, -40));
    assert_eq!(faces[3].normal, v(-40, 0, 0));
    assert_eq!(faces[4].normal, v(40, 0, 0));
    for f in &faces {
        assert!(!f.hidden);
    }
}

#[test]
fn upside_down_brick_loses_its_top() {
    let b = brick((0, 0, 0), Size::Procedural(5, 5, 2), 5, 0);
    let faces = brick_faces(&b, "PB_DefaultBrick").unwrap();
    assert_eq!(faces.len(), 5);
    // orientation 20 turns (x, y, z) into (-x, -y, z): the shape's bottom is now on top
    assert_eq!(faces[0].verts, vec![v(5, 2, 5), v(-5, 2, 5), v(-5, 2, -5), v(5, 2, -5)]);
    assert_eq!(faces[0].normal, v(0, 100, 0));
}

#[test]
fn brick_on_its_side() {
    let b = brick((0, 0, 0), Size::Procedural(1, 2, 3), 0, 0);
    let faces = brick_faces(&b, "PB_DefaultBrick").unwrap();
    // orientation 0 turns (x, y, z) into (y, x, -z); size in world order is (1, 3, 2)
    assert_eq!(faces.len(), 5);
    for f in &faces {
        for p in &f.verts {
            assert_eq!((p.x.abs(), p.y.abs(), p.z.abs()), (3, 1, 2));
        }
    }
}

#[test]
fn invisible_brick_has_no_faces() {
    let mut b = brick((0, 0, 0), Size::Procedural(5, 5, 2), 4, 0);
    b.visibility = false;
    assert_eq!(brick_faces(&b, "PB_DefaultBrick").unwrap().len(), 0);
}

#[test]
fn static_brick_takes_its_size_from_the_catalog() {
    let b = brick((0, 0, 0), Size::Empty, 4, 0);
    let faces = brick_faces(&b, "B_2x4_Door_Frame").unwrap();
    assert_eq!(faces.len(), 5);
    assert_eq!(faces[0].verts, vec![v(-10, 36, -20), v(10, 36, -20), v(10, 36, 20), v(-10, 36, 20)]);
}

#[test]
fn static_brick_of_an_unknown_asset_has_no_faces() {
    let b = brick((0, 0, 0), Size::Empty, 4, 0);
    assert_eq!(brick_faces(&b, "B_No_Such_Brick").unwrap().len(), 0);
    assert_eq!(brick_faces(&b, "PB_DefaultBrick").unwrap().len(), 0);
}

#[test]
fn wedge_brick_keeps_its_slope() {
    let b = brick((0, 0, 0), Size::Procedural(5, 5, 6), 4, 0);
    let faces = brick_faces(&b, "PB_DefaultWedge").unwrap();
    assert_eq!(faces.len(), 5);
    assert_eq!(faces[0].normal, v(100, 100, 0));
}

#[test]
fn corner_beyond_the_limit_is_reported() {
    let b = brick((0, 0, 0), Size::Procedural(VERTEX_LIMIT as u32 + 1, 1, 1), 4, 0);
    assert_eq!(brick_faces(&b, "PB_DefaultBrick").err(), Some(GeometryError::NumericOverflow));
    let b = brick((i32::MAX, 0, 0), Size::Procedural(1, 1, 1), 4, 0);
    assert_eq!(brick_faces(&b, "PB_DefaultBrick").err(), Some(GeometryError::NumericOverflow));
    let b = brick((0, 0, 0), Size::Procedural(VERTEX_LIMIT as u32, 1, 1), 4, 0);
    assert!(brick_faces(&b, "PB_DefaultBrick").is_ok());
    // the ramp's strip of ten reaches past the limit
    let b = brick((0, 0, 0), Size::Procedural(1, VERTEX_LIMIT as u32, 1), 4, 0);
    assert!(brick_faces(&b, "PB_DefaultRamp").is_ok());
    let b = brick((VERTEX_LIMIT as i32 - 2, 0, 0), Size::Procedural(1, 1, 1), 4, 0);
    assert!(brick_faces(&b, "PB_DefaultBrick").is_ok());
    assert_eq!(brick_faces(&b, "PB_DefaultRamp").err(), Some(GeometryError::NumericOverflow));
}
