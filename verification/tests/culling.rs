use brickmesh::cover::{
    dominant_axis, opposite, point_inside_face, project_all, Point2, COPLANAR_EPSILON_INVERSE,
};
use brickmesh::faces::Face;
use brickmesh::vec3::{Axis, I64Vec3};

fn v(x: i64, y: i64, z: i64) -> I64Vec3 {
    I64Vec3::new(x, y, z)
}

fn p(x: i64, y: i64) -> Point2 {
    Point2 { x, y }
}

fn face(verts: Vec<I64Vec3>) -> Face {
    let mut f = Face::new(verts);
    f.calc_normal();
    f
}

/// A square in the plane x = `x` that faces +X, clockwise as seen from +X.
fn facing_plus_x(x: i64, y0: i64, y1: i64, z0: i64, z1: i64) -> Face {
    face(vec![v(x, y1, z1), v(x, y1, z0), v(x, y0, z0), v(x, y0, z1)])
}

/// A square in the plane x = `x` that faces -X.
fn facing_minus_x(x: i64, y0: i64, y1: i64, z0: i64, z1: i64) -> Face {
    face(vec![v(x, y1, z0), v(x, y1, z1), v(x, y0, z1), v(x, y0, z0)])
}

#[test]
fn the_squares_face_where_they_should() {
    assert_eq!(facing_plus_x(1, -1, 1, -1, 1).normal, v(4, 0, 0));
    assert_eq!(facing_minus_x(1, -1, 1, -1, 1).normal, v(-4, 0, 0));
}

#[test]
fn opposite_directions() {
    assert!(opposite(&v(4, 0, 0), &v(-4, 0, 0)));
    assert!(opposite(&v(4, 0, 0), &v(-100, 0, 0)));
    assert!(opposite(&v(1, 2, 3), &v(-2, -4, -6)));
    assert!(!opposite(&v(4, 0, 0), &v(4, 0, 0)));
    assert!(!opposite(&v(4, 0, 0), &v(0, -4, 0)));
    assert!(!opposite(&v(1, 2, 3), &v(-2, -4, -7)));
    assert!(!opposite(&v(0, 0, 0), &v(0, 0, 0)));
    assert!(!opposite(&v(0, 0, 0), &v(-1, 0, 0)));
    let big = 0x2000_0000_0000_0000;
    assert!(opposite(&v(big, -big, big), &v(-big, big, -big)));
    assert!(!opposite(&v(big, -big, big), &v(-big, big, -big + 1)));
}

#[test]
fn dominant_axis_prefers_x_then_y() {
    assert_eq!(dominant_axis(&v(3, 2, 1)), Axis::X);
    assert_eq!(dominant_axis(&v(-3, 2, 1)), Axis::X);
    assert_eq!(dominant_axis(&v(1, -3, 2)), Axis::Y);
    assert_eq!(dominant_axis(&v(1, 2, -3)), Axis::Z);
    assert_eq!(dominant_axis(&v(2, -2, 2)), Axis::X);
    assert_eq!(dominant_axis(&v(1, 2, -2)), Axis::Y);
    assert_eq!(dominant_axis(&v(0, 0, 0)), Axis::X);
}

#[test]
fn projection_drops_one_axis() {
    let pts = vec![v(1, 2, 3), v(-4, 5, -6)];
    assert_eq!(project_all(&pts, Axis::X, false), vec![p(2, 3), p(5, -6)]);
    assert_eq!(project_all(&pts, Axis::Y, false), vec![p(3, 1), p(-6, -4)]);
    assert_eq!(project_all(&pts, Axis::Z, false), vec![p(1, 2), p(-4, 5)]);
    assert_eq!(project_all(&pts, Axis::X, true), vec![p(-2, 3), p(-5, -6)]);
    assert_eq!(project_all(&pts, Axis::Z, true), vec![p(-1, 2), p(4, 5)]);
}

#[test]
fn to_2d_of_opposite_faces_is_one_frame() {
    let f = facing_plus_x(1, -1, 1, -1, 1);
    let g = facing_minus_x(1, -3, 3, -2, 2);
    assert_eq!(f.to_2d(false), vec![p(1, 1), p(1, -1), p(-1, -1), p(-1, 1)]);
    assert_eq!(g.to_2d(true), vec![p(3, -2), p(3, 2), p(-3, 2), p(-3, -2)]);
    assert_eq!(g.to_2d(false), vec![p(-3, -2), p(-3, 2), p(3, 2), p(3, -2)]);
    assert_eq!(f.to_2d(true), vec![p(-1, 1), p(-1, -1), p(1, -1), p(1, 1)]);
}

#[test]
fn point_in_a_square() {
    let square = vec![p(0, 0), p(4, 0), p(4, 4), p(0, 4)];
    assert!(point_inside_face(p(2, 2), &square));
    assert!(point_inside_face(p(1, 3), &square));
    assert!(!point_inside_face(p(5, 2), &square));
    assert!(!point_inside_face(p(-1, 2), &square));
    assert!(!point_inside_face(p(2, 5), &square));
    assert!(!point_inside_face(p(2, -1), &square));
}

#[test]
fn the_outline_counts_as_inside() {
    let square = vec![p(0, 0), p(4, 0), p(4, 4), p(0, 4)];
    for corner in &square {
        assert!(point_inside_face(*corner, &square));
    }
    assert!(point_inside_face(p(2, 0), &square));
    assert!(point_inside_face(p(4, 1), &square));
    assert!(point_inside_face(p(3, 4), &square));
    assert!(point_inside_face(p(0, 2), &square));
    // on the line of an edge but past its end
    assert!(!point_inside_face(p(5, 0), &square));
    assert!(!point_inside_face(p(0, -1), &square));
    assert!(!point_inside_face(p(5, 4), &square));
}

#[test]
fn point_in_a_triangle_with_a_slanted_edge() {
    let triangle = vec![p(0, 0), p(6, 0), p(0, 3)];
    assert!(point_inside_face(p(1, 1), &triangle));
    assert!(point_inside_face(p(2, 2), &triangle)); // on the slanted edge
    assert!(point_inside_face(p(4, 1), &triangle)); // on the slanted edge
    assert!(!point_inside_face(p(3, 2), &triangle));
    assert!(!point_inside_face(p(5, 1), &triangle));
    assert!(point_inside_face(p(3, 1), &triangle));
}

#[test]
fn point_level_with_a_corner() {
    // the ray from the point runs through a corner of the outline
    let diamond = vec![p(0, 2), p(2, 0), p(4, 2), p(2, 4)];
    assert!(point_inside_face(p(1, 2), &diamond));
    assert!(!point_inside_face(p(-1, 2), &diamond));
    assert!(!point_inside_face(p(5, 2), &diamond));
    assert!(!point_inside_face(p(0, 0), &diamond));
    assert!(!point_inside_face(p(0, 4), &diamond));
    assert!(point_inside_face(p(2, 2), &diamond));
}

#[test]
fn point_in_an_outline_wound_either_way() {
    let a = vec![p(0, 0), p(4, 0), p(4, 4), p(0, 4)];
    let b = vec![p(0, 4), p(4, 4), p(4, 0), p(0, 0)];
    for x in -1..6 {
        for y in -1..6 {
            assert_eq!(point_inside_face(p(x, y), &a), point_inside_face(p(x, y), &b));
            assert_eq!(point_inside_face(p(x, y), &a), (0..=4).contains(&x) && (0..=4).contains(&y));
        }
    }
}

#[test]
fn equal_faces_back_to_back_cover_each_other() {
    let f = facing_plus_x(1, -1, 1, -1, 1);
    let g = facing_minus_x(1, -1, 1, -1, 1);
    assert!(f.inside(&g));
    assert!(g.inside(&f));
}

#[test]
fn a_larger_face_covers_a_smaller_one_and_not_the_other_way() {
    let small = facing_plus_x(1, -1, 1, -1, 1);
    let large = facing_minus_x(1, -3, 3, -2, 2);
    assert!(small.inside(&large));
    assert!(!large.inside(&small));
}

#[test]
fn a_face_that_sticks_out_is_not_covered() {
    let f = facing_plus_x(1, -1, 1, -1, 1);
    let shifted = facing_minus_x(1, 0, 2, -1, 1);
    assert!(!f.inside(&shifted));
    assert!(!shifted.inside(&f));
    let touching_at_an_edge = facing_minus_x(1, 1, 3, -1, 1);
    assert!(!f.inside(&touching_at_an_edge));
}

#[test]
fn faces_that_look_the_same_way_do_not_cover() {
    let f = facing_plus_x(1, -1, 1, -1, 1);
    let g = facing_plus_x(1, -3, 3, -3, 3);
    assert!(!f.inside(&g));
}

#[test]
fn faces_in_different_planes_do_not_cover() {
    let f = facing_plus_x(1, -1, 1, -1, 1);
    let g = facing_minus_x(2, -3, 3, -3, 3);
    assert!(!f.inside(&g));
    assert!(!f.coincident_planes(&g));
    let h = facing_minus_x(1, -3, 3, -3, 3);
    assert!(f.coincident_planes(&h));
}

#[test]
fn faces_at_an_angle_do_not_cover() {
    let f = facing_plus_x(1, -1, 1, -1, 1);
    let up = face(vec![v(-3, 1, -3), v(3, 1, -3), v(3, 1, 3), v(-3, 1, 3)]);
    assert_eq!(up.normal, v(0, 36, 0));
    assert!(!f.inside(&up));
}

#[test]
fn slopes_cover_each_other() {
    // the slope of a wedge and the same slope seen from below
    let f = face(vec![v(-5, 6, 5), v(-5, 6, -5), v(5, -4, -5), v(5, -4, 5)]);
    let g = face(vec![v(-5, 6, -5), v(-5, 6, 5), v(5, -4, 5), v(5, -4, -5)]);
    assert_eq!(f.normal, v(100, 100, 0));
    assert_eq!(g.normal, v(-100, -100, 0));
    assert!(f.inside(&g));
    assert!(g.inside(&f));
    let part = face(vec![v(-5, 6, 0), v(-5, 6, -5), v(0, 1, -5), v(0, 1, 0)]);
    assert!(part.inside(&g));
    assert!(!g.inside(&part));
}

#[test]
fn a_plane_within_the_tolerance_counts_as_the_same() {
    // the plane 1 x + 20000 y = 0 against the same plane moved by one along
    // X: the distance is 1 / sqrt(1 + 20000^2), less than one part in 10000
    let f = face(vec![v(0, 0, 0), v(20000, -1, 0), v(0, 0, 1)]);
    assert_eq!(f.normal, v(1, 20000, 0));
    let g = face(vec![v(1, 0, 0), v(20001, -1, 0), v(1, 0, 1)]);
    assert!(f.coincident_planes(&g));
    // the plane 1 x + 5000 y = 0 moved by one along X is further away
    let f = face(vec![v(0, 0, 0), v(5000, -1, 0), v(0, 0, 1)]);
    assert_eq!(f.normal, v(1, 5000, 0));
    let g = face(vec![v(1, 0, 0), v(5001, -1, 0), v(1, 0, 1)]);
    assert!(!f.coincident_planes(&g));
    assert_eq!(COPLANAR_EPSILON_INVERSE, 10_000);
}

#[test]
fn planes_far_apart_do_not_overflow() {
    let m = 0x2000_0000;
    let f = face(vec![v(-m, -m, -m), v(-m, m, -m), v(m, m, -m)]);
    let g = face(vec![v(-m, -m, m), v(m, m, m), v(-m, m, m)]);
    assert!(!f.coincident_planes(&g));
    assert!(!g.coincident_planes(&f));
    assert!(f.coincident_planes(&f));
    assert!(!f.inside(&g));
}

#[test]
fn face_validity_is_tested() {
    let f = facing_plus_x(1, -1, 1, -1, 1);
    assert!(f.is_valid());
    let mut wrong_normal = facing_plus_x(1, -1, 1, -1, 1);
    wrong_normal.normal = v(1, 0, 0);
    assert!(!wrong_normal.is_valid());
    assert!(!Face::new(vec![v(0, 0, 0), v(1, 0, 0)]).is_valid());
    let m = 0x2000_0000;
    assert!(!Face::new(vec![v(0, 0, 0), v(0, 0, 0), v(0, 0, 0), v(0, m + 1, 0)]).is_valid());
    assert!(Face::new(vec![v(0, 0, 0), v(0, 0, 0), v(0, 0, 0), v(0, m, 0)]).is_valid());
    assert!(brickmesh::builder::faces_valid(&vec![f, facing_minus_x(1, -1, 1, -1, 1)]));
    assert!(!brickmesh::builder::faces_valid(&vec![wrong_normal]));
    assert!(brickmesh::cover::outline_valid(&vec![p(m, -m), p(0, 0)]));
    assert!(!brickmesh::cover::outline_valid(&vec![p(m, -m), p(0, m + 1)]));
}
