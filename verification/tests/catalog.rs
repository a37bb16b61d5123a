use brickmesh::faces::{
    default_wedge, microwedge_corner, microwedge_half_inner_corner,
    microwedge_half_inner_corner_inverted, microwedge_half_outer_corner, microwedge_inner_corner,
    microwedge_outer_corner, microwedge_triangle_corner, ramp, ramp_corner, ramp_crest,
    ramp_inner_corner, side_wedge, standard_brick, Face,
};
use brickmesh::vec3::UVec3;

fn corners(faces: Vec<Face>) -> Vec<Vec<[i64; 3]>> {
    faces.iter().map(|f| f.verts.iter().map(|v| [v.x, v.y, v.z]).collect()).collect()
}

fn size() -> UVec3 {
    UVec3::new(3, 5, 7)
}

#[test]
fn corners_of_default_wedge() {
    assert_eq!(
        corners(default_wedge(size())),
        vec![
            vec![[-3, 5, 7], [-3, 5, -7], [3, -3, -7], [3, -3, 7]],
            vec![[-3, 5, 7], [3, -3, 7], [3, -5, 7], [-3, -5, 7]],
            vec![[3, -3, 7], [3, -3, -7], [3, -5, -7], [3, -5, 7]],
            vec![[-3, 5, -7], [-3, 5, 7], [-3, -5, 7], [-3, -5, -7]],
            vec![[-3, 5, -7], [-3, -5, -7], [3, -5, -7], [3, -3, -7]],
            vec![[-3, -5, 7], [3, -5, 7], [3, -5, -7], [-3, -5, -7]],
        ]
    );
}

#[test]
fn corners_of_ramp_inner_corner() {
    assert_eq!(
        corners(ramp_inner_corner(size())),
        vec![
            vec![[-3, 5, 7], [-3, 5, -7], [7, 5, -7], [7, 5, 7]],
            vec![[7, 5, -7], [3, 5, -7], [3, 5, 3], [7, 5, 3]],
            vec![[7, 5, 7], [7, 5, 3], [3, -3, 7]],
            vec![[7, 5, 3], [3, 5, 3], [3, -3, 7]],
            vec![[-3, 5, 7], [7, 5, 7], [3, -3, 7], [3, -5, 7], [-3, -5, 7]],
            vec![[3, 5, 3], [3, 5, -7], [3, -5, -7], [3, -5, 7], [3, -3, 7]],
            vec![[-3, 5, -7], [-3, 5, 7], [-3, -5, 7], [-3, -5, -7]],
            vec![[3, 5, -7], [-3, 5, -7], [-3, -5, -7], [3, -5, -7]],
            vec![[-3, -5, 7], [3, -5, 7], [3, -5, -7], [-3, -5, -7]],
        ]
    );
}

#[test]
fn corners_of_ramp_crest() {
    assert_eq!(
        corners(ramp_crest(size())),
        vec![
            vec![[0, 5, 7], [3, -3, 7], [3, -5, 7], [-3, -5, 7], [-3, -3, 7]],
            vec![[-3, -3, -7], [-3, -3, 7], [-3, -5, 7], [-3, -5, -7]],
            vec![[3, -3, 7], [3, -3, -7], [3, -5, -7], [3, -5, 7]],
            vec![[0, 5, -7], [0, 5, 7], [-3, -3, 7], [-3, -3, -7]],
            vec![[0, 5, 7], [0, 5, -7], [3, -3, -7], [3, -3, 7]],
            vec![[0, 5, -7], [-3, -3, -7], [-3, -5, -7], [3, -5, -7], [3, -3, -7]],
            vec![[-3, -5, 7], [3, -5, 7], [3, -5, -7], [-3, -5, -7]],
        ]
    );
}

#[test]
fn corners_of_ramp_corner() {
    assert_eq!(
        corners(ramp_corner(size())),
        vec![
            vec![[-3, 5, -7], [7, 5, -7], [7, 5, 3], [-3, 5, 3]],
            vec![[-3, 5, 3], [7, 5, 3], [3, -3, 7], [-3, -3, 7]],
            vec![[7, 5, 3], [7, 5, -7], [3, -3, -7], [3, -3, 7]],
            vec![[-3, -3, 7], [3, -3, 7], [3, -5, 7], [-3, -5, 7]],
            vec![[3, -3, 7], [3, -3, -7], [3, -5, -7], [3, -5, 7]],
            vec![[-3, 5, -7], [-3, 5, 3], [-3, -3, 7], [-3, -5, 7], [-3, -5, -7]],
            vec![[7, 5, -7], [-3, 5, -7], [-3, -5, -7], [3, -5, -7], [3, -3, -7]],
            vec![[-3, -5, 7], [3, -5, 7], [3, -5, -7], [-3, -5, -7]],
        ]
    );
}

#[test]
fn corners_of_microwedge_inner_corner() {
    assert_eq!(
        corners(microwedge_inner_corner(size())),
        vec![
            vec![[-3, 5, -7], [3, -5, 7], [-3, 5, 7]],
            vec![[-3, 5, -7], [3, 5, -7], [3, -5, 7]],
            vec![[-3, 5, 7], [3, -5, 7], [-3, -5, 7]],
            vec![[-3, 5, -7], [-3, 5, 7], [-3, -5, 7], [-3, -5, -7]],
            vec![[3, 5, -7], [3, -5, -7], [3, -5, 7]],
            vec![[3, 5, -7], [-3, 5, -7], [-3, -5, -7], [3, -5, -7]],
            vec![[-3, -5, 7], [3, -5, 7], [3, -5, -7], [-3, -5, -7]],
        ]
    );
}

#[test]
fn corners_of_microwedge_corner() {
    assert_eq!(
        corners(microwedge_corner(size())),
        vec![
            vec![[-3, 5, -7], [3, -5, 7], [-3, -5, 7]],
            vec![[-3, 5, -7], [3, -5, -7], [3, -5, 7]],
            vec![[-3, 5, -7], [-3, -5, 7], [-3, -5, -7]],
            vec![[-3, 5, -7], [-3, -5, -7], [3, -5, -7]],
            vec![[-3, -5, 7], [3, -5, 7], [3, -5, -7], [-3, -5, -7]],
        ]
    );
}

#[test]
fn corners_of_microwedge_half_outer_corner() {
    assert_eq!(
        corners(microwedge_half_outer_corner(size())),
        vec![
            vec![[-3, 5, 7], [3, 5, -7], [3, -5, -7], [-3, -5, 7]],
            vec![[3, 5, -7], [-3, 5, 7], [-3, -5, -7]],
            vec![[-3, 5, 7], [-3, -5, 7], [-3, -5, -7]],
            vec![[3, 5, -7], [-3, -5, -7], [3, -5, -7]],
            vec![[-3, -5, 7], [3, -5, -7], [-3, -5, -7]],
        ]
    );
}

#[test]
fn corners_of_microwedge_half_inner_corner_inverted() {
    assert_eq!(
        corners(microwedge_half_inner_corner_inverted(size())),
        vec![
            vec![[3, 5, -7], [-3, -5, 7], [-3, -5, -7]],
            vec![[3, 5, -7], [3, -5, -7], [-3, -5, 7]],
            vec![[3, 5, -7], [-3, -5, -7], [3, -5, -7]],
            vec![[-3, -5, 7], [3, -5, -7], [-3, -5, -7]],
        ]
    );
}

#[test]
fn corners_of_microwedge_half_inner_corner() {
    assert_eq!(
        corners(microwedge_half_inner_corner(size())),
        vec![
            vec![[-3, 5, 7], [3, -5, -7], [-3, -5, 7]],
            vec![[-3, 5, 7], [-3, -5, 7], [-3, -5, -7]],
            vec![[-3, -5, -7], [3, -5, -7], [-3, 5, 7]],
            vec![[-3, -5, 7], [3, -5, -7], [-3, -5, -7]],
        ]
    );
}

#[test]
fn corners_of_microwedge_outer_corner() {
    assert_eq!(
        corners(microwedge_outer_corner(size())),
        vec![
            vec![[-3, 5, 7], [3, 5, -7], [3, -5, 7]],
            vec![[-3, 5, -7], [3, 5, -7], [-3, 5, 7]],
            vec![[-3, 5, 7], [3, -5, 7], [-3, -5, 7]],
            vec![[3, 5, -7], [3, -5, -7], [3, -5, 7]],
            vec![[3, 5, -7], [-3, 5, -7], [-3, -5, -7], [3, -5, -7]],
            vec![[-3, 5, -7], [-3, 5, 7], [-3, -5, 7], [-3, -5, -7]],
            vec![[-3, -5, 7], [3, -5, 7], [3, -5, -7], [-3, -5, -7]],
        ]
    );
}

#[test]
fn corners_of_microwedge_triangle_corner() {
    assert_eq!(
        corners(microwedge_triangle_corner(size())),
        vec![
            vec![[-3, 5, -7], [-3, -5, 7], [-3, -5, -7]],
            vec![[-3, 5, -7], [3, -5, -7], [-3, -5, 7]],
            vec![[-3, 5, -7], [-3, -5, -7], [3, -5, -7]],
            vec![[-3, -5, -7], [-3, -5, 7], [3, -5, -7]],
        ]
    );
}

#[test]
fn corners_of_ramp() {
    assert_eq!(
        corners(ramp(size())),
        vec![
            vec![[-3, 5, -7], [7, 5, -7], [7, 5, 7], [-3, 5, 7]],
            vec![[-3, -5, 7], [3, -5, 7], [3, -5, -7], [-3, -5, -7]],
            vec![[-3, 5, 7], [7, 5, 7], [3, -3, 7], [3, -5, 7], [-3, -5, 7]],
            vec![[7, 5, -7], [-3, 5, -7], [-3, -5, -7], [3, -5, -7], [3, -3, -7]],
            vec![[-3, 5, -7], [-3, 5, 7], [-3, -5, 7], [-3, -5, -7]],
            vec![[7, 5, 7], [7, 5, -7], [3, -3, -7], [3, -3, 7]],
            vec![[3, -3, 7], [3, -3, -7], [3, -5, -7], [3, -5, 7]],
        ]
    );
}

#[test]
fn corners_of_side_wedge() {
    assert_eq!(
        corners(side_wedge(size())),
        vec![
            vec![[-3, 5, -7], [3, 5, -7], [-3, 5, 7]],
            vec![[-3, -5, 7], [3, -5, -7], [-3, -5, -7]],
            vec![[-3, 5, 7], [3, 5, -7], [3, -5, -7], [-3, -5, 7]],
            vec![[3, 5, -7], [-3, 5, -7], [-3, -5, -7], [3, -5, -7]],
            vec![[-3, 5, -7], [-3, 5, 7], [-3, -5, 7], [-3, -5, -7]],
        ]
    );
}

#[test]
fn corners_of_standard_brick() {
    assert_eq!(
        corners(standard_brick(size())),
        vec![
            vec![[-3, 5, -7], [3, 5, -7], [3, 5, 7], [-3, 5, 7]],
            vec![[-3, -5, 7], [3, -5, 7], [3, -5, -7], [-3, -5, -7]],
            vec![[-3, 5, 7], [3, 5, 7], [3, -5, 7], [-3, -5, 7]],
            vec![[3, 5, -7], [-3, 5, -7], [-3, -5, -7], [3, -5, -7]],
            vec![[-3, 5, -7], [-3, 5, 7], [-3, -5, 7], [-3, -5, -7]],
            vec![[3, 5, 7], [3, 5, -7], [3, -5, -7], [3, -5, 7]],
        ]
    );
}
