use brickmesh::aabb::{AABB, WORLD_LIMIT};
use brickmesh::bounds::{aabbs_valid, bounding_box, split_axis};
use brickmesh::brick::{Brick, BrickColor, SaveData, Size};
use brickmesh::error::GeometryError;
use brickmesh::vec3::{Axis, IVec3};

fn cube(x: i32, y: i32, z: i32, h: i32) -> AABB {
    AABB { center: IVec3::new(x, y, z), halfwidths: IVec3::new(h, h, h) }
}

fn brick(position: (i32, i32, i32), size: Size, direction: u8, rotation: u8) -> Brick {
    Brick {
        asset_name_index: 0,
        size,
        position,
        direction,
        rotation,
        visibility: true,
        material_index: 0,
        color: BrickColor::Index(0),
        owner_index: 0,
    }
}

fn save(assets: &[&str]) -> SaveData {
    SaveData {
        brick_assets: assets.iter().map(|s| s.to_string()).collect(),
        colors: vec![],
        materials: vec!["BMC_Plastic".to_string()],
        bricks: vec![],
    }
}

#[test]
fn touching_boxes_are_neighbors() {
    let a = cube(0, 0, 0, 1);
    let b = cube(2, 0, 0, 1);
    assert!(a.neighbors(&b));
    assert!(b.neighbors(&a));
}

#[test]
fn separated_boxes_are_not_neighbors() {
    let a = cube(0, 0, 0, 1);
    let b = cube(3, 0, 0, 1);
    assert!(!a.neighbors(&b));
    assert!(!b.neighbors(&a));
    let c = cube(0, 0, 3, 1);
    assert!(!a.neighbors(&c));
    let d = cube(0, -3, 0, 1);
    assert!(!a.neighbors(&d));
}

#[test]
fn neighbors_is_symmetric_on_a_grid_of_pairs() {
    let mut boxes = vec![];
    let mut seed: u32 = 12345;
    for _ in 0..40 {
        let mut next = || {
            seed = seed.wrapping_mul(1664525).wrapping_add(1013904223);
            ((seed >> 16) % 21) as i32 - 10
        };
        let (x, y, z) = (next(), next(), next());
        let (hx, hy, hz) = (next().abs() % 4, next().abs() % 4, next().abs() % 4);
        boxes.push(AABB { center: IVec3::new(x, y, z), halfwidths: IVec3::new(hx, hy, hz) });
    }
    for a in &boxes {
        for b in &boxes {
            assert_eq!(a.neighbors(b), b.neighbors(a));
        }
    }
}

#[test]
fn neighbors_does_not_overflow_at_the_ends_of_the_range() {
    let a = AABB {
        center: IVec3::new(i32::MIN, 0, 0),
        halfwidths: IVec3::new(i32::MAX, 0, 0),
    };
    let b = AABB {
        center: IVec3::new(i32::MAX, 0, 0),
        halfwidths: IVec3::new(i32::MAX, 0, 0),
    };
    assert!(!a.neighbors(&b));
    assert!(a.neighbors(&a));
}

#[test]
fn volume_is_the_product_of_the_sides() {
    let b = AABB { center: IVec3::new(7, 8, 9), halfwidths: IVec3::new(1, 2, 3) };
    assert_eq!(b.volume(), 2 * 4 * 6);
    assert_eq!(cube(0, 0, 0, 0).volume(), 0);
    let big = cube(0, 0, 0, i32::MAX);
    let side = 2 * (i32::MAX as i128);
    assert_eq!(big.volume(), side * side * side);
}

#[test]
fn box_validity() {
    assert!(cube(0, 0, 0, 1).is_valid());
    assert!(cube(WORLD_LIMIT - 1, 0, 0, 1).is_valid());
    assert!(!cube(WORLD_LIMIT, 0, 0, 1).is_valid());
    assert!(!cube(0, -WORLD_LIMIT, 0, 1).is_valid());
    assert!(!AABB { center: IVec3::new(0, 0, 0), halfwidths: IVec3::new(1, -1, 1) }.is_valid());
    assert!(aabbs_valid(&vec![cube(0, 0, 0, 1), cube(5, 5, 5, 2)]));
    assert!(!aabbs_valid(&vec![cube(0, 0, 0, 1), cube(0, 0, 0, -2)]));
    assert!(aabbs_valid(&vec![]));
}

#[test]
fn from_brick_swaps_the_horizontal_axes() {
    let data = save(&["PB_DefaultBrick"]);
    let b = brick((10, 20, 30), Size::Procedural(1, 2, 3), 4, 0);
    let aabb = AABB::from_brick(&b, &data).unwrap();
    assert_eq!(aabb.center, IVec3::new(10, 30, 20));
    assert_eq!(aabb.halfwidths, IVec3::new(1, 3, 2));
}

#[test]
fn from_brick_turns_the_size_with_the_brick() {
    let data = save(&["PB_DefaultBrick"]);
    // a quarter turn about the vertical swaps the first two entries
    let b = brick((0, 0, 0), Size::Procedural(1, 2, 3), 4, 1);
    let aabb = AABB::from_brick(&b, &data).unwrap();
    assert_eq!(aabb.halfwidths, IVec3::new(2, 3, 1));
    // a brick on its side along X: axis 0 reads entry 2, axis 2 reads entry 0
    let b = brick((0, 0, 0), Size::Procedural(1, 2, 3), 0, 0);
    let aabb = AABB::from_brick(&b, &data).unwrap();
    assert_eq!(aabb.halfwidths, IVec3::new(3, 1, 2));
    // along Y: axis 0 reads entry 1, axis 1 reads entry 2, axis 2 reads entry 0
    let b = brick((0, 0, 0), Size::Procedural(1, 2, 3), 2, 0);
    let aabb = AABB::from_brick(&b, &data).unwrap();
    assert_eq!(aabb.halfwidths, IVec3::new(2, 1, 3));
    // along Y with a three-quarter turn: axis 0 reads entry 1 and the turn
    // makes that entry 0; axis 2 reads entry 0, which the turn makes entry 1
    let b = brick((0, 0, 0), Size::Procedural(1, 2, 3), 3, 3);
    let aabb = AABB::from_brick(&b, &data).unwrap();
    assert_eq!(aabb.halfwidths, IVec3::new(1, 2, 3));
}

#[test]
fn from_brick_looks_up_static_sizes() {
    let data = save(&["B_2x4_Door_Frame", "B_No_Such_Brick"]);
    let mut b = brick((0, 0, 0), Size::Empty, 4, 0);
    let aabb = AABB::from_brick(&b, &data).unwrap();
    assert_eq!(aabb.halfwidths, IVec3::new(10, 36, 20));
    b.asset_name_index = 1;
    let aabb = AABB::from_brick(&b, &data).unwrap();
    assert_eq!(aabb.halfwidths, IVec3::new(0, 0, 0));
    assert_eq!(aabb.volume(), 0);
}

#[test]
fn from_brick_reports_a_brick_outside_the_world() {
    let data = save(&["PB_DefaultBrick"]);
    let b = brick((WORLD_LIMIT, 0, 0), Size::Procedural(1, 1, 1), 4, 0);
    assert_eq!(AABB::from_brick(&b, &data), Err(GeometryError::NumericOverflow));
    let b = brick((0, 0, 0), Size::Procedural(u32::MAX, 1, 1), 4, 0);
    assert_eq!(AABB::from_brick(&b, &data), Err(GeometryError::NumericOverflow));
    let b = brick((i32::MIN, 0, 0), Size::Procedural(0, 0, 0), 4, 0);
    assert_eq!(AABB::from_brick(&b, &data), Err(GeometryError::NumericOverflow));
    let b = brick((WORLD_LIMIT - 1, 0, 0), Size::Procedural(1, 1, 1), 4, 0);
    assert!(AABB::from_brick(&b, &data).is_ok());
}

#[test]
fn bounding_box_of_one_box() {
    let boxes = vec![cube(1, 3, 5, 1)];
    let b = bounding_box(&vec![0], &boxes);
    // span 0..=2 is even, so the top goes to 3; centre 3/2 = 1, half-width 4/2 = 2
    assert_eq!(b.center, IVec3::new(1, 3, 5));
    assert_eq!(b.halfwidths, IVec3::new(2, 2, 2));
}

#[test]
fn bounding_box_raises_an_even_span() {
    let boxes = vec![cube(1, 1, 1, 1), cube(5, 1, 1, 1)];
    let b = bounding_box(&vec![0, 1], &boxes);
    // x: 0..=6 is even, top 7, centre 7/2 = 3, half-width 8/2 = 4
    assert_eq!(b.center, IVec3::new(3, 1, 1));
    assert_eq!(b.halfwidths, IVec3::new(4, 2, 2));
    for m in &boxes {
        for (c, h, mc, mh) in [
            (b.center.x, b.halfwidths.x, m.center.x, m.halfwidths.x),
            (b.center.y, b.halfwidths.y, m.center.y, m.halfwidths.y),
            (b.center.z, b.halfwidths.z, m.center.z, m.halfwidths.z),
        ] {
            assert!(c - h <= mc - mh);
            assert!(mc + mh <= c + h);
        }
    }
}

#[test]
fn bounding_box_keeps_an_odd_span() {
    let boxes = vec![cube(0, 0, 0, 0), cube(3, 0, 0, 0)];
    let b = bounding_box(&vec![0, 1], &boxes);
    // x: 0..=3 is odd and stays; centre 3/2 = 1, half-width 4/2 = 2: the box is -1..=3
    assert_eq!(b.center.x, 1);
    assert_eq!(b.halfwidths.x, 2);
    // y: 0..=0 is even, top 1, centre 0, half-width 2/2 = 1
    assert_eq!(b.center.y, 0);
    assert_eq!(b.halfwidths.y, 1);
}

#[test]
fn bounding_box_rounds_the_centre_toward_zero() {
    let boxes = vec![cube(-2, -2, -2, 1)];
    let b = bounding_box(&vec![0], &boxes);
    // -3..=-1 is even, top 0, centre -3/2 = -1, half-width 4/2 = 2: the box is -3..=1
    assert_eq!(b.center, IVec3::new(-1, -1, -1));
    assert_eq!(b.halfwidths, IVec3::new(2, 2, 2));
}

#[test]
fn bounding_box_of_two_cubes_three_apart() {
    let boxes = vec![cube(0, 0, 0, 1), cube(3, 0, 0, 1)];
    let b = bounding_box(&vec![0, 1], &boxes);
    // the cubes span -1..=4 along X
    assert!(b.center.x - b.halfwidths.x <= -1);
    assert!(b.center.x + b.halfwidths.x >= 4);
    assert_eq!((b.center.x, b.halfwidths.x), (1, 3));
    for (c, h) in [(b.center.y, b.halfwidths.y), (b.center.z, b.halfwidths.z)] {
        assert!(c - h <= -1 && c + h >= 1);
    }
}

fn covers(outer: &AABB, inner: &AABB) -> bool {
    let axes = [
        (outer.center.x, outer.halfwidths.x, inner.center.x, inner.halfwidths.x),
        (outer.center.y, outer.halfwidths.y, inner.center.y, inner.halfwidths.y),
        (outer.center.z, outer.halfwidths.z, inner.center.z, inner.halfwidths.z),
    ];
    axes.iter().all(|&(c, h, ic, ih)| c - h <= ic - ih && ic + ih <= c + h)
}

#[test]
fn bounding_box_contains_every_member() {
    let mut seed: u32 = 77;
    let mut next = move |m: u32| {
        seed = seed.wrapping_mul(1664525).wrapping_add(1013904223);
        ((seed >> 16) % m) as i32
    };
    for round in 0..200 {
        let n = 1 + (round % 7) as usize;
        let boxes: Vec<AABB> = (0..n)
            .map(|_| AABB {
                center: IVec3::new(next(41) - 20, next(41) - 20, next(41) - 20),
                halfwidths: IVec3::new(next(4), next(4), next(4)),
            })
            .collect();
        let b = bounding_box(&(0..n).collect(), &boxes);
        assert!(b.is_bounded());
        for m in &boxes {
            assert!(covers(&b, m));
        }
    }
}

#[test]
fn bounding_box_at_the_edge_of_the_world() {
    let l = WORLD_LIMIT;
    let boxes = vec![cube(-l + 1, 0, l - 1, 1), cube(l - 1, 0, l - 1, 1)];
    assert!(aabbs_valid(&boxes));
    let b = bounding_box(&vec![0, 1], &boxes);
    // x: -l..=l is even, top l + 1, centre 0, half-width l + 1
    assert_eq!((b.center.x, b.halfwidths.x), (0, l + 1));
    assert!(b.is_bounded());
    assert!(!b.is_valid());
    for m in &boxes {
        assert!(covers(&b, m));
    }
}

#[test]
fn bounding_box_ignores_the_order_and_boxes_not_named() {
    let boxes = vec![cube(1, 1, 1, 1), cube(100, 100, 100, 5), cube(9, 3, 1, 1)];
    let a = bounding_box(&vec![0, 2], &boxes);
    let b = bounding_box(&vec![2, 0], &boxes);
    assert_eq!(a, b);
    assert_eq!(a.center, IVec3::new(5, 2, 1));
    assert_eq!(a.halfwidths, IVec3::new(6, 3, 2));
}

#[test]
fn split_axis_is_the_longest() {
    let b = |x, y, z| AABB { center: IVec3::new(0, 0, 0), halfwidths: IVec3::new(x, y, z) };
    assert_eq!(split_axis(&b(3, 2, 1)), Axis::X);
    assert_eq!(split_axis(&b(1, 3, 2)), Axis::Y);
    assert_eq!(split_axis(&b(1, 2, 3)), Axis::Z);
}

#[test]
fn split_axis_breaks_ties_z_then_x_then_y() {
    let b = |x, y, z| AABB { center: IVec3::new(0, 0, 0), halfwidths: IVec3::new(x, y, z) };
    assert_eq!(split_axis(&b(2, 2, 2)), Axis::Z);
    assert_eq!(split_axis(&b(2, 1, 2)), Axis::Z);
    assert_eq!(split_axis(&b(1, 2, 2)), Axis::Z);
    assert_eq!(split_axis(&b(2, 2, 1)), Axis::X);
}

#[test]
fn save_validity() {
    let mut data = save(&["PB_DefaultBrick"]);
    assert!(data.is_valid());
    data.bricks.push(brick((0, 0, 0), Size::Procedural(1, 1, 1), 4, 0));
    assert!(!data.is_valid()); // colour 0 of an empty palette
    data.colors.push(brickmesh::brick::Color { r: 1, g: 2, b: 3, a: 255 });
    assert!(data.is_valid());
    data.bricks[0].direction = 6;
    assert!(!data.is_valid());
    data.bricks[0].direction = 5;
    data.bricks[0].rotation = 4;
    assert!(!data.is_valid());
    data.bricks[0].rotation = 3;
    data.bricks[0].asset_name_index = 1;
    assert!(!data.is_valid());
    data.bricks[0].asset_name_index = 0;
    data.bricks[0].material_index = 1;
    assert!(!data.is_valid());
    data.bricks[0].material_index = 0;
    data.bricks[0].color = BrickColor::Unique(brickmesh::brick::Color { r: 0, g: 0, b: 0, a: 0 });
    data.colors.clear();
    assert!(data.is_valid());
}
