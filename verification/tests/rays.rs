use brickmesh::aabb::AABB;
use brickmesh::bvh::BVH;
use brickmesh::ray::{Ray, RAY_DIRECTION_LIMIT, RAY_ORIGIN_LIMIT, RAY_UNITS};
use brickmesh::vec3::{I64Vec3, IVec3};

fn cube(x: i32, y: i32, z: i32, h: i32) -> AABB {
    AABB { center: IVec3::new(x, y, z), halfwidths: IVec3::new(h, h, h) }
}

fn ray(origin: (i64, i64, i64), direction: (i64, i64, i64)) -> Ray {
    Ray {
        origin: I64Vec3::new(origin.0 * RAY_UNITS, origin.1 * RAY_UNITS, origin.2 * RAY_UNITS),
        direction: I64Vec3::new(direction.0, direction.1, direction.2),
    }
}

#[test]
fn ray_along_an_axis() {
    let b = cube(10, 0, 0, 1);
    assert!(b.intersects(&ray((0, 0, 0), (1, 0, 0))));
    assert!(!b.intersects(&ray((0, 0, 0), (-1, 0, 0))));
    assert!(!b.intersects(&ray((0, 5, 0), (1, 0, 0))));
    assert!(b.intersects(&ray((0, 1, 1), (1, 0, 0)))); // along an edge
    assert!(!b.intersects(&ray((0, 1, 2), (1, 0, 0))));
    assert!(b.intersects(&ray((20, 0, 0), (-7, 0, 0))));
}

#[test]
fn ray_from_inside_the_box() {
    let b = cube(0, 0, 0, 2);
    for d in [(1, 0, 0), (-1, 0, 0), (0, 1, 0), (0, 0, -1), (1, 1, 1), (-3, 2, 5)] {
        assert!(b.intersects(&ray((1, -1, 0), d)));
    }
    assert!(b.intersects(&ray((0, 0, 0), (0, 0, 0))));
    assert!(!cube(5, 0, 0, 2).intersects(&ray((0, 0, 0), (0, 0, 0))));
}

#[test]
fn ray_that_starts_past_the_box() {
    let b = cube(0, 0, 0, 1);
    assert!(!b.intersects(&ray((2, 0, 0), (1, 0, 0))));
    assert!(b.intersects(&ray((1, 0, 0), (1, 0, 0)))); // starts on the side
    assert!(b.intersects(&ray((1, 1, 1), (1, 1, 1)))); // starts on a corner
}

#[test]
fn slanted_ray() {
    let b = cube(10, 10, 0, 1);
    assert!(b.intersects(&ray((0, 0, 0), (1, 1, 0))));
    assert!(b.intersects(&ray((0, 0, 0), (9, 11, 0))));
    assert!(b.intersects(&ray((0, 0, 0), (11, 9, 0))));
    assert!(!b.intersects(&ray((0, 0, 0), (8, 11, 0))));
    assert!(!b.intersects(&ray((0, 0, 0), (1, 2, 0))));
    assert!(!b.intersects(&ray((0, 0, 0), (10, 10, 2))));
    assert!(b.intersects(&ray((0, 0, 0), (10, 10, 1))));
    assert!(!b.intersects(&ray((0, 0, 0), (-1, -1, 0))));
}

#[test]
fn ray_between_the_grid_points() {
    let b = cube(10, 0, 0, 1);
    let at = |y: i64| Ray {
        origin: I64Vec3::new(0, y, 0),
        direction: I64Vec3::new(1000, 0, 0),
    };
    assert!(b.intersects(&at(RAY_UNITS)));
    assert!(!b.intersects(&at(RAY_UNITS + 1)));
    assert!(b.intersects(&at(-RAY_UNITS)));
    assert!(!b.intersects(&at(-RAY_UNITS - 1)));
}

#[test]
fn ray_at_the_limits() {
    let far = RAY_ORIGIN_LIMIT;
    let d = RAY_DIRECTION_LIMIT;
    let b = cube(0x0800_0000 - 1, -(0x0800_0000 - 1), 0, 1);
    let r = Ray { origin: I64Vec3::new(-far, far, far), direction: I64Vec3::new(d, -d, -d) };
    assert!(r.is_valid());
    assert!(!b.intersects(&r));
    let r = Ray { origin: I64Vec3::new(-far, far, 0), direction: I64Vec3::new(d, -d, 0) };
    assert!(b.intersects(&r));
    assert!(!Ray { origin: I64Vec3::new(far + 1, 0, 0), direction: I64Vec3::new(1, 0, 0) }.is_valid());
    assert!(!Ray { origin: I64Vec3::new(0, 0, 0), direction: I64Vec3::new(0, -d - 1, 0) }.is_valid());
}

#[test]
fn ray_picks_the_one_box_it_meets() {
    let boxes = vec![
        cube(1, 1, 1, 1),
        cube(11, 1, 1, 1),
        cube(1, 11, 1, 1),
        cube(11, 11, 1, 1),
        cube(1, 1, 11, 1),
        cube(11, 1, 11, 1),
        cube(1, 11, 11, 1),
    ];
    let bvh = BVH::new((0..boxes.len()).collect(), &boxes);
    for (i, b) in boxes.iter().enumerate() {
        // straight down onto the box from above
        let r = ray((b.center.x as i64, 100, b.center.z as i64), (0, -1, 0));
        let meets: Vec<usize> = (0..boxes.len()).filter(|&j| boxes[j].intersects(&r)).collect();
        if meets == vec![i] {
            assert_eq!(bvh.intersection(&r, &boxes), Some(i));
        }
    }
    let r = ray((11, 11, 100), (0, 0, -1));
    assert_eq!(bvh.intersection(&r, &boxes), Some(3));
    let r = ray((-50, 11, 11), (1, 0, 0));
    assert_eq!(bvh.intersection(&r, &boxes), Some(6));
}

#[test]
fn ray_that_misses_every_box() {
    let boxes = vec![cube(1, 1, 1, 1), cube(11, 1, 1, 1), cube(1, 11, 1, 1), cube(11, 11, 1, 1)];
    let bvh = BVH::new((0..boxes.len()).collect(), &boxes);
    assert_eq!(bvh.intersection(&ray((6, 100, 1), (0, -1, 0)), &boxes), None);
    assert_eq!(bvh.intersection(&ray((1, 100, 1), (0, 1, 0)), &boxes), None);
    assert_eq!(bvh.intersection(&ray((-5, -5, -5), (-1, -1, -1)), &boxes), None);
}

#[test]
fn ray_into_an_empty_tree() {
    let bvh = BVH::new(vec![], &vec![]);
    assert_eq!(bvh.intersection(&ray((0, 0, 0), (1, 0, 0)), &vec![]), None);
}

#[test]
fn ray_through_two_boxes_gives_the_first_in_the_walk() {
    // two boxes in a row along X: the walk looks below the left child first,
    // which holds the box with the smaller centre, wherever the ray starts
    let boxes = vec![cube(11, 1, 1, 1), cube(1, 1, 1, 1)];
    let bvh = BVH::new(vec![0, 1], &boxes);
    assert_eq!(bvh.intersection(&ray((-10, 1, 1), (1, 0, 0)), &boxes), Some(1));
    assert_eq!(bvh.intersection(&ray((30, 1, 1), (-1, 0, 0)), &boxes), Some(1));
    assert_eq!(bvh.intersection(&ray((6, 1, 1), (1, 0, 0)), &boxes), Some(0));
}

#[test]
fn the_walk_finds_a_box_whenever_the_ray_meets_one() {
    let mut s: u32 = 4242;
    let mut next = move |m: u32| {
        s = s.wrapping_mul(1664525).wrapping_add(1013904223);
        ((s >> 16) % m) as i32
    };
    let boxes: Vec<AABB> = (0..60)
        .map(|_| AABB {
            center: IVec3::new(next(61) - 30, next(61) - 30, next(61) - 30),
            halfwidths: IVec3::new(next(3), next(3), next(3)),
        })
        .collect();
    let bvh = BVH::new((0..boxes.len()).collect(), &boxes);
    for _ in 0..300 {
        let r = ray(
            ((next(81) - 40) as i64, (next(81) - 40) as i64, (next(81) - 40) as i64),
            ((next(7) - 3) as i64, (next(7) - 3) as i64, (next(7) - 3) as i64),
        );
        let meets: Vec<usize> = (0..boxes.len()).filter(|&j| boxes[j].intersects(&r)).collect();
        match bvh.intersection(&r, &boxes) {
            Some(i) => assert!(meets.contains(&i)),
            None => assert!(meets.is_empty()),
        }
        if meets.len() == 1 {
            assert_eq!(bvh.intersection(&r, &boxes), Some(meets[0]));
        }
    }
}
