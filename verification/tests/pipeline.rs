use brickmesh::aabb::AABB;
use brickmesh::brick::{Brick, BrickColor, Color, SaveData, Size};
use brickmesh::centroid::{center_of_mass, Centroid};
use brickmesh::error::GeometryError;
use brickmesh::generator::{gen_aabbs, gen_faces, BVHMeshGenerator};
use brickmesh::mat::{material_slot, BrickMaterial, MATERIAL_SLOTS};
use brickmesh::mesh::{brick_color, chunk_index, chunk_of, Buffers, MeshChunk, CHUNK_SIZE};
use brickmesh::ray::{Ray, RAY_UNITS};
use brickmesh::vec3::{I64Vec3, IVec3};

fn brick(position: (i32, i32, i32), size: (u32, u32, u32)) -> Brick {
    Brick {
        asset_name_index: 0,
        size: Size::Procedural(size.0, size.1, size.2),
        position,
        direction: 4,
        rotation: 0,
        visibility: true,
        material_index: 0,
        color: BrickColor::Index(0),
        owner_index: 0,
    }
}

fn save(bricks: Vec<Brick>) -> SaveData {
    SaveData {
        brick_assets: vec!["PB_DefaultBrick".to_string(), "PB_DefaultWedge".to_string()],
        colors: vec![Color { r: 255, g: 128, b: 0, a: 255 }, Color { r: 1, g: 2, b: 3, a: 4 }],
        materials: vec![
            "BMC_Plastic".to_string(),
            "BMC_Glow".to_string(),
            "BMC_Glass".to_string(),
            "BMC_Metallic".to_string(),
            "BMC_Hologram".to_string(),
        ],
        bricks,
    }
}

fn hidden_flags(generator: &BVHMeshGenerator) -> Vec<Vec<bool>> {
    generator.faces().iter().map(|fs| fs.iter().map(|f| f.hidden).collect()).collect()
}

fn corners(meshes: &Vec<Vec<MeshChunk>>) -> usize {
    meshes.iter().flatten().map(|c| c.buffers.position.len()).sum()
}

fn flat(meshes: &Vec<Vec<MeshChunk>>) -> Vec<(usize, IVec3, Vec<[i64; 3]>, Vec<[u8; 4]>, Vec<[i64; 3]>)> {
    let mut out = vec![];
    for (m, chunks) in meshes.iter().enumerate() {
        for c in chunks {
            out.push((
                m,
                c.chunk,
                c.buffers.position.clone(),
                c.buffers.color.clone(),
                c.buffers.normal.clone(),
            ));
        }
    }
    out
}

#[test]
fn material_of_a_name() {
    assert_eq!(BrickMaterial::from("BMC_Plastic"), BrickMaterial::Plastic);
    assert_eq!(BrickMaterial::from("BMC_Glow"), BrickMaterial::Glow);
    assert_eq!(BrickMaterial::from("BMC_Glass"), BrickMaterial::Glass);
    assert_eq!(BrickMaterial::from("BMC_Metallic"), BrickMaterial::Metallic);
    // every other name is plastic
    assert_eq!(BrickMaterial::from("BMC_Hologram"), BrickMaterial::Plastic);
    assert_eq!(BrickMaterial::from(""), BrickMaterial::Plastic);
    assert_eq!(BrickMaterial::from("bmc_glass"), BrickMaterial::Plastic);
    assert_eq!(BrickMaterial::from("BMC_Glass "), BrickMaterial::Plastic);
}

#[test]
fn material_slots() {
    assert_eq!(MATERIAL_SLOTS, 4);
    assert_eq!(BrickMaterial::Plastic.slot(), 0);
    assert_eq!(BrickMaterial::Glow.slot(), 1);
    assert_eq!(BrickMaterial::Glass.slot(), 2);
    assert_eq!(BrickMaterial::Metallic.slot(), 3);
    assert_eq!(BrickMaterial::Unknown.slot(), 0);
    assert_eq!(material_slot("BMC_Glass"), 2);
    assert_eq!(material_slot("BMC_Ghost"), 0);
}

#[test]
fn chunk_is_the_centre_over_the_chunk_size_rounded_down() {
    assert_eq!(CHUNK_SIZE, 2048);
    assert_eq!(chunk_of(&IVec3::new(0, 2047, 2048)), IVec3::new(0, 0, 1));
    assert_eq!(chunk_of(&IVec3::new(-1, -2048, -2049)), IVec3::new(-1, -1, -2));
    assert_eq!(chunk_of(&IVec3::new(4096, -4096, 5000)), IVec3::new(2, -2, 2));
    assert_eq!(
        chunk_of(&IVec3::new(i32::MAX, i32::MIN, -4097)),
        IVec3::new(1048575, -1048576, -3)
    );
}

#[test]
fn colour_of_a_brick() {
    let palette = vec![Color { r: 255, g: 128, b: 0, a: 255 }, Color { r: 1, g: 2, b: 3, a: 4 }];
    let mut b = brick((0, 0, 0), (1, 1, 1));
    assert_eq!(brick_color(&b, &palette), [255, 128, 0, 0]);
    b.color = BrickColor::Index(1);
    assert_eq!(brick_color(&b, &palette), [1, 2, 3, 0]);
    b.color = BrickColor::Unique(Color { r: 9, g: 8, b: 7, a: 6 });
    assert_eq!(brick_color(&b, &palette), [9, 8, 7, 0]);
}

#[test]
fn chunk_lookup() {
    let chunk = |x| MeshChunk { chunk: IVec3::new(x, 0, 0), buffers: Buffers::new() };
    let chunks = vec![chunk(3), chunk(1), chunk(3)];
    assert_eq!(chunk_index(&chunks, &IVec3::new(3, 0, 0)), 0);
    assert_eq!(chunk_index(&chunks, &IVec3::new(1, 0, 0)), 1);
    assert_eq!(chunk_index(&chunks, &IVec3::new(2, 0, 0)), 3);
    assert_eq!(chunk_index(&chunks, &IVec3::new(3, 1, 0)), 3);
    assert_eq!(chunk_index(&vec![], &IVec3::new(0, 0, 0)), 0);
}

#[test]
fn no_bricks_give_an_empty_tree_and_empty_meshes() {
    let data = save(vec![]);
    let mut generator = BVHMeshGenerator::new(&data).unwrap();
    assert_eq!(generator.bvh().arena.len(), 0);
    assert_eq!(generator.aabbs().len(), 0);
    assert_eq!(generator.hidden_faces(), vec![]);
    let meshes = generator.gen_mesh();
    assert_eq!(meshes.len(), 4);
    assert!(meshes.iter().all(|m| m.is_empty()));
    assert_eq!(generator.center_of_mass(), Err(GeometryError::ZeroVolume));
}

#[test]
fn two_touching_cubes_hide_the_faces_between_them() {
    // side by side along X, touching in the plane x = 1
    let data = save(vec![brick((0, 0, 0), (1, 1, 1)), brick((2, 0, 0), (1, 1, 1))]);
    let mut generator = BVHMeshGenerator::new(&data).unwrap();
    // the bottoms are dropped when the faces are built: top, front, back, left, right
    assert_eq!(hidden_flags(&generator), vec![vec![false; 5], vec![false; 5]]);
    assert_eq!(generator.hidden_faces(), vec![(0, 4), (1, 3)]);
    let meshes = generator.gen_mesh();
    assert_eq!(
        hidden_flags(&generator),
        vec![vec![false, false, false, false, true], vec![false, false, false, true, false]]
    );
    // eight faces stay, two triangles each
    assert_eq!(corners(&meshes), 8 * 6);
    assert_eq!(meshes[0].len(), 1);
    assert_eq!(meshes[0][0].chunk, IVec3::new(0, 0, 0));
    assert_eq!(meshes[0][0].buffers.color.len(), 48);
    assert_eq!(meshes[0][0].buffers.normal.len(), 48);
    assert!(meshes[1].is_empty() && meshes[2].is_empty() && meshes[3].is_empty());
    // no corner of what stays lies strictly between the cubes' outer sides in
    // the plane where they touch
    let left_right = [[4i64, 0, 0], [-4, 0, 0]];
    let on_the_seam = meshes[0][0]
        .buffers
        .position
        .iter()
        .zip(&meshes[0][0].buffers.normal)
        .filter(|(p, n)| p[0] == 1 && left_right.contains(n))
        .count();
    assert_eq!(on_the_seam, 0);
}

#[test]
fn stacked_cubes_keep_the_top_of_the_lower_one() {
    // the upper cube has no bottom face to cover the lower cube's top with
    let data = save(vec![brick((0, 0, 0), (1, 1, 1)), brick((0, 0, 2), (1, 1, 1))]);
    let mut generator = BVHMeshGenerator::new(&data).unwrap();
    let meshes = generator.gen_mesh();
    assert_eq!(hidden_flags(&generator), vec![vec![false; 5], vec![false; 5]]);
    assert_eq!(corners(&meshes), 10 * 6);
}

#[test]
fn a_small_face_against_a_large_one_is_hidden_and_the_large_one_stays() {
    let data = save(vec![brick((0, 0, 0), (1, 1, 1)), brick((4, 0, 0), (3, 3, 3))]);
    let mut generator = BVHMeshGenerator::new(&data).unwrap();
    generator.cull();
    assert_eq!(
        hidden_flags(&generator),
        vec![vec![false, false, false, false, true], vec![false; 5]]
    );
}

#[test]
fn cubes_apart_hide_nothing() {
    let data = save(vec![brick((0, 0, 0), (1, 1, 1)), brick((3, 0, 0), (1, 1, 1))]);
    let mut generator = BVHMeshGenerator::new(&data).unwrap();
    generator.cull();
    assert_eq!(hidden_flags(&generator), vec![vec![false; 5], vec![false; 5]]);
}

#[test]
fn cubes_touching_at_an_edge_hide_nothing() {
    let data = save(vec![brick((0, 0, 0), (1, 1, 1)), brick((2, 2, 0), (1, 1, 1))]);
    let mut generator = BVHMeshGenerator::new(&data).unwrap();
    assert_eq!(generator.bvh().neighbors(generator.aabbs(), 0), vec![1]);
    generator.cull();
    assert_eq!(hidden_flags(&generator), vec![vec![false; 5], vec![false; 5]]);
}

#[test]
fn culling_twice_changes_nothing() {
    let data = save(vec![brick((1, 1, 1), (1, 1, 1)), brick((3, 1, 1), (1, 1, 1)), brick((5, 1, 1), (1, 1, 1))]);
    let mut generator = BVHMeshGenerator::new(&data).unwrap();
    generator.cull();
    let once = hidden_flags(&generator);
    assert_eq!(
        once,
        vec![
            vec![false, false, false, false, true],
            vec![false, false, false, true, true],
            vec![false, false, false, true, false]
        ]
    );
    generator.cull();
    assert_eq!(hidden_flags(&generator), once);
}

#[test]
fn cull_faces_against_given_neighbours() {
    let data = save(vec![brick((1, 1, 1), (1, 1, 1)), brick((3, 1, 1), (1, 1, 1)), brick((5, 1, 1), (1, 1, 1))]);
    let generator = BVHMeshGenerator::new(&data).unwrap();
    assert_eq!(generator.cull_faces(1, vec![0, 2]), vec![(1, 3), (1, 4)]);
    assert_eq!(generator.cull_faces(1, vec![2]), vec![(1, 4)]);
    assert_eq!(generator.cull_faces(1, vec![]), vec![]);
    assert!(generator.face_covered(1, 3, &vec![2, 0]));
    assert!(!generator.face_covered(1, 3, &vec![2]));
    assert!(!generator.face_covered(1, 0, &vec![0, 2]));
}

#[test]
fn buffers_of_one_brick() {
    let mut b = brick((0, 0, 0), (1, 1, 1));
    b.color = BrickColor::Unique(Color { r: 10, g: 20, b: 30, a: 40 });
    let data = save(vec![b]);
    let mut generator = BVHMeshGenerator::new(&data).unwrap();
    let meshes = generator.gen_mesh();
    let buffers = &meshes[0][0].buffers;
    assert_eq!(buffers.position.len(), 30);
    // the top face: corners B, C, D, A fanned about B
    assert_eq!(
        buffers.position[..6].to_vec(),
        vec![[-1, 1, -1], [1, 1, 1], [1, 1, -1], [-1, 1, -1], [-1, 1, 1], [1, 1, 1]]
    );
    assert_eq!(buffers.normal[..6].to_vec(), vec![[0, 4, 0]; 6]);
    assert_eq!(buffers.normal[6..12].to_vec(), vec![[0, 0, 4]; 6]);
    assert_eq!(buffers.color, vec![[10, 20, 30, 0]; 30]);
}

#[test]
fn bricks_are_sorted_by_material_and_chunk() {
    let mut bricks = vec![
        brick((0, 0, 0), (1, 1, 1)),
        brick((5000, 0, 0), (1, 1, 1)),
        brick((10, 0, 0), (1, 1, 1)),
        brick((-10, 0, 0), (1, 1, 1)),
        brick((20, 0, 0), (1, 1, 1)),
        brick((30, 0, 0), (1, 1, 1)),
        brick((40, 0, 0), (1, 1, 1)),
    ];
    bricks[2].material_index = 1;
    bricks[4].material_index = 2;
    bricks[5].material_index = 3;
    bricks[6].material_index = 4;
    bricks[6].color = BrickColor::Index(1);
    let data = save(bricks);
    let mut generator = BVHMeshGenerator::new(&data).unwrap();
    let meshes = generator.gen_mesh();
    let keys: Vec<Vec<IVec3>> = meshes.iter().map(|m| m.iter().map(|c| c.chunk).collect()).collect();
    assert_eq!(
        keys,
        vec![
            vec![IVec3::new(0, 0, 0), IVec3::new(2, 0, 0), IVec3::new(-1, 0, 0)],
            vec![IVec3::new(0, 0, 0)],
            vec![IVec3::new(0, 0, 0)],
            vec![IVec3::new(0, 0, 0)],
        ]
    );
    // bricks 0 and 6 share the first plastic chunk, in that order
    let first = &meshes[0][0].buffers;
    assert_eq!(first.position.len(), 60);
    assert_eq!(first.color[..30].to_vec(), vec![[255, 128, 0, 0]; 30]);
    assert_eq!(first.color[30..].to_vec(), vec![[1, 2, 3, 0]; 30]);
    assert_eq!(first.position[30], [39, 1, -1]);
}

#[test]
fn a_brick_without_faces_opens_no_chunk() {
    let mut hidden = brick((9000, 0, 0), (1, 1, 1));
    hidden.visibility = false;
    let data = save(vec![brick((0, 0, 0), (1, 1, 1)), hidden]);
    let mut generator = BVHMeshGenerator::new(&data).unwrap();
    let meshes = generator.gen_mesh();
    assert_eq!(meshes[0].len(), 1);
    assert_eq!(generator.faces()[1].len(), 0);
    assert_eq!(generator.aabbs()[1].center, IVec3::new(9000, 0, 0));
}

#[test]
fn the_top_of_a_walled_in_brick_stays() {
    // a wall on each side hides the sides; the lid has no bottom face to hide
    // the top with
    let data = save(vec![
        brick((0, 0, 0), (1, 1, 1)),
        brick((10, 0, 0), (9, 9, 9)),
        brick((-10, 0, 0), (9, 9, 9)),
        brick((0, 10, 0), (9, 9, 9)),
        brick((0, -10, 0), (9, 9, 9)),
        brick((0, 0, 10), (9, 9, 9)),
    ]);
    let mut generator = BVHMeshGenerator::new(&data).unwrap();
    generator.cull();
    let flags = hidden_flags(&generator);
    assert_eq!(flags[0], vec![false, true, true, true, true]);
    let meshes = generator.assemble();
    // the one face of the small brick that stays comes first in the buffers
    assert_eq!(meshes[0][0].buffers.position[..3].to_vec(), vec![[-1, 1, -1], [1, 1, 1], [1, 1, -1]]);
}

#[test]
fn the_pipeline_gives_the_same_buffers_twice() {
    let mut bricks = vec![];
    let mut s: u32 = 2024;
    let mut next = |m: u32| {
        s = s.wrapping_mul(1664525).wrapping_add(1013904223);
        (s >> 16) % m
    };
    for _ in 0..300 {
        let mut b = brick(
            (next(40) as i32 * 10 - 200, next(40) as i32 * 10 - 200, next(10) as i32 * 4),
            (5 * (1 + next(3)), 5 * (1 + next(3)), 2 * (1 + next(3))),
        );
        b.direction = next(6) as u8;
        b.rotation = next(4) as u8;
        b.material_index = next(5);
        b.asset_name_index = next(2);
        b.color = BrickColor::Index(next(2));
        bricks.push(b);
    }
    let data = save(bricks);
    assert!(data.is_valid());
    let mut first = BVHMeshGenerator::new(&data).unwrap();
    let copy = data.clone();
    let mut second = BVHMeshGenerator::new(&copy).unwrap();
    let a = first.gen_mesh();
    let b = second.gen_mesh();
    assert!(corners(&a) > 0);
    assert_eq!(flat(&a), flat(&b));
    assert_eq!(first.bvh().arena, second.bvh().arena);
    assert_eq!(hidden_flags(&first), hidden_flags(&second));
    // and once more on the same generator
    let c = first.gen_mesh();
    assert_eq!(flat(&a), flat(&c));
    let d = first.assemble();
    assert_eq!(flat(&a), flat(&d));
}

#[test]
fn the_generator_reports_bricks_out_of_range() {
    let data = save(vec![brick((0, 0, 0), (1, 1, 1)), brick((i32::MAX, 0, 0), (1, 1, 1))]);
    assert_eq!(BVHMeshGenerator::new(&data).err(), Some(GeometryError::NumericOverflow));
    assert_eq!(gen_faces(&data).err(), Some(GeometryError::NumericOverflow));
    assert_eq!(gen_aabbs(&data).err(), Some(GeometryError::NumericOverflow));
    // an invisible brick has no corner out of range, but its box is
    let mut far = brick((i32::MAX, 0, 0), (1, 1, 1));
    far.visibility = false;
    let data = save(vec![far]);
    assert!(gen_faces(&data).is_ok());
    assert_eq!(gen_aabbs(&data).err(), Some(GeometryError::NumericOverflow));
    assert_eq!(BVHMeshGenerator::new(&data).err(), Some(GeometryError::NumericOverflow));
}

#[test]
fn generator_parts() {
    let data = save(vec![brick((1, 1, 1), (1, 1, 1)), brick((3, 1, 1), (1, 1, 1))]);
    let generator = BVHMeshGenerator::new(&data).unwrap();
    assert_eq!(generator.save_data().bricks.len(), 2);
    assert_eq!(generator.faces().len(), 2);
    assert_eq!(
        generator.aabbs(),
        &vec![
            AABB { center: IVec3::new(1, 1, 1), halfwidths: IVec3::new(1, 1, 1) },
            AABB { center: IVec3::new(3, 1, 1), halfwidths: IVec3::new(1, 1, 1) }
        ]
    );
    let (bvh, aabbs) = generator.into_parts();
    assert_eq!(bvh.arena.len(), 3);
    assert!(bvh.is_valid(aabbs.len()));
}

#[test]
fn centroid_of_two_equal_boxes() {
    let boxes = vec![
        AABB { center: IVec3::new(0, 0, 0), halfwidths: IVec3::new(1, 1, 1) },
        AABB { center: IVec3::new(10, 0, 0), halfwidths: IVec3::new(1, 1, 1) },
    ];
    let c = center_of_mass(&boxes).unwrap();
    assert_eq!((c.sum_x, c.sum_y, c.sum_z, c.volume), (80, 0, 0, 16));
    assert_eq!(c.rounded(), IVec3::new(5, 0, 0));
}

#[test]
fn centroid_weighs_by_volume() {
    let boxes = vec![
        AABB { center: IVec3::new(0, 0, 0), halfwidths: IVec3::new(1, 1, 1) },
        AABB { center: IVec3::new(9, -9, 90), halfwidths: IVec3::new(2, 1, 1) },
    ];
    let c = center_of_mass(&boxes).unwrap();
    assert_eq!((c.sum_x, c.sum_y, c.sum_z, c.volume), (144, -144, 1440, 24));
    assert_eq!(c.rounded(), IVec3::new(6, -6, 60));
}

#[test]
fn centroid_rounds_toward_zero() {
    let boxes = vec![
        AABB { center: IVec3::new(-1, 1, 0), halfwidths: IVec3::new(1, 1, 1) },
        AABB { center: IVec3::new(-2, 2, 0), halfwidths: IVec3::new(1, 1, 1) },
    ];
    let c = center_of_mass(&boxes).unwrap();
    assert_eq!((c.sum_x, c.sum_y, c.volume), (-24, 24, 16));
    assert_eq!(c.rounded(), IVec3::new(-1, 1, 0));
}

#[test]
fn centroid_without_volume_is_reported() {
    assert_eq!(center_of_mass(&vec![]), Err(GeometryError::ZeroVolume));
    let flat = vec![
        AABB { center: IVec3::new(5, 5, 5), halfwidths: IVec3::new(0, 1, 1) },
        AABB { center: IVec3::new(1, 1, 1), halfwidths: IVec3::new(3, 0, 3) },
    ];
    assert_eq!(center_of_mass(&flat), Err(GeometryError::ZeroVolume));
}

#[test]
fn centroid_overflow_is_reported() {
    let l = 0x0800_0000 / 2;
    let huge = AABB { center: IVec3::new(l, -l, l), halfwidths: IVec3::new(l, l, l) };
    // one box: 8 l^3 = 2^81 in volume, 2^107 in weighted position
    let c = center_of_mass(&vec![huge]).unwrap();
    assert_eq!(c.volume, 1i128 << 81);
    assert_eq!(c.sum_y, -(1i128 << 107));
    assert_eq!(c.rounded(), IVec3::new(l, -l, l));
    // 2^20 of them reach 2^127 in weighted position
    let many = vec![huge; 1 << 20];
    assert_eq!(center_of_mass(&many), Err(GeometryError::NumericOverflow));
    let some = vec![huge; (1 << 20) - 1];
    assert!(center_of_mass(&some).is_ok());
}

#[test]
fn centroid_of_a_save() {
    let data = save(vec![brick((0, 0, 0), (1, 1, 1)), brick((10, 0, 0), (1, 1, 1))]);
    let generator = BVHMeshGenerator::new(&data).unwrap();
    assert_eq!(generator.center_of_mass().unwrap().rounded(), IVec3::new(5, 0, 0));
}

#[test]
fn centroid_validity_is_tested() {
    let l = 0x0800_0000i128;
    assert!(Centroid { sum_x: 80, sum_y: 0, sum_z: 0, volume: 16 }.is_valid());
    assert!(!Centroid { sum_x: 80, sum_y: 0, sum_z: 0, volume: 0 }.is_valid());
    assert!(!Centroid { sum_x: 0, sum_y: 0, sum_z: 0, volume: -1 }.is_valid());
    assert!(Centroid { sum_x: l, sum_y: -l, sum_z: 0, volume: 1 }.is_valid());
    assert!(!Centroid { sum_x: l + 1, sum_y: 0, sum_z: 0, volume: 1 }.is_valid());
    assert!(!Centroid { sum_x: 0, sum_y: 0, sum_z: -l - 1, volume: 1 }.is_valid());
    assert!(Centroid { sum_x: i128::MIN, sum_y: i128::MAX, sum_z: 0, volume: i128::MAX }.is_valid());
}

#[test]
fn buffers_are_aligned_and_chunks_are_not_repeated() {
    let mut bricks = vec![];
    for i in 0..50 {
        let mut b = brick((i * 300 - 7000, (i % 7) * 900, 0), (5, 5, 2));
        b.material_index = (i % 5) as u32;
        bricks.push(b);
    }
    let data = save(bricks);
    let mut generator = BVHMeshGenerator::new(&data).unwrap();
    let meshes = generator.gen_mesh();
    for chunks in &meshes {
        for (i, c) in chunks.iter().enumerate() {
            assert_eq!(c.buffers.position.len(), c.buffers.color.len());
            assert_eq!(c.buffers.position.len(), c.buffers.normal.len());
            assert_eq!(c.buffers.position.len() % 3, 0);
            for d in &chunks[i + 1..] {
                assert_ne!(c.chunk, d.chunk);
            }
        }
    }
}

#[test]
fn one_call_gives_what_the_generator_gives() {
    let mut bricks = vec![
        brick((0, 0, 0), (5, 5, 2)),
        brick((10, 0, 0), (5, 5, 2)),
        brick((10, 10, 0), (5, 5, 2)),
        brick((-3000, 10, 4), (5, 5, 6)),
    ];
    bricks[3].asset_name_index = 1;
    bricks[2].material_index = 2;
    let data = save(bricks);
    let direct = brickmesh::generator::mesh_of_save(&data).unwrap();
    let mut generator = BVHMeshGenerator::new(&data).unwrap();
    assert_eq!(flat(&direct), flat(&generator.gen_mesh()));
    assert_eq!(flat(&direct), flat(&brickmesh::generator::mesh_of_save(&data).unwrap()));
    let far = save(vec![brick((i32::MIN, 0, 0), (1, 1, 1))]);
    assert_eq!(
        brickmesh::generator::mesh_of_save(&far).err(),
        Some(GeometryError::NumericOverflow)
    );
}

#[test]
fn the_generator_finds_all_touching_bricks() {
    // a row along -X, where combined boxes have their centres rounded up
    let bricks: Vec<Brick> = (0..9).map(|i| brick((-3 - 2 * i, -7, 0), (1, 1, 1))).collect();
    let data = save(bricks);
    let generator = BVHMeshGenerator::new(&data).unwrap();
    for i in 0..9usize {
        let mut found = generator.neighbors(i);
        found.sort();
        let expected: Vec<usize> =
            (0..9).filter(|&j| j != i && (j as i32 - i as i32).abs() == 1).collect();
        assert_eq!(found, expected);
        let mut walked = vec![];
        generator.traverse_neighbors(generator.bvh().root, i, &mut walked);
        walked.sort();
        assert_eq!(walked, expected);
    }
}

#[test]
fn a_row_of_cubes_below_zero_hides_every_face_between_them() {
    let bricks: Vec<Brick> = (0..9).map(|i| brick((-3 - 2 * i, -7, 0), (1, 1, 1))).collect();
    let data = save(bricks);
    let mut generator = BVHMeshGenerator::new(&data).unwrap();
    let meshes = generator.gen_mesh();
    let flags = hidden_flags(&generator);
    // faces are top, front, back, left (-X), right (+X); the row runs toward -X
    assert_eq!(flags[0], vec![false, false, false, true, false]);
    assert_eq!(flags[8], vec![false, false, false, false, true]);
    for i in 1..8 {
        assert_eq!(flags[i], vec![false, false, false, true, true]);
    }
    // 9 * 5 faces, 16 of them hidden
    assert_eq!(corners(&meshes), (45 - 16) * 6);
}

#[test]
fn the_generator_answers_rays() {
    let data = save(vec![brick((0, 0, 0), (1, 1, 1)), brick((10, 0, 0), (1, 1, 1)), brick((0, 10, 0), (1, 1, 1))]);
    let generator = BVHMeshGenerator::new(&data).unwrap();
    let down_on = |x: i64, z: i64| Ray {
        origin: I64Vec3::new(x * RAY_UNITS, 100 * RAY_UNITS, z * RAY_UNITS),
        direction: I64Vec3::new(0, -1, 0),
    };
    // the save's second axis is the world's third
    assert_eq!(generator.intersection(&down_on(0, 0)), Some(0));
    assert_eq!(generator.intersection(&down_on(10, 0)), Some(1));
    assert_eq!(generator.intersection(&down_on(0, 10)), Some(2));
    assert_eq!(generator.intersection(&down_on(5, 5)), None);
    let empty = save(vec![]);
    let generator = BVHMeshGenerator::new(&empty).unwrap();
    assert_eq!(generator.intersection(&down_on(0, 0)), None);
}
