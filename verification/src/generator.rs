//! The pipeline over a whole save: boxes, faces and tree, then culling and
//! the vertex buffers.

use vstd::prelude::*;
use crate::aabb::AABB;
use crate::bounds::all_wf;
use crate::brick::SaveData;
use crate::builder::{brick_faces, face_views, faces_wf, spec_brick_polys, spec_upward_faces};
use crate::bvh::{
    iota, lemma_build_covers, lemma_build_holds_every_brick, lemma_build_len, spec_build,
    subtree_leaves, BVHNode, BVH,
};
use crate::centroid::{center_of_mass, sums_fit, volume_sum, weighted_sum, Centroid};
use crate::cover::{spec_coincident_planes, spec_inside, spec_opposite};
use crate::error::GeometryError;
use crate::faces::{polys_within, Face, FaceView, VERTEX_LIMIT};
use crate::mat::MATERIAL_SLOTS;
use crate::mesh::{assemble, mesh_views, meshes_wf, spec_assemble, MeshChunk, MeshChunkView};
use crate::query::{brute_force_neighbors, lemma_tree_neighbors_are_brute_force, spec_neighbors};
use crate::ray::{spec_first_hit, spec_intersects, Ray};
use crate::sort::indices_in_range;
use crate::vec3::{Axis, IVec3};

verus! {

/// The asset name of brick `i`.
pub open spec fn spec_brick_name(save_data: SaveData, i: int) -> Seq<char> {
    save_data.brick_assets[save_data.bricks[i].asset_name_index as int]@
}

/// The box of brick `i` stays inside the world.
pub open spec fn aabb_fits(save_data: SaveData, i: int) -> bool {
    let (c, h) = AABB::spec_from_brick(save_data.bricks[i], save_data);
    AABB::fits(c.x, h.0) && AABB::fits(c.y, h.1) && AABB::fits(c.z, h.2)
}

/// The box of brick `i`.
pub open spec fn spec_brick_aabb(save_data: SaveData, i: int) -> AABB {
    let (c, h) = AABB::spec_from_brick(save_data.bricks[i], save_data);
    AABB { center: c, halfwidths: IVec3 { x: h.0 as i32, y: h.1 as i32, z: h.2 as i32 } }
}

/// The corners of brick `i` stay within `VERTEX_LIMIT`.
pub open spec fn faces_fit(save_data: SaveData, i: int) -> bool {
    polys_within(
        spec_brick_polys(save_data.bricks[i], spec_brick_name(save_data, i)),
        VERTEX_LIMIT as int,
    )
}

/// Brick `i` stays inside the ranges that the arithmetic is exact in.
pub open spec fn brick_fits(save_data: SaveData, i: int) -> bool {
    faces_fit(save_data, i) && aabb_fits(save_data, i)
}

/// The faces of brick `i` before any culling.
pub open spec fn spec_brick_faces(save_data: SaveData, i: int) -> Seq<FaceView> {
    spec_upward_faces(spec_brick_polys(save_data.bricks[i], spec_brick_name(save_data, i)))
}

/// The views of the face lists of all bricks.
pub open spec fn all_face_views(faces: Seq<Vec<Face>>) -> Seq<Seq<FaceView>> {
    Seq::new(faces.len(), |i: int| face_views(faces[i]@))
}

/// The faces of every brick, in brick order. The first brick with a corner
/// beyond `VERTEX_LIMIT` makes it `NumericOverflow`.
pub fn gen_faces(save_data: &SaveData) -> (r: Result<Vec<Vec<Face>>, GeometryError>)
    requires
        save_data.wf(),
    ensures
        match r {
            Ok(faces) => {
                &&& faces@.len() == save_data.bricks@.len()
                &&& forall|i: int| 0 <= i < faces@.len() ==> #[trigger] faces_fit(*save_data, i)
                &&& forall|i: int|
                    0 <= i < faces@.len() ==> face_views(#[trigger] faces@[i]@) == spec_brick_faces(
                        *save_data,
                        i,
                    ) && faces_wf(faces@[i]@) && faces@[i]@.len() <= usize::MAX
            },
            Err(e) => {
                &&& e == GeometryError::NumericOverflow
                &&& exists|i: int| 0 <= i < save_data.bricks@.len() && !#[trigger] faces_fit(*save_data, i)
            },
        },
{
    let mut data: Vec<Vec<Face>> = Vec::new();
    let mut i: usize = 0;
    while i < save_data.bricks.len()
        invariant
            i <= save_data.bricks.len(),
            save_data.wf(),
            data@.len() == i,
            forall|k: int| 0 <= k < i ==> #[trigger] faces_fit(*save_data, k),
            forall|k: int|
                0 <= k < i ==> face_views(#[trigger] data@[k]@) == spec_brick_faces(*save_data, k)
                    && faces_wf(data@[k]@) && data@[k]@.len() <= usize::MAX,
        decreases save_data.bricks.len() - i,
    {
        let brick = &save_data.bricks[i];
        assert(save_data.brick_ok(i as int));
        let name = save_data.brick_assets[brick.asset_name_index as usize].as_str();
        match brick_faces(brick, name) {
            Ok(faces) => {
                data.push(faces);
            },
            Err(e) => {
                assert(!faces_fit(*save_data, i as int));
                return Err(e);
            },
        }
        i += 1;
    }
    Ok(data)
}

/// The boxes of every brick, in brick order. The first brick that reaches
/// outside the world makes it `NumericOverflow`.
pub fn gen_aabbs(save_data: &SaveData) -> (r: Result<Vec<AABB>, GeometryError>)
    requires
        save_data.wf(),
    ensures
        match r {
            Ok(aabbs) => {
                &&& aabbs@.len() == save_data.bricks@.len()
                &&& all_wf(aabbs@)
                &&& forall|i: int|
                    0 <= i < aabbs@.len() ==> #[trigger] aabb_fits(*save_data, i) && aabbs@[i]
                        == spec_brick_aabb(*save_data, i)
            },
            Err(e) => {
                &&& e == GeometryError::NumericOverflow
                &&& exists|i: int| 0 <= i < save_data.bricks@.len() && !#[trigger] aabb_fits(*save_data, i)
            },
        },
{
    let mut aabbs: Vec<AABB> = Vec::new();
    let mut i: usize = 0;
    while i < save_data.bricks.len()
        invariant
            i <= save_data.bricks.len(),
            save_data.wf(),
            aabbs@.len() == i,
            all_wf(aabbs@),
            forall|k: int|
                0 <= k < i ==> #[trigger] aabb_fits(*save_data, k) && aabbs@[k] == spec_brick_aabb(
                    *save_data,
                    k,
                ),
        decreases save_data.bricks.len() - i,
    {
        let brick = &save_data.bricks[i];
        assert(save_data.brick_ok(i as int));
        match AABB::from_brick(brick, save_data) {
            Ok(aabb) => {
                aabbs.push(aabb);
            },
            Err(e) => {
                assert(!aabb_fits(*save_data, i as int));
                return Err(e);
            },
        }
        i += 1;
    }
    Ok(aabbs)
}

/// Everything that is built from one save: the boxes and faces of its bricks
/// and the tree over the boxes.
pub struct BVHMeshGenerator<'a> {
    save_data: &'a SaveData,
    faces: Vec<Vec<Face>>,
    aabbs: Vec<AABB>,
    bvh: BVH,
}

impl<'a> BVHMeshGenerator<'a> {
    /// The save that this was built from.
    pub closed spec fn spec_save_data(&self) -> SaveData {
        *self.save_data
    }

    /// The faces of every brick, in brick order.
    pub closed spec fn spec_faces(&self) -> Seq<Seq<FaceView>> {
        all_face_views(self.faces@)
    }

    /// The boxes of every brick, in brick order.
    pub closed spec fn spec_aabbs(&self) -> Seq<AABB> {
        self.aabbs@
    }

    /// The nodes of the tree.
    pub closed spec fn spec_arena(&self) -> Seq<BVHNode> {
        self.bvh.arena@
    }

    /// The place of the tree's root.
    pub closed spec fn spec_root(&self) -> usize {
        self.bvh.root
    }

    /// The tree holds every brick and its boxes cover what lies below them.
    pub closed spec fn spec_bvh_covers(&self) -> bool {
        self.bvh.covers(self.aabbs@)
    }

    /// The save is well formed, the boxes and faces are those of its bricks,
    /// whatever is hidden, and the tree is the one over all boxes.
    pub closed spec fn wf(&self) -> bool {
        let n = self.save_data.bricks@.len();
        &&& self.save_data.wf()
        &&& n <= usize::MAX
        &&& self.aabbs@.len() == n
        &&& self.faces@.len() == n
        &&& all_wf(self.aabbs@)
        &&& forall|i: int|
            0 <= i < n ==> #[trigger] brick_fits(*self.save_data, i) && self.aabbs@[i]
                == spec_brick_aabb(*self.save_data, i) && faces_wf(self.faces@[i]@) && same_geometry(
                face_views(self.faces@[i]@),
                spec_brick_faces(*self.save_data, i),
            ) && self.faces@[i]@.len() <= usize::MAX
        &&& self.bvh.wf(self.aabbs@)
        &&& n > 0 ==> self.bvh.arena@ == spec_build(iota(n), self.aabbs@, 0)
        &&& n == 0 ==> self.bvh.arena@.len() == 0
    }

    /// Builds boxes, faces and tree for a save. A save with a brick that
    /// reaches outside the world, or with a corner beyond `VERTEX_LIMIT`,
    /// gives `NumericOverflow`.
    pub fn new(save_data: &'a SaveData) -> (r: Result<Self, GeometryError>)
        requires
            save_data.wf(),
        ensures
            match r {
                Ok(generator) => {
                    &&& generator.wf()
                    &&& generator.spec_save_data() == *save_data
                    &&& forall|i: int|
                        0 <= i < save_data.bricks@.len() ==> #[trigger] brick_fits(*save_data, i)
                    &&& generator.spec_faces().len() == save_data.bricks@.len()
                    &&& forall|i: int|
                        0 <= i < save_data.bricks@.len() ==> #[trigger] generator.spec_faces()[i]
                            == spec_brick_faces(*save_data, i)
                    &&& generator.spec_aabbs().len() == save_data.bricks@.len()
                    &&& forall|i: int|
                        0 <= i < save_data.bricks@.len() ==> #[trigger] generator.spec_aabbs()[i]
                            == spec_brick_aabb(*save_data, i)
                    &&& save_data.bricks@.len() > 0 ==> generator.spec_arena() == spec_build(
                        iota(save_data.bricks@.len()),
                        generator.spec_aabbs(),
                        0,
                    ) && generator.spec_root() == generator.spec_arena().len() - 1
                    &&& save_data.bricks@.len() == 0 ==> generator.spec_arena().len() == 0
                        && generator.spec_root() == 0
                },
                Err(e) => {
                    &&& e == GeometryError::NumericOverflow
                    &&& exists|i: int|
                        0 <= i < save_data.bricks@.len() && !#[trigger] brick_fits(*save_data, i)
                },
            },
    {
        let faces = match gen_faces(save_data) {
            Ok(faces) => faces,
            Err(e) => {
                proof {
                    let w = choose|w: int|
                        0 <= w < save_data.bricks@.len() && !#[trigger] faces_fit(*save_data, w);
                    assert(!brick_fits(*save_data, w));
                }
                return Err(e);
            },
        };
        let aabbs = match gen_aabbs(save_data) {
            Ok(aabbs) => aabbs,
            Err(e) => {
                proof {
                    let w = choose|w: int|
                        0 <= w < save_data.bricks@.len() && !#[trigger] aabb_fits(*save_data, w);
                    assert(!brick_fits(*save_data, w));
                }
                return Err(e);
            },
        };
        let mut indices: Vec<usize> = Vec::new();
        let mut i: usize = 0;
        while i < save_data.bricks.len()
            invariant
                i <= save_data.bricks.len(),
                indices@ == iota(i as nat),
            decreases save_data.bricks.len() - i,
        {
            indices.push(i);
            assert(indices@ =~= iota((i + 1) as nat));
            i += 1;
        }
        let bvh = BVH::new(indices, &aabbs);
        let generator = BVHMeshGenerator { save_data, faces, aabbs, bvh };
        proof {
            assert forall|k: int| 0 <= k < save_data.bricks@.len() implies #[trigger] brick_fits(
                *save_data,
                k,
            ) && generator.aabbs@[k] == spec_brick_aabb(*save_data, k) && faces_wf(
                generator.faces@[k]@,
            ) && same_geometry(
                face_views(generator.faces@[k]@),
                spec_brick_faces(*save_data, k),
            ) && generator.spec_faces()[k] == spec_brick_faces(*save_data, k)
                && generator.faces@[k]@.len() <= usize::MAX by {
                assert(faces_fit(*save_data, k));
                assert(aabb_fits(*save_data, k));
            }
            assert forall|k: int| 0 <= k < save_data.bricks@.len() implies #[trigger] generator.spec_faces()[k]
                == spec_brick_faces(*save_data, k) by {
                assert(brick_fits(*save_data, k));
            }
            assert forall|k: int| 0 <= k < save_data.bricks@.len() implies #[trigger] generator.spec_aabbs()[k]
                == spec_brick_aabb(*save_data, k) by {
                assert(brick_fits(*save_data, k));
            }
            assert(generator.wf());
        }
        Ok(generator)
    }


    /// Whether some face of one of the bricks `neighbors` covers face `j` of
    /// brick `target`.
    pub fn face_covered(&self, target: usize, j: usize, neighbors: &Vec<usize>) -> (r: bool)
        requires
            self.wf(),
            target < self.spec_faces().len(),
            j < self.spec_faces()[target as int].len(),
            indices_in_range(neighbors@, self.spec_faces().len()),
        ensures
            r == spec_covered(self.spec_faces(), target as int, j as int, neighbors@),
    {
        let ghost faces = self.spec_faces();
        assert(brick_fits(*self.save_data, target as int));
        let face = &self.faces[target][j];
        assert(faces[target as int][j as int] == face@);
        let mut a: usize = 0;
        while a < neighbors.len()
            invariant
                a <= neighbors.len(),
                self.wf(),
                faces == self.spec_faces(),
                target < faces.len(),
                j < faces[target as int].len(),
                face@ == faces[target as int][j as int],
                face@.wf(),
                indices_in_range(neighbors@, faces.len()),
                forall|b: int, k: int|
                    0 <= b < a && 0 <= k < faces[neighbors@[b] as int].len() ==> !#[trigger] spec_inside(
                        faces[target as int][j as int],
                        faces[neighbors@[b] as int][k],
                    ),
            decreases neighbors.len() - a,
        {
            let other_i = neighbors[a];
            assert(brick_fits(*self.save_data, other_i as int));
            let others = &self.faces[other_i];
            let mut k: usize = 0;
            while k < others.len()
                invariant
                    k <= others.len(),
                    a < neighbors.len(),
                    other_i == neighbors@[a as int],
                    other_i < faces.len(),
                    faces == self.spec_faces(),
                    others@ == self.faces@[other_i as int]@,
                    faces_wf(others@),
                    face@ == faces[target as int][j as int],
                    face@.wf(),
                    forall|c: int|
                        0 <= c < k ==> !#[trigger] spec_inside(
                            faces[target as int][j as int],
                            faces[other_i as int][c],
                        ),
                decreases others.len() - k,
            {
                let other = &others[k];
                assert(faces[other_i as int][k as int] == other@);
                assert(other@.wf());
                if face.inside(other) {
                    assert(spec_inside(
                        faces[target as int][j as int],
                        faces[neighbors@[a as int] as int][k as int],
                    ));
                    return true;
                }
                k += 1;
            }
            a += 1;
        }
        false
    }

    /// The faces of brick `target` that a face of one of the bricks
    /// `neighbors` covers, each as the pair of brick and face, in face order.
    pub fn cull_faces(&self, target: usize, neighbors: Vec<usize>) -> (hidden: Vec<(usize, usize)>)
        requires
            self.wf(),
            target < self.spec_faces().len(),
            indices_in_range(neighbors@, self.spec_faces().len()),
        ensures
            hidden@ == spec_cull(
                self.spec_faces(),
                target as int,
                neighbors@,
                self.spec_faces()[target as int].len(),
            ),
    {
        let mut hidden: Vec<(usize, usize)> = Vec::new();
        let n = self.faces[target].len();
        let mut j: usize = 0;
        while j < n
            invariant
                j <= n,
                self.wf(),
                target < self.spec_faces().len(),
                n == self.spec_faces()[target as int].len(),
                indices_in_range(neighbors@, self.spec_faces().len()),
                hidden@ == spec_cull(self.spec_faces(), target as int, neighbors@, j as nat),
            decreases n - j,
        {
            if self.face_covered(target, j, &neighbors) {
                hidden.push((target, j));
            }
            j += 1;
        }
        hidden
    }

    /// The faces that a face of another brick covers whose box touches their
    /// brick's box, each as the pair of brick and face, in brick order and
    /// then face order.
    pub fn hidden_faces(&self) -> (hidden: Vec<(usize, usize)>)
        requires
            self.wf(),
        ensures
            hidden@ == spec_hidden_faces(
                self.spec_faces(),
                self.spec_aabbs(),
                self.spec_arena(),
                self.spec_root(),
                self.spec_faces().len(),
            ),
            forall|pair: (usize, usize)|
                #[trigger] hidden@.contains(pair) <==> pair.0 < self.spec_faces().len() && pair.1
                    < self.spec_faces()[pair.0 as int].len() && spec_covered_by_touching(
                    self.spec_faces(),
                    self.spec_aabbs(),
                    pair.0 as int,
                    pair.1 as int,
                ),
    {
        let mut hidden: Vec<(usize, usize)> = Vec::new();
        let n = self.faces.len();
        let mut i: usize = 0;
        while i < n
            invariant
                i <= n,
                self.wf(),
                n == self.spec_faces().len(),
                hidden@ == spec_hidden_faces(
                    self.spec_faces(),
                    self.spec_aabbs(),
                    self.spec_arena(),
                    self.spec_root(),
                    i as nat,
                ),
            decreases n - i,
        {
            let neighbors = self.bvh.neighbors(&self.aabbs, i);
            let mut here = self.cull_faces(i, neighbors);
            hidden.append(&mut here);
            i += 1;
        }
        proof {
            let faces = self.spec_faces();
            assert forall|k: int| 0 <= k < faces.len() implies (#[trigger] faces[k]).len()
                <= usize::MAX by {
                assert(brick_fits(*self.save_data, k));
            }
            assert forall|pair: (usize, usize)|
                #[trigger] hidden@.contains(pair) <==> pair.0 < faces.len() && pair.1
                    < faces[pair.0 as int].len() && spec_covered_by_touching(
                    faces,
                    self.spec_aabbs(),
                    pair.0 as int,
                    pair.1 as int,
                ) by {
                lemma_hidden_faces_contains(
                    faces,
                    self.spec_aabbs(),
                    self.spec_arena(),
                    self.spec_root(),
                    faces.len(),
                    pair,
                );
                if pair.0 < faces.len() {
                    lemma_build_len(iota(faces.len()), self.spec_aabbs(), 0);
                    lemma_walk_covers_as_touching(
                        faces,
                        self.spec_aabbs(),
                        pair.0 as int,
                        pair.1 as int,
                    );
                }
            }
        }
        hidden
    }

    /// Marks every face hidden that a face of another brick covers whose box
    /// touches its brick's box. Nothing else changes.
    pub fn cull(&mut self)
        requires
            old(self).wf(),
        ensures
            final(self).wf(),
            final(self).spec_save_data() == old(self).spec_save_data(),
            final(self).spec_aabbs() == old(self).spec_aabbs(),
            final(self).spec_arena() == old(self).spec_arena(),
            final(self).spec_root() == old(self).spec_root(),
            culled_from(final(self).spec_faces(), old(self).spec_faces(), old(self).spec_aabbs()),
    {
        let hidden = self.hidden_faces();
        let ghost before = self.spec_faces();
        let ghost n = before.len();
        proof {
            assert forall|i: int| 0 <= i < n implies (#[trigger] before[i]).len() <= usize::MAX by {
                assert(brick_fits(*self.save_data, i));
            }
            assert forall|t: int| 0 <= t < hidden@.len() implies (#[trigger] hidden@[t]).0 < n
                && hidden@[t].1 < before[hidden@[t].0 as int].len() by {
                assert(hidden@.contains(hidden@[t]));
                lemma_hidden_faces_contains(
                    before,
                    self.spec_aabbs(),
                    self.spec_arena(),
                    self.spec_root(),
                    n,
                    hidden@[t],
                );
            }
        }
        let mut t: usize = 0;
        while t < hidden.len()
            invariant
                t <= hidden.len(),
                self.save_data == old(self).save_data,
                self.aabbs == old(self).aabbs,
                self.bvh == old(self).bvh,
                old(self).wf(),
                before == old(self).spec_faces(),
                n == before.len(),
                self.faces@.len() == n,
                forall|i: int| 0 <= i < n ==> (#[trigger] self.faces@[i])@.len() == before[i].len(),
                n <= usize::MAX,
                forall|i: int| 0 <= i < n ==> (#[trigger] before[i]).len() <= usize::MAX,
                forall|s: int|
                    0 <= s < hidden@.len() ==> (#[trigger] hidden@[s]).0 < n && hidden@[s].1
                        < before[hidden@[s].0 as int].len(),
                forall|i: int, j: int|
                    0 <= i < n && 0 <= j < before[i].len() ==> (#[trigger] self.faces@[i]@[j])@ == (
                    FaceView {
                        hidden: before[i][j].hidden || hidden@.take(t as int).contains(
                            (i as usize, j as usize),
                        ),
                        ..before[i][j]
                    }),
            decreases hidden.len() - t,
        {
            let (i, j) = hidden[t];
            let ghost faces_before = self.faces@;
            self.faces[i][j].hidden = true;
            proof {
                let done = hidden@.take(t as int);
                let more = hidden@.take(t as int + 1);
                assert(more =~= done.push(hidden@[t as int]));
                assert forall|a: int, b: int| 0 <= a < n && 0 <= b < before[a].len() implies (
                #[trigger] self.faces@[a]@[b])@ == (FaceView {
                    hidden: before[a][b].hidden || more.contains((a as usize, b as usize)),
                    ..before[a][b]
                }) by {
                    let pair = (a as usize, b as usize);
                    assert(faces_before[a]@[b]@ == (FaceView {
                        hidden: before[a][b].hidden || done.contains(pair),
                        ..before[a][b]
                    }));
                    if done.contains(pair) {
                        let w = choose|w: int| 0 <= w < done.len() && done[w] == pair;
                        assert(more[w] == pair);
                    }
                    if more.contains(pair) && !done.contains(pair) {
                        let w = choose|w: int| 0 <= w < more.len() && more[w] == pair;
                        if w < done.len() {
                            assert(done[w] == pair);
                        }
                        assert(pair == hidden@[t as int]);
                    }
                    if a == i && b == j {
                        assert(more[t as int] == pair);
                    }
                }
            }
            t += 1;
        }
        proof {
            assert(hidden@.take(t as int) =~= hidden@);
            let after = self.spec_faces();
            assert forall|i: int, j: int| 0 <= i < n && 0 <= j < before[i].len() implies (
            #[trigger] after[i][j]) == (FaceView {
                hidden: before[i][j].hidden || spec_covered_by_touching(
                    before,
                    old(self).spec_aabbs(),
                    i,
                    j,
                ),
                ..before[i][j]
            }) by {
                assert(after[i][j] == self.faces@[i]@[j]@);
                lemma_hidden_faces_contains(
                    before,
                    old(self).spec_aabbs(),
                    old(self).spec_arena(),
                    old(self).spec_root(),
                    n,
                    (i as usize, j as usize),
                );
                lemma_build_len(iota(n), old(self).spec_aabbs(), 0);
                lemma_walk_covers_as_touching(before, old(self).spec_aabbs(), i, j);
            }
            assert forall|i: int| 0 <= i < n implies #[trigger] brick_fits(*self.save_data, i)
                && self.aabbs@[i] == spec_brick_aabb(*self.save_data, i) && faces_wf(self.faces@[i]@)
                && same_geometry(face_views(self.faces@[i]@), spec_brick_faces(*self.save_data, i))
                && self.faces@[i]@.len() <= usize::MAX by {
                assert(brick_fits(*old(self).save_data, i));
                let was = face_views(old(self).faces@[i]@);
                assert(was == before[i]);
                assert forall|j: int| 0 <= j < self.faces@[i]@.len() implies (
                #[trigger] self.faces@[i]@[j])@.wf() by {
                    assert(old(self).faces@[i]@[j]@.wf());
                    assert(before[i][j] == old(self).faces@[i]@[j]@);
                }
                assert forall|j: int| 0 <= j < face_views(self.faces@[i]@).len() implies (
                #[trigger] face_views(self.faces@[i]@)[j]).verts == spec_brick_faces(
                    *self.save_data,
                    i,
                )[j].verts && face_views(self.faces@[i]@)[j].normal == spec_brick_faces(
                    *self.save_data,
                    i,
                )[j].normal by {
                    assert(before[i][j] == was[j]);
                    assert(self.faces@[i]@[j]@.verts == before[i][j].verts);
                }
            }
        }
    }

    /// The vertex buffers of the faces that are not hidden.
    pub fn assemble(&self) -> (meshes: Vec<Vec<MeshChunk>>)
        requires
            self.wf(),
        ensures
            meshes@.len() == MATERIAL_SLOTS,
            mesh_views(meshes@) == spec_assemble(
                self.spec_save_data(),
                self.spec_faces(),
                self.spec_aabbs(),
                self.spec_faces().len(),
            ),
            meshes_wf(mesh_views(meshes@)),
    {
        proof {
            assert forall|i: int| 0 <= i < self.faces@.len() implies faces_wf(
                #[trigger] self.faces@[i]@,
            ) by {
                assert(brick_fits(*self.save_data, i));
            }
            assert(self.spec_faces() =~= Seq::new(
                self.faces@.len(),
                |i: int| face_views(self.faces@[i]@),
            ));
        }
        assemble(self.save_data, &self.faces, &self.aabbs)
    }

    /// Culls, then lays the faces that stay visible out in vertex buffers:
    /// for each material the chunks in the order in which bricks first reach
    /// them, and in each chunk the faces in brick order.
    pub fn gen_mesh(&mut self) -> (meshes: Vec<Vec<MeshChunk>>)
        requires
            old(self).wf(),
        ensures
            final(self).wf(),
            final(self).spec_save_data() == old(self).spec_save_data(),
            final(self).spec_aabbs() == old(self).spec_aabbs(),
            final(self).spec_arena() == old(self).spec_arena(),
            final(self).spec_root() == old(self).spec_root(),
            culled_from(final(self).spec_faces(), old(self).spec_faces(), old(self).spec_aabbs()),
            meshes@.len() == MATERIAL_SLOTS,
            mesh_views(meshes@) == spec_assemble(
                final(self).spec_save_data(),
                final(self).spec_faces(),
                final(self).spec_aabbs(),
                final(self).spec_faces().len(),
            ),
            meshes_wf(mesh_views(meshes@)),
    {
        self.cull();
        self.assemble()
    }

    /// Appends to `neighbors` the bricks below `current_node` whose boxes the
    /// walk finds to touch the box of brick `target_index`. From the root
    /// these are all bricks but the target whose boxes touch the target's.
    pub fn traverse_neighbors(&self, current_node: usize, target_index: usize, neighbors: &mut Vec<usize>)
        requires
            self.wf(),
            current_node < self.spec_arena().len(),
            target_index < self.spec_aabbs().len(),
        ensures
            final(neighbors)@ == old(neighbors)@ + spec_neighbors(
                self.spec_arena(),
                self.spec_aabbs(),
                current_node as int,
                target_index as int,
            ),
            current_node == self.spec_root() ==> spec_neighbors(
                self.spec_arena(),
                self.spec_aabbs(),
                current_node as int,
                target_index as int,
            ).to_set() == brute_force_neighbors(self.spec_aabbs(), target_index as int),
    {
        proof {
            lemma_build_len(iota(self.aabbs@.len()), self.aabbs@, 0);
            lemma_tree_neighbors_are_brute_force(self.aabbs@, target_index as int);
        }
        self.bvh.traverse_neighbors(&self.aabbs, current_node, target_index, neighbors);
    }

    /// All bricks but `target_index` whose boxes touch the box of that
    /// brick, in the order in which the walk of the tree meets them.
    pub fn neighbors(&self, target_index: usize) -> (found: Vec<usize>)
        requires
            self.wf(),
            target_index < self.spec_aabbs().len(),
        ensures
            found@ == spec_neighbors(
                self.spec_arena(),
                self.spec_aabbs(),
                self.spec_root() as int,
                target_index as int,
            ),
            found@.to_set() == brute_force_neighbors(self.spec_aabbs(), target_index as int),
    {
        proof {
            lemma_build_len(iota(self.aabbs@.len()), self.aabbs@, 0);
            lemma_tree_neighbors_are_brute_force(self.aabbs@, target_index as int);
        }
        self.bvh.neighbors(&self.aabbs, target_index)
    }

    /// A brick whose box the ray meets: the first that the walk of the tree
    /// finds, not the closest along the ray. `None` just when the ray meets
    /// the box of no brick.
    pub fn intersection(&self, ray: &Ray) -> (hit: Option<usize>)
        requires
            self.wf(),
            ray.wf(),
        ensures
            hit == spec_first_hit(self.spec_arena(), self.spec_aabbs(), self.spec_root() as int, *ray),
            hit matches Some(i) ==> i < self.spec_aabbs().len() && spec_intersects(
                self.spec_aabbs()[i as int],
                *ray,
            ),
            hit is None <==> forall|j: usize|
                j < self.spec_aabbs().len() ==> !spec_intersects(
                    #[trigger] self.spec_aabbs()[j as int],
                    *ray,
                ),
    {
        proof {
            self.lemma_tree_covers();
        }
        self.bvh.intersection(ray, &self.aabbs)
    }

    /// The sums for the centre of mass of all boxes, each weighed by its
    /// volume.
    pub fn center_of_mass(&self) -> (r: Result<Centroid, GeometryError>)
        requires
            self.wf(),
        ensures
            match r {
                Ok(c) => {
                    &&& sums_fit(self.spec_aabbs(), self.spec_aabbs().len())
                    &&& c.wf()
                    &&& c.volume == volume_sum(self.spec_aabbs(), self.spec_aabbs().len())
                    &&& c.sum_x == weighted_sum(self.spec_aabbs(), Axis::X, self.spec_aabbs().len())
                    &&& c.sum_y == weighted_sum(self.spec_aabbs(), Axis::Y, self.spec_aabbs().len())
                    &&& c.sum_z == weighted_sum(self.spec_aabbs(), Axis::Z, self.spec_aabbs().len())
                },
                Err(GeometryError::NumericOverflow) => !sums_fit(
                    self.spec_aabbs(),
                    self.spec_aabbs().len(),
                ),
                Err(GeometryError::ZeroVolume) => sums_fit(self.spec_aabbs(), self.spec_aabbs().len())
                    && volume_sum(self.spec_aabbs(), self.spec_aabbs().len()) == 0,
            },
    {
        center_of_mass(&self.aabbs)
    }

    /// Gives up the tree and the boxes, for queries later on.
    pub fn into_parts(self) -> (parts: (BVH, Vec<AABB>))
        requires
            self.wf(),
        ensures
            parts.0.arena@ == self.spec_arena(),
            parts.0.root == self.spec_root(),
            parts.1@ == self.spec_aabbs(),
            parts.0.wf(parts.1@),
            parts.0.covers(parts.1@),
            all_wf(parts.1@),
    {
        proof {
            self.lemma_tree_covers();
        }
        (self.bvh, self.aabbs)
    }

    /// The tree holds every brick and its boxes cover what lies below them.
    pub proof fn lemma_tree_covers(&self)
        requires
            self.wf(),
        ensures
            self.spec_bvh_covers(),
    {
        if self.aabbs@.len() > 0 {
            let all = iota(self.aabbs@.len());
            lemma_build_len(all, self.aabbs@, 0);
            lemma_build_covers(self.bvh.arena@, all, self.aabbs@, 0);
            assert forall|j: usize| j < self.aabbs@.len() implies #[trigger] subtree_leaves(
                self.bvh.arena@,
                self.bvh.root as int,
            ).contains(j) by {
                lemma_build_holds_every_brick(self.bvh.arena@, all, self.aabbs@, 0, j);
                assert(all[j as int] == j);
            }
        }
    }

    /// The save that this was built from.
    pub fn save_data(&self) -> (save_data: &SaveData)
        ensures
            *save_data == self.spec_save_data(),
    {
        self.save_data
    }

    /// The faces of every brick, in brick order.
    pub fn faces(&self) -> (faces: &Vec<Vec<Face>>)
        ensures
            all_face_views(faces@) == self.spec_faces(),
    {
        &self.faces
    }

    /// The boxes of every brick, in brick order.
    pub fn aabbs(&self) -> (aabbs: &Vec<AABB>)
        ensures
            aabbs@ == self.spec_aabbs(),
    {
        &self.aabbs
    }

    /// The tree over the boxes.
    pub fn bvh(&self) -> (bvh: &BVH)
        ensures
            bvh.arena@ == self.spec_arena(),
            bvh.root == self.spec_root(),
            self.wf() ==> bvh.wf(self.spec_aabbs()) && bvh.covers(self.spec_aabbs()),
    {
        proof {
            if self.wf() {
                self.lemma_tree_covers();
            }
        }
        &self.bvh
    }
}


/// Some face of one of the bricks `neighbors` covers face `j` of brick
/// `target`.
pub open spec fn spec_covered(
    faces: Seq<Seq<FaceView>>,
    target: int,
    j: int,
    neighbors: Seq<usize>,
) -> bool {
    exists|a: int, k: int|
        0 <= a < neighbors.len() && 0 <= k < faces[neighbors[a] as int].len() && #[trigger] spec_inside(
            faces[target][j],
            faces[neighbors[a] as int][k],
        )
}

/// The covered ones among the first `count` faces of brick `target`, each as
/// the pair of brick and face, in face order.
pub open spec fn spec_cull(
    faces: Seq<Seq<FaceView>>,
    target: int,
    neighbors: Seq<usize>,
    count: nat,
) -> Seq<(usize, usize)>
    decreases count,
{
    if count == 0 {
        Seq::empty()
    } else {
        let before = spec_cull(faces, target, neighbors, (count - 1) as nat);
        if spec_covered(faces, target, count - 1, neighbors) {
            before.push((target as usize, (count - 1) as usize))
        } else {
            before
        }
    }
}

/// The covered faces of the first `count` bricks, in brick order: each brick
/// is held against the bricks that the walk of the tree finds for it.
pub open spec fn spec_hidden_faces(
    faces: Seq<Seq<FaceView>>,
    aabbs: Seq<AABB>,
    arena: Seq<BVHNode>,
    root: usize,
    count: nat,
) -> Seq<(usize, usize)>
    decreases count,
{
    if count == 0 {
        Seq::empty()
    } else {
        spec_hidden_faces(faces, aabbs, arena, root, (count - 1) as nat) + spec_cull(
            faces,
            count - 1,
            spec_neighbors(arena, aabbs, root as int, count - 1),
            faces[count - 1].len(),
        )
    }
}

/// A pair is among the covered faces of a brick just when it names that
/// brick and one of its covered faces.
pub proof fn lemma_cull_contains(
    faces: Seq<Seq<FaceView>>,
    target: int,
    neighbors: Seq<usize>,
    count: nat,
    pair: (usize, usize),
)
    requires
        0 <= target <= usize::MAX,
        count <= usize::MAX,
    ensures
        spec_cull(faces, target, neighbors, count).contains(pair) <==> pair.0 == target && pair.1
            < count && spec_covered(faces, target, pair.1 as int, neighbors),
    decreases count,
{
    if count > 0 {
        let before = spec_cull(faces, target, neighbors, (count - 1) as nat);
        lemma_cull_contains(faces, target, neighbors, (count - 1) as nat, pair);
        let last = (target as usize, (count - 1) as usize);
        if spec_covered(faces, target, count - 1, neighbors) {
            let all = before.push(last);
            assert(all[before.len() as int] == last);
            if before.contains(pair) {
                let w = choose|w: int| 0 <= w < before.len() && before[w] == pair;
                assert(all[w] == pair);
            }
            if all.contains(pair) {
                let w = choose|w: int| 0 <= w < all.len() && all[w] == pair;
                if w < before.len() {
                    assert(before[w] == pair);
                }
            }
        }
    }
}

/// A pair is among the covered faces of all bricks just when it names a brick
/// and one of its faces that a face of a brick covers which the walk finds
/// for that brick.
pub proof fn lemma_hidden_faces_contains(
    faces: Seq<Seq<FaceView>>,
    aabbs: Seq<AABB>,
    arena: Seq<BVHNode>,
    root: usize,
    count: nat,
    pair: (usize, usize),
)
    requires
        count <= faces.len(),
        count <= usize::MAX,
        forall|i: int| 0 <= i < faces.len() ==> (#[trigger] faces[i]).len() <= usize::MAX,
    ensures
        spec_hidden_faces(faces, aabbs, arena, root, count).contains(pair) <==> pair.0 < count
            && pair.1 < faces[pair.0 as int].len() && spec_covered(
            faces,
            pair.0 as int,
            pair.1 as int,
            spec_neighbors(arena, aabbs, root as int, pair.0 as int),
        ),
    decreases count,
{
    if count > 0 {
        let before = spec_hidden_faces(faces, aabbs, arena, root, (count - 1) as nat);
        let found = spec_neighbors(arena, aabbs, root as int, count - 1);
        let here = spec_cull(faces, count - 1, found, faces[count - 1].len());
        lemma_hidden_faces_contains(faces, aabbs, arena, root, (count - 1) as nat, pair);
        lemma_cull_contains(faces, count - 1, found, faces[count - 1].len(), pair);
        let all = before + here;
        if before.contains(pair) {
            let w = choose|w: int| 0 <= w < before.len() && before[w] == pair;
            assert(all[w] == pair);
        }
        if here.contains(pair) {
            let w = choose|w: int| 0 <= w < here.len() && here[w] == pair;
            assert(all[before.len() + w] == pair);
        }
        if all.contains(pair) {
            let w = choose|w: int| 0 <= w < all.len() && all[w] == pair;
            if w < before.len() {
                assert(before[w] == pair);
            } else {
                assert(here[w - before.len()] == pair);
            }
        }
    }
}

/// Some face of another brick whose box touches the box of brick `i` covers
/// face `j` of brick `i`.
pub open spec fn spec_covered_by_touching(
    faces: Seq<Seq<FaceView>>,
    aabbs: Seq<AABB>,
    i: int,
    j: int,
) -> bool {
    exists|a: int, k: int|
        0 <= a < faces.len() && a != i && aabbs[i].spec_neighbors(aabbs[a]) && 0 <= k
            < faces[a].len() && #[trigger] spec_inside(faces[i][j], faces[a][k])
}

/// Against the bricks that the walk of the tree over all boxes finds, a face
/// is covered just when a face of some brick covers it whose box touches its
/// brick's box: the walk finds every such brick.
pub proof fn lemma_walk_covers_as_touching(
    faces: Seq<Seq<FaceView>>,
    aabbs: Seq<AABB>,
    i: int,
    j: int,
)
    requires
        all_wf(aabbs),
        faces.len() == aabbs.len(),
        0 <= i < aabbs.len(),
        2 * aabbs.len() - 1 <= usize::MAX,
    ensures
        spec_covered(
            faces,
            i,
            j,
            spec_neighbors(spec_build(iota(aabbs.len()), aabbs, 0), aabbs, 2 * aabbs.len() - 2, i),
        ) <==> spec_covered_by_touching(faces, aabbs, i, j),
{
    let walk = spec_neighbors(
        spec_build(iota(aabbs.len()), aabbs, 0),
        aabbs,
        2 * aabbs.len() - 2,
        i,
    );
    lemma_tree_neighbors_are_brute_force(aabbs, i);
    if spec_covered(faces, i, j, walk) {
        let (a, k) = choose|a: int, k: int|
            0 <= a < walk.len() && 0 <= k < faces[walk[a] as int].len() && #[trigger] spec_inside(
                faces[i][j],
                faces[walk[a] as int][k],
            );
        assert(walk.contains(walk[a]));
        assert(walk.to_set().contains(walk[a]));
        assert(brute_force_neighbors(aabbs, i).contains(walk[a]));
        assert(spec_inside(faces[i][j], faces[walk[a] as int][k]));
    }
    if spec_covered_by_touching(faces, aabbs, i, j) {
        let (a, k) = choose|a: int, k: int|
            0 <= a < faces.len() && a != i && aabbs[i].spec_neighbors(aabbs[a]) && 0 <= k
                < faces[a].len() && #[trigger] spec_inside(faces[i][j], faces[a][k]);
        assert(brute_force_neighbors(aabbs, i).contains(a as usize));
        assert(walk.to_set().contains(a as usize));
        let w = choose|w: int| 0 <= w < walk.len() && walk[w] == a as usize;
        assert(spec_inside(faces[i][j], faces[walk[w] as int][k]));
    }
}

/// The faces `after` are the faces `before` with those hidden in addition
/// that a face of another brick covers whose box touches their brick's box.
pub open spec fn culled_from(
    after: Seq<Seq<FaceView>>,
    before: Seq<Seq<FaceView>>,
    aabbs: Seq<AABB>,
) -> bool {
    &&& after.len() == before.len()
    &&& forall|i: int| 0 <= i < before.len() ==> (#[trigger] after[i]).len() == before[i].len()
    &&& forall|i: int, j: int|
        0 <= i < before.len() && 0 <= j < before[i].len() ==> (#[trigger] after[i][j]) == (FaceView {
            hidden: before[i][j].hidden || spec_covered_by_touching(before, aabbs, i, j),
            ..before[i][j]
        })
}

/// The boxes of all bricks of a save.
pub open spec fn spec_all_aabbs(save_data: SaveData) -> Seq<AABB> {
    Seq::new(save_data.bricks@.len(), |i: int| spec_brick_aabb(save_data, i))
}

/// The faces of all bricks of a save before any culling.
pub open spec fn spec_fresh_faces(save_data: SaveData) -> Seq<Seq<FaceView>> {
    Seq::new(save_data.bricks@.len(), |i: int| spec_brick_faces(save_data, i))
}

/// The faces of all bricks of a save after culling.
pub open spec fn spec_culled_faces(save_data: SaveData) -> Seq<Seq<FaceView>> {
    let fresh = spec_fresh_faces(save_data);
    Seq::new(
        fresh.len(),
        |i: int|
            Seq::new(
                fresh[i].len(),
                |j: int|
                    FaceView {
                        hidden: fresh[i][j].hidden || spec_covered_by_touching(
                            fresh,
                            spec_all_aabbs(save_data),
                            i,
                            j,
                        ),
                        ..fresh[i][j]
                    },
            ),
    )
}

/// The vertex buffers of a save: what `new` and then `gen_mesh` give.
pub open spec fn spec_mesh(save_data: SaveData) -> Seq<Seq<MeshChunkView>> {
    spec_assemble(
        save_data,
        spec_culled_faces(save_data),
        spec_all_aabbs(save_data),
        save_data.bricks@.len(),
    )
}

/// The whole pipeline is a function of the save: whatever faces a culling of
/// the save's fresh faces leaves, they are the faces `spec_culled_faces`, and
/// the buffers are `spec_mesh`. So two runs on the same save give the same
/// buffers, entry for entry.
pub proof fn lemma_mesh_is_function_of_save(save_data: SaveData, faces: Seq<Seq<FaceView>>)
    requires
        culled_from(faces, spec_fresh_faces(save_data), spec_all_aabbs(save_data)),
    ensures
        faces == spec_culled_faces(save_data),
        spec_assemble(save_data, faces, spec_all_aabbs(save_data), save_data.bricks@.len())
            == spec_mesh(save_data),
{
    let target = spec_culled_faces(save_data);
    let fresh = spec_fresh_faces(save_data);
    let aabbs = spec_all_aabbs(save_data);
    assert forall|i: int| 0 <= i < faces.len() implies #[trigger] faces[i] =~= target[i] by {
        assert(faces[i].len() == fresh[i].len());
        assert forall|j: int| 0 <= j < faces[i].len() implies faces[i][j] == #[trigger] target[i][j] by {
            assert(faces[i][j] == (FaceView {
                hidden: fresh[i][j].hidden || spec_covered_by_touching(fresh, aabbs, i, j),
                ..fresh[i][j]
            }));
        }
    }
    assert(faces =~= target);
}

/// The vertex buffers of a save, from its brick records alone: boxes, faces
/// and tree are built, the faces culled, and what stays visible laid out. The
/// result is `spec_mesh` of the save, so the same save gives the same
/// buffers, entry for entry, however often this runs.
pub fn mesh_of_save(save_data: &SaveData) -> (r: Result<Vec<Vec<MeshChunk>>, GeometryError>)
    requires
        save_data.wf(),
    ensures
        match r {
            Ok(meshes) => {
                &&& forall|i: int| 0 <= i < save_data.bricks@.len() ==> #[trigger] brick_fits(*save_data, i)
                &&& mesh_views(meshes@) == spec_mesh(*save_data)
                &&& meshes_wf(mesh_views(meshes@))
            },
            Err(e) => {
                &&& e == GeometryError::NumericOverflow
                &&& exists|i: int|
                    0 <= i < save_data.bricks@.len() && !#[trigger] brick_fits(*save_data, i)
            },
        },
{
    let mut generator = match BVHMeshGenerator::new(save_data) {
        Ok(generator) => generator,
        Err(e) => {
            return Err(e);
        },
    };
    proof {
        assert(generator.spec_faces() =~= spec_fresh_faces(*save_data));
        assert(generator.spec_aabbs() =~= spec_all_aabbs(*save_data));
    }
    let meshes = generator.gen_mesh();
    proof {
        lemma_mesh_is_function_of_save(*save_data, generator.spec_faces());
    }
    Ok(meshes)
}

/// After culling, a face that was visible stays visible unless some face of
/// another brick whose box touches its brick's faces the opposite way and
/// shares its plane.
pub proof fn lemma_uncovered_stays_visible(
    after: Seq<Seq<FaceView>>,
    before: Seq<Seq<FaceView>>,
    aabbs: Seq<AABB>,
    i: int,
    j: int,
)
    requires
        culled_from(after, before, aabbs),
        0 <= i < before.len(),
        0 <= j < before[i].len(),
        !before[i][j].hidden,
        forall|a: int, k: int|
            0 <= a < before.len() && a != i && aabbs[i].spec_neighbors(aabbs[a]) && 0 <= k
                < before[a].len() ==> !(spec_opposite(
                before[i][j].normal,
                (#[trigger] before[a][k]).normal,
            ) && spec_coincident_planes(before[i][j], before[a][k])),
    ensures
        !after[i][j].hidden,
{
    if spec_covered_by_touching(before, aabbs, i, j) {
        let (a, k) = choose|a: int, k: int|
            0 <= a < before.len() && a != i && aabbs[i].spec_neighbors(aabbs[a]) && 0 <= k
                < before[a].len() && #[trigger] spec_inside(before[i][j], before[a][k]);
        let g = before[a][k];
        assert(spec_opposite(before[i][j].normal, g.normal) && spec_coincident_planes(
            before[i][j],
            g,
        ));
    }
    assert(after[i][j].hidden == (before[i][j].hidden || spec_covered_by_touching(
        before,
        aabbs,
        i,
        j,
    )));
}

/// After culling, a face is hidden whenever a face of another brick covers it
/// whose box touches its brick's box.
pub proof fn lemma_covered_is_hidden(
    after: Seq<Seq<FaceView>>,
    before: Seq<Seq<FaceView>>,
    aabbs: Seq<AABB>,
    i: int,
    j: int,
    a: int,
    k: int,
)
    requires
        culled_from(after, before, aabbs),
        0 <= i < before.len(),
        0 <= j < before[i].len(),
        0 <= a < before.len(),
        a != i,
        aabbs[i].spec_neighbors(aabbs[a]),
        0 <= k < before[a].len(),
        spec_inside(before[i][j], before[a][k]),
    ensures
        after[i][j].hidden,
{
    assert(spec_covered_by_touching(before, aabbs, i, j));
    assert(after[i][j].hidden == (before[i][j].hidden || spec_covered_by_touching(
        before,
        aabbs,
        i,
        j,
    )));
}

/// The two lists hold the same faces but for what is hidden.
pub open spec fn same_geometry(a: Seq<FaceView>, b: Seq<FaceView>) -> bool {
    &&& a.len() == b.len()
    &&& forall|j: int| 0 <= j < a.len() ==> (#[trigger] a[j]).verts == b[j].verts && a[j].normal == b[j].normal
}

} // verus!
