//! Vertex buffers: the visible faces of all bricks, sorted by material and
//! by the chunk of space that the brick lies in.

use vstd::prelude::*;
use crate::aabb::AABB;
use crate::brick::{Brick, BrickColor, Color, SaveData};
use crate::builder::{face_views, faces_wf};
use crate::faces::{spec_positions, Face, FaceView};
use crate::mat::{material_slot, spec_material, MATERIAL_SLOTS};
use crate::vec3::IVec3;

verus! {

/// The edge length of a chunk. Chunks only bound the size of one buffer.
pub const CHUNK_SIZE: i32 = 2048;

/// Positions, colours and normals of the corners of a run of triangles, one
/// entry of each per corner.
#[derive(Debug)]
pub struct Buffers {
    pub position: Vec<[i64; 3]>,
    pub color: Vec<[u8; 4]>,
    pub normal: Vec<[i64; 3]>,
}

/// What the buffers hold.
pub struct BuffersView {
    pub position: Seq<[i64; 3]>,
    pub color: Seq<[u8; 4]>,
    pub normal: Seq<[i64; 3]>,
}

impl View for Buffers {
    type V = BuffersView;

    open spec fn view(&self) -> BuffersView {
        BuffersView { position: self.position@, color: self.color@, normal: self.normal@ }
    }
}

impl BuffersView {
    /// Buffers without a corner.
    pub open spec fn empty() -> BuffersView {
        BuffersView { position: Seq::empty(), color: Seq::empty(), normal: Seq::empty() }
    }
}

impl Buffers {
    /// Buffers without a corner.
    pub fn new() -> (b: Buffers)
        ensures
            b@ == BuffersView::empty(),
    {
        Buffers { position: Vec::new(), color: Vec::new(), normal: Vec::new() }
    }
}

/// The buffers of one material in one chunk.
#[derive(Debug)]
pub struct MeshChunk {
    /// The chunk: the brick's centre over `CHUNK_SIZE`, rounded down.
    pub chunk: IVec3,
    pub buffers: Buffers,
}

/// What a chunk's buffers hold.
pub struct MeshChunkView {
    pub chunk: IVec3,
    pub buffers: BuffersView,
}

impl View for MeshChunk {
    type V = MeshChunkView;

    open spec fn view(&self) -> MeshChunkView {
        MeshChunkView { chunk: self.chunk, buffers: self.buffers@ }
    }
}

/// The views of the chunks of one material.
pub open spec fn chunk_views(chunks: Seq<MeshChunk>) -> Seq<MeshChunkView> {
    Seq::new(chunks.len(), |i: int| chunks[i]@)
}

/// The views of the chunks of all materials.
pub open spec fn mesh_views(meshes: Seq<Vec<MeshChunk>>) -> Seq<Seq<MeshChunkView>> {
    Seq::new(meshes.len(), |m: int| chunk_views(meshes[m]@))
}

/// The chunk that a point lies in: each coordinate over `CHUNK_SIZE`, rounded
/// down.
pub open spec fn spec_chunk_of(center: IVec3) -> IVec3 {
    IVec3 {
        x: (center.x as int / CHUNK_SIZE as int) as i32,
        y: (center.y as int / CHUNK_SIZE as int) as i32,
        z: (center.z as int / CHUNK_SIZE as int) as i32,
    }
}

fn floor_div_chunk(c: i32) -> (q: i32)
    ensures
        q == c as int / CHUNK_SIZE as int,
{
    if c >= 0 {
        c / CHUNK_SIZE
    } else {
        let up: i64 = (-(c as i64) + (CHUNK_SIZE as i64 - 1)) / (CHUNK_SIZE as i64);
        (-up) as i32
    }
}

/// The chunk that a point lies in.
pub fn chunk_of(center: &IVec3) -> (chunk: IVec3)
    ensures
        chunk == spec_chunk_of(*center),
{
    IVec3 {
        x: floor_div_chunk(center.x),
        y: floor_div_chunk(center.y),
        z: floor_div_chunk(center.z),
    }
}

/// A colour as the four numbers of a vertex buffer: red, green and blue, and
/// a zero in the fourth place.
pub open spec fn spec_color_entry(c: Color) -> [u8; 4] {
    [c.r, c.g, c.b, 0u8]
}

/// The colour of a brick: its own, or the palette's entry that it names.
pub open spec fn spec_brick_color(brick: Brick, palette: Seq<Color>) -> [u8; 4] {
    match brick.color {
        BrickColor::Index(i) => spec_color_entry(palette[i as int]),
        BrickColor::Unique(c) => spec_color_entry(c),
    }
}

/// The colour of a brick: its own, or the palette's entry that it names.
pub fn brick_color(brick: &Brick, palette: &Vec<Color>) -> (entry: [u8; 4])
    requires
        brick.color matches BrickColor::Index(i) ==> i < palette@.len(),
    ensures
        entry == spec_brick_color(*brick, palette@),
{
    let c = match brick.color {
        BrickColor::Index(i) => palette[i as usize],
        BrickColor::Unique(c) => c,
    };
    [c.r, c.g, c.b, 0u8]
}

/// The colour of a light on a brick: the brick's where the light is set to
/// use it, else the light's own.
pub open spec fn spec_light_color(
    use_brick_color: bool,
    brick: Brick,
    palette: Seq<Color>,
    own: Color,
) -> [u8; 4] {
    if use_brick_color {
        spec_brick_color(brick, palette)
    } else {
        spec_color_entry(own)
    }
}

/// The colour of a light on a brick: the brick's where the light is set to
/// use it, else the light's own.
pub fn light_color(use_brick_color: bool, brick: &Brick, palette: &Vec<Color>, own: Color) -> (entry: [
    u8; 4
])
    requires
        use_brick_color ==> (brick.color matches BrickColor::Index(i) ==> i < palette@.len()),
    ensures
        entry == spec_light_color(use_brick_color, *brick, palette@, own),
{
    if use_brick_color {
        brick_color(brick, palette)
    } else {
        [own.r, own.g, own.b, 0u8]
    }
}

/// A normal as the three numbers of a vertex buffer.
pub open spec fn spec_normal_entry(face: FaceView) -> [i64; 3] {
    [face.normal.x, face.normal.y, face.normal.z]
}

/// The buffers with the triangles of one more face: its fan about the first
/// corner, and the colour and the face's normal once for each of the fan's
/// corners.
pub open spec fn add_face(b: BuffersView, face: FaceView, color: [u8; 4]) -> BuffersView {
    let fan = spec_positions(face.verts);
    BuffersView {
        position: b.position + fan,
        color: b.color + Seq::new(fan.len(), |k: int| color),
        normal: b.normal + Seq::new(fan.len(), |k: int| spec_normal_entry(face)),
    }
}

/// The buffers with the triangles of the first `count` faces that are not
/// hidden, in order.
pub open spec fn add_faces(b: BuffersView, faces: Seq<FaceView>, color: [u8; 4], count: nat) -> BuffersView
    decreases count,
{
    if count == 0 {
        b
    } else {
        let before = add_faces(b, faces, color, (count - 1) as nat);
        let face = faces[count - 1];
        if face.hidden {
            before
        } else {
            add_face(before, face, color)
        }
    }
}

/// Where the chunk `key` stands among `chunks`, looking from `start` on; the
/// number of chunks where it does not.
pub open spec fn find_chunk(chunks: Seq<MeshChunkView>, key: IVec3, start: int) -> int
    decreases chunks.len() - start,
{
    if start < 0 || start >= chunks.len() {
        chunks.len() as int
    } else if chunks[start].chunk == key {
        start
    } else {
        find_chunk(chunks, key, start + 1)
    }
}

/// The chunks of all materials with the visible faces of one more brick: they
/// go to the chunk `key` of material `slot`, which is added at the end of that
/// material's chunks where it is not there yet.
pub open spec fn add_brick(
    meshes: Seq<Seq<MeshChunkView>>,
    slot: int,
    key: IVec3,
    faces: Seq<FaceView>,
    color: [u8; 4],
) -> Seq<Seq<MeshChunkView>> {
    let chunks = meshes[slot];
    let at = find_chunk(chunks, key, 0);
    let with_key = if at == chunks.len() {
        chunks.push(MeshChunkView { chunk: key, buffers: BuffersView::empty() })
    } else {
        chunks
    };
    meshes.update(
        slot,
        with_key.update(
            at,
            MeshChunkView {
                chunk: key,
                buffers: add_faces(with_key[at].buffers, faces, color, faces.len()),
            },
        ),
    )
}

/// The material slot of brick `i`.
pub open spec fn spec_brick_slot(save_data: SaveData, i: int) -> int {
    spec_material(save_data.materials[save_data.bricks[i].material_index as int]@).spec_slot() as int
}

/// The chunks of all materials after the first `count` bricks, in brick
/// order. A brick without faces leaves them as they are.
pub open spec fn spec_assemble(
    save_data: SaveData,
    faces: Seq<Seq<FaceView>>,
    aabbs: Seq<AABB>,
    count: nat,
) -> Seq<Seq<MeshChunkView>>
    decreases count,
{
    if count == 0 {
        Seq::new(MATERIAL_SLOTS as nat, |m: int| Seq::empty())
    } else {
        let i = count - 1;
        let before = spec_assemble(save_data, faces, aabbs, (count - 1) as nat);
        if faces[i].len() == 0 {
            before
        } else {
            add_brick(
                before,
                spec_brick_slot(save_data, i),
                spec_chunk_of(aabbs[i].center),
                faces[i],
                spec_brick_color(save_data.bricks[i], save_data.colors@),
            )
        }
    }
}

impl BuffersView {
    /// The three buffers have one entry each for every corner.
    pub open spec fn aligned(self) -> bool {
        self.position.len() == self.color.len() && self.color.len() == self.normal.len()
    }
}

/// Every chunk has aligned buffers, and no two chunks of one material have
/// the same key.
pub open spec fn meshes_wf(meshes: Seq<Seq<MeshChunkView>>) -> bool {
    &&& meshes.len() == MATERIAL_SLOTS
    &&& forall|m: int, c: int|
        0 <= m < meshes.len() && 0 <= c < meshes[m].len() ==> (#[trigger] meshes[m][c]).buffers.aligned()
    &&& forall|m: int, c: int, d: int|
        0 <= m < meshes.len() && 0 <= c < d < meshes[m].len() ==> (#[trigger] meshes[m][c]).chunk != (
        #[trigger] meshes[m][d]).chunk
}

/// Adding faces keeps buffers aligned.
pub proof fn lemma_add_faces_aligned(b: BuffersView, faces: Seq<FaceView>, color: [u8; 4], count: nat)
    requires
        b.aligned(),
    ensures
        add_faces(b, faces, color, count).aligned(),
    decreases count,
{
    if count > 0 {
        lemma_add_faces_aligned(b, faces, color, (count - 1) as nat);
    }
}

/// Where a key is found it stands, and before that place it does not.
pub proof fn lemma_find_chunk(chunks: Seq<MeshChunkView>, key: IVec3, start: int)
    requires
        0 <= start <= chunks.len(),
    ensures
        start <= find_chunk(chunks, key, start) <= chunks.len(),
        find_chunk(chunks, key, start) < chunks.len() ==> chunks[find_chunk(chunks, key, start)].chunk
            == key,
        forall|c: int| start <= c < find_chunk(chunks, key, start) ==> (#[trigger] chunks[c]).chunk != key,
    decreases chunks.len() - start,
{
    if start < chunks.len() && chunks[start].chunk != key {
        lemma_find_chunk(chunks, key, start + 1);
    }
}

/// The buffers that assembling gives are well formed: one set of aligned
/// buffers for each pair of material and chunk.
pub proof fn lemma_assemble_wf(
    save_data: SaveData,
    faces: Seq<Seq<FaceView>>,
    aabbs: Seq<AABB>,
    count: nat,
)
    ensures
        meshes_wf(spec_assemble(save_data, faces, aabbs, count)),
    decreases count,
{
    let meshes = spec_assemble(save_data, faces, aabbs, count);
    if count > 0 {
        let i = count - 1;
        let before = spec_assemble(save_data, faces, aabbs, (count - 1) as nat);
        lemma_assemble_wf(save_data, faces, aabbs, (count - 1) as nat);
        if faces[i].len() != 0 {
            let slot = spec_brick_slot(save_data, i);
            let key = spec_chunk_of(aabbs[i].center);
            let color = spec_brick_color(save_data.bricks[i], save_data.colors@);
            let chunks = before[slot];
            let at = find_chunk(chunks, key, 0);
            lemma_find_chunk(chunks, key, 0);
            let with_key = if at == chunks.len() {
                chunks.push(MeshChunkView { chunk: key, buffers: BuffersView::empty() })
            } else {
                chunks
            };
            lemma_add_faces_aligned(with_key[at].buffers, faces[i], color, faces[i].len());
            assert forall|m: int, c: int| 0 <= m < meshes.len() && 0 <= c < meshes[m].len() implies (
            #[trigger] meshes[m][c]).buffers.aligned() by {
                if m == slot && c != at && c < chunks.len() {
                    assert(meshes[m][c] == before[m][c]);
                } else if m != slot {
                    assert(meshes[m][c] == before[m][c]);
                }
            }
            assert forall|m: int, c: int, d: int|
                0 <= m < meshes.len() && 0 <= c < d < meshes[m].len() implies (#[trigger] meshes[m][c]).chunk
                != (#[trigger] meshes[m][d]).chunk by {
                if m == slot {
                    assert(meshes[m][c].chunk == with_key[c].chunk);
                    assert(meshes[m][d].chunk == with_key[d].chunk);
                    if d < chunks.len() {
                        assert(before[m][c].chunk != before[m][d].chunk);
                    } else {
                        assert(chunks[c].chunk != key);
                    }
                } else {
                    assert(meshes[m][c] == before[m][c] && meshes[m][d] == before[m][d]);
                }
            }
        }
    }
}

/// Appends the triangles of the faces that are not hidden.
pub fn append_faces(buffers: &mut Buffers, faces: &Vec<Face>, color: [u8; 4])
    requires
        faces_wf(faces@),
    ensures
        final(buffers)@ == add_faces(old(buffers)@, face_views(faces@), color, faces@.len()),
{
    let ghost views = face_views(faces@);
    let mut j: usize = 0;
    while j < faces.len()
        invariant
            j <= faces.len(),
            faces_wf(faces@),
            views == face_views(faces@),
            buffers@ == add_faces(old(buffers)@, views, color, j as nat),
        decreases faces.len() - j,
    {
        let face = &faces[j];
        assert(views[j as int] == face@);
        assert(face@.wf());
        if !face.hidden {
            let positions = face.positions();
            let normal = [face.normal.x, face.normal.y, face.normal.z];
            let ghost start = buffers@;
            let mut k: usize = 0;
            while k < positions.len()
                invariant
                    k <= positions.len(),
                    buffers@.position == start.position + positions@.take(k as int),
                    buffers@.color == start.color + Seq::new(k as nat, |t: int| color),
                    buffers@.normal == start.normal + Seq::new(k as nat, |t: int| normal),
                decreases positions.len() - k,
            {
                buffers.position.push(positions[k]);
                buffers.color.push(color);
                buffers.normal.push(normal);
                assert(buffers@.position =~= start.position + positions@.take(k as int + 1));
                assert(buffers@.color =~= start.color + Seq::new((k + 1) as nat, |t: int| color));
                assert(buffers@.normal =~= start.normal + Seq::new((k + 1) as nat, |t: int| normal));
                k += 1;
            }
            assert(positions@.take(k as int) =~= positions@);
            assert(buffers@ == add_face(start, face@, color));
        }
        j += 1;
    }
}

/// Where the chunk `key` stands among `chunks`; their number where it does
/// not.
pub fn chunk_index(chunks: &Vec<MeshChunk>, key: &IVec3) -> (at: usize)
    ensures
        at == find_chunk(chunk_views(chunks@), *key, 0),
        at <= chunks@.len(),
        at < chunks@.len() ==> chunks@[at as int].chunk == *key,
{
    let ghost views = chunk_views(chunks@);
    let mut i: usize = 0;
    while i < chunks.len()
        invariant
            i <= chunks.len(),
            views == chunk_views(chunks@),
            find_chunk(views, *key, 0) == find_chunk(views, *key, i as int),
        decreases chunks.len() - i,
    {
        let c = &chunks[i].chunk;
        assert(views[i as int].chunk == *c);
        if c.x == key.x && c.y == key.y && c.z == key.z {
            return i;
        }
        i += 1;
    }
    i
}

/// The vertex buffers of all bricks: for each of the `MATERIAL_SLOTS`
/// materials the chunks in the order in which bricks first reach them, and in
/// each chunk the visible faces in brick order.
pub fn assemble(save_data: &SaveData, faces: &Vec<Vec<Face>>, aabbs: &Vec<AABB>) -> (meshes: Vec<
    Vec<MeshChunk>,
>)
    requires
        save_data.wf(),
        faces@.len() == save_data.bricks@.len(),
        aabbs@.len() == save_data.bricks@.len(),
        forall|i: int| 0 <= i < faces@.len() ==> faces_wf(#[trigger] faces@[i]@),
    ensures
        mesh_views(meshes@) == spec_assemble(
            *save_data,
            Seq::new(faces@.len(), |i: int| face_views(faces@[i]@)),
            aabbs@,
            faces@.len(),
        ),
        meshes@.len() == MATERIAL_SLOTS,
        meshes_wf(mesh_views(meshes@)),
{
    let ghost all = Seq::new(faces@.len(), |i: int| face_views(faces@[i]@));
    let mut meshes: Vec<Vec<MeshChunk>> = Vec::new();
    meshes.push(Vec::new());
    meshes.push(Vec::new());
    meshes.push(Vec::new());
    meshes.push(Vec::new());
    assert(mesh_views(meshes@) =~= spec_assemble(*save_data, all, aabbs@, 0)) by {
        assert forall|m: int| 0 <= m < 4 implies #[trigger] mesh_views(meshes@)[m] =~= Seq::empty() by {}
    }
    let mut i: usize = 0;
    while i < save_data.bricks.len()
        invariant
            i <= save_data.bricks.len(),
            save_data.wf(),
            faces@.len() == save_data.bricks@.len(),
            aabbs@.len() == save_data.bricks@.len(),
            forall|k: int| 0 <= k < faces@.len() ==> faces_wf(#[trigger] faces@[k]@),
            all == Seq::new(faces@.len(), |k: int| face_views(faces@[k]@)),
            meshes@.len() == MATERIAL_SLOTS,
            mesh_views(meshes@) == spec_assemble(*save_data, all, aabbs@, i as nat),
        decreases save_data.bricks.len() - i,
    {
        let brick_faces = &faces[i];
        assert(all[i as int] == face_views(brick_faces@));
        if brick_faces.len() > 0 {
            let brick = &save_data.bricks[i];
            assert(save_data.brick_ok(i as int));
            let slot = material_slot(save_data.materials[brick.material_index as usize].as_str());
            let key = chunk_of(&aabbs[i].center);
            let color = brick_color(brick, &save_data.colors);
            let ghost before = mesh_views(meshes@);
            let ghost chunks_before = before[slot as int];
            let at = chunk_index(&meshes[slot], &key);
            if at == meshes[slot].len() {
                meshes[slot].push(MeshChunk { chunk: key, buffers: Buffers::new() });
            }
            let ghost with_key = chunk_views(meshes@[slot as int]@);
            assert(with_key =~= if at == chunks_before.len() {
                chunks_before.push(MeshChunkView { chunk: key, buffers: BuffersView::empty() })
            } else {
                chunks_before
            });
            let ghost mid = meshes@;
            append_faces(&mut meshes[slot][at].buffers, brick_faces, color);
            assert(mesh_views(meshes@) =~= add_brick(
                before,
                slot as int,
                key,
                all[i as int],
                color,
            )) by {
                let target = add_brick(before, slot as int, key, all[i as int], color);
                assert forall|m: int| 0 <= m < 4 implies #[trigger] mesh_views(meshes@)[m]
                    =~= target[m] by {
                    if m != slot {
                        assert(meshes@[m] == mid[m]);
                        assert(mesh_views(meshes@)[m] =~= before[m]);
                    } else {
                        assert forall|c: int| 0 <= c < with_key.len() implies #[trigger] chunk_views(
                            meshes@[m]@,
                        )[c] == target[m][c] by {
                            if c != at {
                                assert(meshes@[m]@[c] == mid[m]@[c]);
                            }
                        }
                    }
                }
            }
        }
        i += 1;
    }
    proof {
        lemma_assemble_wf(*save_data, all, aabbs@, faces@.len());
    }
    meshes
}


/// The sequence `later` begins with all of `earlier`.
pub open spec fn starts_with<T>(later: Seq<T>, earlier: Seq<T>) -> bool {
    earlier.len() <= later.len() && forall|k: int| 0 <= k < earlier.len() ==> later[k] == earlier[k]
}

impl BuffersView {
    /// These buffers begin with all that `earlier` holds.
    pub open spec fn extends(self, earlier: BuffersView) -> bool {
        &&& starts_with(self.position, earlier.position)
        &&& starts_with(self.color, earlier.color)
        &&& starts_with(self.normal, earlier.normal)
    }

    /// From place `at` on the buffers hold the triangles of `face`: its fan,
    /// and `color` and the face's normal for each corner of the fan.
    pub open spec fn holds_face(self, face: FaceView, color: [u8; 4], at: int) -> bool {
        let fan = spec_positions(face.verts);
        &&& 0 <= at
        &&& at + fan.len() <= self.position.len()
        &&& at + fan.len() <= self.color.len()
        &&& at + fan.len() <= self.normal.len()
        &&& forall|k: int|
            0 <= k < fan.len() ==> self.position[at + k] == fan[k] && self.color[at + k] == color
                && self.normal[at + k] == spec_normal_entry(face)
    }
}

/// The chunks `later` are the chunks `earlier`, in their places and with all
/// that their buffers held, and maybe more chunks and more in the buffers.
pub open spec fn meshes_extend(later: Seq<Seq<MeshChunkView>>, earlier: Seq<Seq<MeshChunkView>>) -> bool {
    &&& later.len() == earlier.len()
    &&& forall|m: int| 0 <= m < earlier.len() ==> (#[trigger] earlier[m]).len() <= later[m].len()
    &&& forall|m: int, c: int|
        0 <= m < earlier.len() && 0 <= c < earlier[m].len() ==> later[m][c].chunk == (
        #[trigger] earlier[m][c]).chunk && later[m][c].buffers.extends(earlier[m][c].buffers)
}

/// Chunk `c` of `chunks` is the chunk `key`, and from place `at` on its
/// buffers hold the triangles of `face`.
pub open spec fn chunk_holds_face(
    chunks: Seq<MeshChunkView>,
    key: IVec3,
    face: FaceView,
    color: [u8; 4],
    c: int,
    at: int,
) -> bool {
    &&& 0 <= c < chunks.len()
    &&& chunks[c].chunk == key
    &&& chunks[c].buffers.holds_face(face, color, at)
}

/// Adding faces keeps what the buffers held.
pub proof fn lemma_add_faces_extends(b: BuffersView, faces: Seq<FaceView>, color: [u8; 4], count: nat)
    ensures
        add_faces(b, faces, color, count).extends(b),
    decreases count,
{
    if count > 0 {
        lemma_add_faces_extends(b, faces, color, (count - 1) as nat);
    }
}

/// A face that is not hidden is in the buffers once the faces up to it were
/// added.
pub proof fn lemma_add_faces_holds(
    b: BuffersView,
    faces: Seq<FaceView>,
    color: [u8; 4],
    count: nat,
    j: int,
)
    requires
        b.aligned(),
        0 <= j < count,
        !faces[j].hidden,
    ensures
        exists|at: int| add_faces(b, faces, color, count).holds_face(faces[j], color, at),
    decreases count,
{
    let before = add_faces(b, faces, color, (count - 1) as nat);
    let after = add_faces(b, faces, color, count);
    lemma_add_faces_aligned(b, faces, color, (count - 1) as nat);
    if j == count - 1 {
        assert(after.holds_face(faces[j], color, before.position.len() as int));
    } else {
        lemma_add_faces_holds(b, faces, color, (count - 1) as nat, j);
        let at = choose|at: int| before.holds_face(faces[j], color, at);
        assert(after.extends(before));
        assert(after.holds_face(faces[j], color, at));
    }
}

/// Adding a brick keeps every chunk in its place, with all that it held.
pub proof fn lemma_add_brick_extends(
    meshes: Seq<Seq<MeshChunkView>>,
    slot: int,
    key: IVec3,
    faces: Seq<FaceView>,
    color: [u8; 4],
)
    requires
        0 <= slot < meshes.len(),
    ensures
        meshes_extend(add_brick(meshes, slot, key, faces, color), meshes),
{
    let chunks = meshes[slot];
    let at = find_chunk(chunks, key, 0);
    lemma_find_chunk(chunks, key, 0);
    let with_key = if at == chunks.len() {
        chunks.push(MeshChunkView { chunk: key, buffers: BuffersView::empty() })
    } else {
        chunks
    };
    lemma_add_faces_extends(with_key[at].buffers, faces, color, faces.len());
}

/// Extending is transitive.
pub proof fn lemma_meshes_extend_twice(
    a: Seq<Seq<MeshChunkView>>,
    b: Seq<Seq<MeshChunkView>>,
    c: Seq<Seq<MeshChunkView>>,
)
    requires
        meshes_extend(b, a),
        meshes_extend(c, b),
    ensures
        meshes_extend(c, a),
{
    assert forall|m: int, k: int| 0 <= m < a.len() && 0 <= k < a[m].len() implies c[m][k].chunk == (
    #[trigger] a[m][k]).chunk && c[m][k].buffers.extends(a[m][k].buffers) by {
        assert(a[m].len() <= b[m].len());
        assert(b[m][k].chunk == a[m][k].chunk && b[m][k].buffers.extends(a[m][k].buffers));
        assert(c[m][k].chunk == b[m][k].chunk && c[m][k].buffers.extends(b[m][k].buffers));
    }
    assert forall|m: int| 0 <= m < a.len() implies (#[trigger] a[m]).len() <= c[m].len() by {
        assert(a[m].len() <= b[m].len());
        assert(b[m].len() <= c[m].len());
    }
}

/// Assembling more bricks keeps every chunk in its place, with all that it
/// held.
pub proof fn lemma_assemble_extends(
    save_data: SaveData,
    faces: Seq<Seq<FaceView>>,
    aabbs: Seq<AABB>,
    k: nat,
    count: nat,
)
    requires
        k <= count,
    ensures
        meshes_extend(
            spec_assemble(save_data, faces, aabbs, count),
            spec_assemble(save_data, faces, aabbs, k),
        ),
    decreases count,
{
    let early = spec_assemble(save_data, faces, aabbs, k);
    if k < count {
        let i = count - 1;
        let before = spec_assemble(save_data, faces, aabbs, (count - 1) as nat);
        let after = spec_assemble(save_data, faces, aabbs, count);
        lemma_assemble_extends(save_data, faces, aabbs, k, (count - 1) as nat);
        lemma_assemble_wf(save_data, faces, aabbs, (count - 1) as nat);
        if faces[i].len() != 0 {
            lemma_add_brick_extends(
                before,
                spec_brick_slot(save_data, i),
                spec_chunk_of(aabbs[i].center),
                faces[i],
                spec_brick_color(save_data.bricks[i], save_data.colors@),
            );
            lemma_meshes_extend_twice(early, before, after);
        }
    } else {
        assert(meshes_extend(early, early));
    }
}

/// Every face that is not hidden reaches the buffers: its triangles stand,
/// with the colour of its brick and its normal, in the chunk of its brick
/// among the chunks of its brick's material.
pub proof fn lemma_visible_face_reaches_buffers(
    save_data: SaveData,
    faces: Seq<Seq<FaceView>>,
    aabbs: Seq<AABB>,
    count: nat,
    i: int,
    j: int,
)
    requires
        0 <= i < count,
        0 <= j < faces[i].len(),
        !faces[i][j].hidden,
    ensures
        exists|c: int, at: int| #[trigger]
            chunk_holds_face(
                spec_assemble(save_data, faces, aabbs, count)[spec_brick_slot(save_data, i)],
                spec_chunk_of(aabbs[i].center),
                faces[i][j],
                spec_brick_color(save_data.bricks[i], save_data.colors@),
                c,
                at,
            ),
{
    let slot = spec_brick_slot(save_data, i);
    let key = spec_chunk_of(aabbs[i].center);
    let color = spec_brick_color(save_data.bricks[i], save_data.colors@);
    let before = spec_assemble(save_data, faces, aabbs, i as nat);
    let here = spec_assemble(save_data, faces, aabbs, (i + 1) as nat);
    let last = spec_assemble(save_data, faces, aabbs, count);
    lemma_assemble_wf(save_data, faces, aabbs, i as nat);
    let chunks = before[slot];
    let c = find_chunk(chunks, key, 0);
    lemma_find_chunk(chunks, key, 0);
    let with_key = if c == chunks.len() {
        chunks.push(MeshChunkView { chunk: key, buffers: BuffersView::empty() })
    } else {
        chunks
    };
    assert(with_key[c].buffers.aligned());
    lemma_add_faces_holds(with_key[c].buffers, faces[i], color, faces[i].len(), j);
    let at = choose|at: int|
        add_faces(with_key[c].buffers, faces[i], color, faces[i].len()).holds_face(
            faces[i][j],
            color,
            at,
        );
    assert(here[slot][c].buffers.holds_face(faces[i][j], color, at));
    lemma_assemble_extends(save_data, faces, aabbs, (i + 1) as nat, count);
    assert(last[slot][c].chunk == here[slot][c].chunk);
    assert(last[slot][c].buffers.extends(here[slot][c].buffers));
    assert(last[slot][c].buffers.holds_face(faces[i][j], color, at));
    assert(chunk_holds_face(last[slot], key, faces[i][j], color, c, at));
}


/// The number of corners that the first `count` faces give to the buffers:
/// those of the fans of the faces that are not hidden.
pub open spec fn visible_corners(faces: Seq<FaceView>, count: nat) -> nat
    decreases count,
{
    if count == 0 {
        0
    } else {
        visible_corners(faces, (count - 1) as nat) + if faces[count - 1].hidden {
            0
        } else {
            spec_positions(faces[count - 1].verts).len()
        }
    }
}

/// The number of corners that the first `count` bricks give to the buffers.
pub open spec fn brick_corners(faces: Seq<Seq<FaceView>>, count: nat) -> nat
    decreases count,
{
    if count == 0 {
        0
    } else {
        brick_corners(faces, (count - 1) as nat) + visible_corners(faces[count - 1], faces[count - 1].len())
    }
}

/// The number of corners in the first `count` chunks.
pub open spec fn chunk_corners(chunks: Seq<MeshChunkView>, count: nat) -> nat
    decreases count,
{
    if count == 0 {
        0
    } else {
        chunk_corners(chunks, (count - 1) as nat) + chunks[count - 1].buffers.position.len()
    }
}

/// The number of corners in the chunks of all materials.
pub open spec fn mesh_corners(meshes: Seq<Seq<MeshChunkView>>) -> nat {
    chunk_corners(meshes[0], meshes[0].len()) + chunk_corners(meshes[1], meshes[1].len())
        + chunk_corners(meshes[2], meshes[2].len()) + chunk_corners(meshes[3], meshes[3].len())
}

/// Adding faces adds the corners of those that are not hidden, and nothing
/// else.
pub proof fn lemma_add_faces_corners(b: BuffersView, faces: Seq<FaceView>, color: [u8; 4], count: nat)
    ensures
        add_faces(b, faces, color, count).position.len() == b.position.len() + visible_corners(
            faces,
            count,
        ),
    decreases count,
{
    if count > 0 {
        lemma_add_faces_corners(b, faces, color, (count - 1) as nat);
    }
}

/// The corners of chunks that agree are as many.
pub proof fn lemma_chunk_corners_agree(a: Seq<MeshChunkView>, b: Seq<MeshChunkView>, count: nat)
    requires
        count <= a.len(),
        count <= b.len(),
        forall|c: int| 0 <= c < count ==> a[c].buffers.position.len() == b[c].buffers.position.len(),
    ensures
        chunk_corners(a, count) == chunk_corners(b, count),
    decreases count,
{
    if count > 0 {
        lemma_chunk_corners_agree(a, b, (count - 1) as nat);
    }
}

/// More corners in one chunk are as many more in all.
pub proof fn lemma_chunk_corners_grow(
    a: Seq<MeshChunkView>,
    b: Seq<MeshChunkView>,
    count: nat,
    at: int,
    more: nat,
)
    requires
        count <= a.len(),
        count <= b.len(),
        forall|c: int|
            0 <= c < count && c != at ==> a[c].buffers.position.len() == b[c].buffers.position.len(),
        0 <= at < count ==> b[at].buffers.position.len() == a[at].buffers.position.len() + more,
    ensures
        chunk_corners(b, count) == chunk_corners(a, count) + if 0 <= at < count {
            more
        } else {
            0
        },
    decreases count,
{
    if count > 0 {
        lemma_chunk_corners_grow(a, b, (count - 1) as nat, at, more);
    }
}

/// Adding a brick adds the corners of its faces that are not hidden, and
/// nothing else.
pub proof fn lemma_add_brick_corners(
    meshes: Seq<Seq<MeshChunkView>>,
    slot: int,
    key: IVec3,
    faces: Seq<FaceView>,
    color: [u8; 4],
)
    requires
        meshes.len() == MATERIAL_SLOTS,
        0 <= slot < MATERIAL_SLOTS,
    ensures
        mesh_corners(add_brick(meshes, slot, key, faces, color)) == mesh_corners(meshes)
            + visible_corners(faces, faces.len()),
{
    let after = add_brick(meshes, slot, key, faces, color);
    let chunks = meshes[slot];
    let at = find_chunk(chunks, key, 0);
    lemma_find_chunk(chunks, key, 0);
    let with_key = if at == chunks.len() {
        chunks.push(MeshChunkView { chunk: key, buffers: BuffersView::empty() })
    } else {
        chunks
    };
    lemma_add_faces_corners(with_key[at].buffers, faces, color, faces.len());
    lemma_chunk_corners_agree(chunks, with_key, chunks.len());
    assert(chunk_corners(with_key, with_key.len()) == chunk_corners(chunks, chunks.len())) by {
        if at == chunks.len() {
            assert(with_key[at].buffers.position.len() == 0);
        }
    }
    lemma_chunk_corners_grow(with_key, after[slot], with_key.len(), at, visible_corners(faces, faces.len()));
    assert forall|m: int| 0 <= m < 4 && m != slot implies #[trigger] after[m] == meshes[m] by {}
}

/// The buffers hold the corners of all faces that are not hidden, and no
/// others: as many as the fans of those faces have.
pub proof fn lemma_assemble_corners(
    save_data: SaveData,
    faces: Seq<Seq<FaceView>>,
    aabbs: Seq<AABB>,
    count: nat,
)
    ensures
        mesh_corners(spec_assemble(save_data, faces, aabbs, count)) == brick_corners(faces, count),
    decreases count,
{
    if count > 0 {
        let i = count - 1;
        let before = spec_assemble(save_data, faces, aabbs, (count - 1) as nat);
        lemma_assemble_corners(save_data, faces, aabbs, (count - 1) as nat);
        lemma_assemble_wf(save_data, faces, aabbs, (count - 1) as nat);
        if faces[i].len() != 0 {
            lemma_add_brick_corners(
                before,
                spec_brick_slot(save_data, i),
                spec_chunk_of(aabbs[i].center),
                faces[i],
                spec_brick_color(save_data.bricks[i], save_data.colors@),
            );
        }
    } else {
        let empty = spec_assemble(save_data, faces, aabbs, 0);
        assert(empty[0].len() == 0 && empty[1].len() == 0 && empty[2].len() == 0 && empty[3].len()
            == 0);
    }
}

} // verus!
