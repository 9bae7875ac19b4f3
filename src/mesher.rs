//! Boundary-aware face culling: turns a chunk's voxels into the quads that
//! can be seen, consulting neighbouring chunks through a block-access view.

use vstd::prelude::*;

use crate::block::{all_directions, directions, normal_of, seethrough, texture_of, BlockType, FaceDirection};
use crate::chunk::{
    in_chunk, index_of, lemma_index_bijection, position_of, Chunk, CHUNK_SIZE, CHUNK_VOLUME,
};
use crate::coords::IVec3;
use crate::mesh_builder::{Face, MeshBuilder};

verus! {

/// Read access to blocks by world position, across chunk boundaries.
pub trait BlockAccess {
    /// The view's own invariant, which lookups need.
    spec fn valid(&self) -> bool;

    /// The block at a world position, or `None` where no loaded chunk holds it.
    spec fn block_at_world(&self, x: int, y: int, z: int) -> Option<BlockType>;

    fn get_block(&self, world_pos: IVec3) -> (r: Option<BlockType>)
        requires
            self.valid(),
        ensures
            r == self.block_at_world(world_pos.x as int, world_pos.y as int, world_pos.z as int),
    ;
}

/// Width and depth of the padded solidity buffer: `CHUNK_SIZE` plus one
/// cell of margin on each side.
pub const PAD_CHUNK_SIZE: usize = 18;

/// Height of the padded solidity buffer: `CHUNK_HEIGHT` plus one cell of
/// margin below and above.
pub const PAD_CHUNK_HEIGHT: usize = 130;

/// Number of cells in one horizontal layer of the padded solidity buffer.
pub const PAD_CHUNK_LAYER: usize = 324;

/// Number of cells in the padded solidity buffer.
pub const PAD_CHUNK_VOLUME: usize = 42120;

/// Solidity of what a world query returned: an unknown block is open.
pub open spec fn query_solid(b: Option<BlockType>) -> bool {
    match b {
        Some(k) => !seethrough(k),
        None => false,
    }
}

/// Whether the block at local position `(x, y, z)` of `chunk`, or just
/// outside it, hides a face that touches it: inside the chunk its own voxel
/// decides, outside the view of the world does.
pub open spec fn solid_near<A: BlockAccess>(chunk: &Chunk, access: &A, x: int, y: int, z: int) -> bool {
    if in_chunk(x, y, z) {
        !seethrough(chunk.block_at(x, y, z))
    } else {
        query_solid(
            access.block_at_world(
                chunk.coord.x * CHUNK_SIZE + x,
                y,
                chunk.coord.y * CHUNK_SIZE + z,
            ),
        )
    }
}

/// Whether the face `d` of the block at local `(x, y, z)` is exposed: the
/// block is solid and its neighbour in direction `d` is not.
pub open spec fn face_visible<A: BlockAccess>(
    chunk: &Chunk,
    access: &A,
    x: int,
    y: int,
    z: int,
    d: FaceDirection,
) -> bool {
    !seethrough(chunk.block_at(x, y, z)) && !solid_near(
        chunk,
        access,
        x + normal_of(d).0,
        y + normal_of(d).1,
        z + normal_of(d).2,
    )
}

/// The face record for face `d` of the voxel at linear index `i`.
pub open spec fn face_at(chunk: &Chunk, i: int, d: FaceDirection) -> Face {
    let p = position_of(i);
    Face {
        pos: IVec3 { x: p.0 as i32, y: p.1 as i32, z: p.2 as i32 },
        dir: d,
        texture: texture_of(chunk.block_at(p.0, p.1, p.2), d).unwrap(),
    }
}

/// Exposed faces of the voxel at index `i` among the first `k` directions.
pub open spec fn cell_faces<A: BlockAccess>(chunk: &Chunk, access: &A, i: int, k: int) -> Seq<Face>
    decreases k,
{
    if k <= 0 {
        Seq::empty()
    } else {
        let d = directions()[k - 1];
        let p = position_of(i);
        cell_faces(chunk, access, i, k - 1) + if face_visible(chunk, access, p.0, p.1, p.2, d) {
            seq![face_at(chunk, i, d)]
        } else {
            Seq::empty()
        }
    }
}

/// Exposed faces of the voxels with index below `n`, in index order.
pub open spec fn faces_upto<A: BlockAccess>(chunk: &Chunk, access: &A, n: int) -> Seq<Face>
    decreases n,
{
    if n <= 0 {
        Seq::empty()
    } else {
        faces_upto(chunk, access, n - 1) + cell_faces(chunk, access, n - 1, 6)
    }
}

/// All exposed faces of a chunk.
pub open spec fn visible_faces<A: BlockAccess>(chunk: &Chunk, access: &A) -> Seq<Face> {
    faces_upto(chunk, access, CHUNK_VOLUME as int)
}

/// Solidity of padded cell `(px, py, pz)`, the local position `(px - 1,
/// py - 1, pz - 1)`: the chunk's own voxels inside, a world query on the six
/// face margins, open on the edges and corners that no face touches.
pub open spec fn pad_solid<A: BlockAccess>(chunk: &Chunk, access: &A, px: int, py: int, pz: int) -> bool {
    let ox = px == 0 || px == PAD_CHUNK_SIZE - 1;
    let oy = py == 0 || py == PAD_CHUNK_HEIGHT - 1;
    let oz = pz == 0 || pz == PAD_CHUNK_SIZE - 1;
    if (ox && oy) || (ox && oz) || (oy && oz) {
        false
    } else {
        solid_near(chunk, access, px - 1, py - 1, pz - 1)
    }
}

pub open spec fn pad_index_of(x: int, y: int, z: int) -> int {
    x + z * PAD_CHUNK_SIZE + y * PAD_CHUNK_LAYER
}

pub open spec fn pad_solid_at<A: BlockAccess>(chunk: &Chunk, access: &A, j: int) -> bool {
    pad_solid(chunk, access, j % 18, j / 324, (j / 18) % 18)
}

proof fn lemma_pad_index(x: int, y: int, z: int)
    requires
        0 <= x < 18,
        0 <= y < 130,
        0 <= z < 18,
    ensures
        0 <= pad_index_of(x, y, z) < PAD_CHUNK_VOLUME,
        pad_index_of(x, y, z) % 18 == x,
        pad_index_of(x, y, z) / 324 == y,
        (pad_index_of(x, y, z) / 18) % 18 == z,
{
    let j = x + z * 18 + y * 324;
    assert(0 <= j < 42120 && j % 18 == x && j / 324 == y && (j / 18) % 18 == z) by (nonlinear_arith)
        requires
            0 <= x < 18,
            0 <= y < 130,
            0 <= z < 18,
            j == x + z * 18 + y * 324,
    ;
}

proof fn lemma_pad_position(j: int)
    requires
        0 <= j < PAD_CHUNK_VOLUME,
    ensures
        0 <= j % 18 < 18,
        0 <= j / 324 < 130,
        0 <= (j / 18) % 18 < 18,
{
    assert(0 <= j / 324 < 130) by (nonlinear_arith)
        requires
            0 <= j < 42120,
    ;
}

fn pad_index(x: i32, y: i32, z: i32) -> (r: usize)
    requires
        0 <= x < 18,
        0 <= y < 130,
        0 <= z < 18,
    ensures
        r == pad_index_of(x as int, y as int, z as int),
        r < PAD_CHUNK_VOLUME,
{
    proof {
        lemma_pad_index(x as int, y as int, z as int);
    }
    (x as usize) + (z as usize) * PAD_CHUNK_SIZE + (y as usize) * PAD_CHUNK_LAYER
}

impl Chunk {
    /// The padded solidity buffer: one cell of margin on every side, the
    /// margins on the six faces filled from `block_access`.
    fn solidity_padded<A: BlockAccess>(&self, block_access: &A) -> (r: Vec<bool>)
        requires
            self.wf(),
            block_access.valid(),
        ensures
            r@.len() == PAD_CHUNK_VOLUME,
            forall|j: int| 0 <= j < PAD_CHUNK_VOLUME ==> #[trigger] r@[j] == pad_solid_at(self, block_access, j),
    {
        let origin = self.chunk_origin();
        let mut padded: Vec<bool> = Vec::with_capacity(PAD_CHUNK_VOLUME);
        let mut j: usize = 0;
        while j < PAD_CHUNK_VOLUME
            invariant
                self.wf(),
                block_access.valid(),
                j <= PAD_CHUNK_VOLUME,
                origin.x == self.coord.x * CHUNK_SIZE,
                origin.y == 0,
                origin.z == self.coord.y * CHUNK_SIZE,
                padded@.len() == j,
                forall|k: int| 0 <= k < j ==> #[trigger] padded@[k] == pad_solid_at(self, block_access, k),
            decreases PAD_CHUNK_VOLUME - j,
        {
            proof {
                lemma_pad_position(j as int);
            }
            let px = (j % PAD_CHUNK_SIZE) as i32;
            let py = (j / PAD_CHUNK_LAYER) as i32;
            let pz = ((j / PAD_CHUNK_SIZE) % PAD_CHUNK_SIZE) as i32;
            let ox = px == 0 || px == PAD_CHUNK_SIZE as i32 - 1;
            let oy = py == 0 || py == PAD_CHUNK_HEIGHT as i32 - 1;
            let oz = pz == 0 || pz == PAD_CHUNK_SIZE as i32 - 1;
            let solid = if (ox && oy) || (ox && oz) || (oy && oz) {
                false
            } else if !ox && !oy && !oz {
                let b = self.blocks[Self::to_index(IVec3::new(px - 1, py - 1, pz - 1))];
                !b.is_seethrough()
            } else {
                let world = IVec3::new(origin.x + (px - 1), py - 1, origin.z + (pz - 1));
                match block_access.get_block(world) {
                    Some(b) => !b.is_seethrough(),
                    None => false,
                }
            };
            padded.push(solid);
            j = j + 1;
        }
        padded
    }

    /// Builds the mesh of this chunk: one quad for every face of a solid
    /// voxel whose neighbour is not solid, neighbours outside the chunk
    /// looked up through `block_access` and taken as open when unknown.
    pub fn build_chunk_mesh<A: BlockAccess>(&self, block_access: &A) -> (r: MeshBuilder)
        requires
            self.wf(),
            block_access.valid(),
        ensures
            r.wf(),
            r.faces@ == visible_faces(self, block_access),
    {
        let padded = self.solidity_padded(block_access);
        let dirs = all_directions();
        let mut mesh_builder = MeshBuilder::with_capacity_faces(CHUNK_VOLUME * 2);
        let mut i: usize = 0;
        while i < CHUNK_VOLUME
            invariant
                self.wf(),
                i <= CHUNK_VOLUME,
                dirs@ == directions(),
                padded@.len() == PAD_CHUNK_VOLUME,
                forall|j: int| 0 <= j < PAD_CHUNK_VOLUME ==> #[trigger] padded@[j] == pad_solid_at(self, block_access, j),
                mesh_builder.wf(),
                mesh_builder.faces@ == faces_upto(self, block_access, i as int),
                mesh_builder.faces@.len() <= 6 * i,
            decreases CHUNK_VOLUME - i,
        {
            let p = Self::from_index(i);
            proof {
                lemma_index_bijection(p.x as int, p.y as int, p.z as int, i as int);
                lemma_pad_index(p.x + 1, p.y + 1, p.z + 1);
            }
            let solid = padded[pad_index(p.x + 1, p.y + 1, p.z + 1)];
            let block = self.blocks[i];
            let ghost before = mesh_builder.faces@;
            let mut k: usize = 0;
            while k < 6
                invariant
                    self.wf(),
                    i < CHUNK_VOLUME,
                    k <= 6,
                    (p.x as int, p.y as int, p.z as int) == position_of(i as int),
                    in_chunk(p.x as int, p.y as int, p.z as int),
                    index_of(p.x as int, p.y as int, p.z as int) == i,
                    block == self.blocks@[i as int],
                    solid == !seethrough(block),
                    dirs@ == directions(),
                    padded@.len() == PAD_CHUNK_VOLUME,
                    forall|j: int| 0 <= j < PAD_CHUNK_VOLUME ==> #[trigger] padded@[j] == pad_solid_at(self, block_access, j),
                    mesh_builder.wf(),
                    before == faces_upto(self, block_access, i as int),
                    before.len() <= 6 * i,
                    mesh_builder.faces@ == before + cell_faces(self, block_access, i as int, k as int),
                    mesh_builder.faces@.len() <= 6 * i + k,
                decreases 6 - k,
            {
                let d = dirs[k];
                let ghost q = cell_faces(self, block_access, i as int, k as int);
                let ghost visible = face_visible(self, block_access, p.x as int, p.y as int, p.z as int, d);
                assert(cell_faces(self, block_access, i as int, k as int + 1) == q + if visible {
                    seq![face_at(self, i as int, d)]
                } else {
                    Seq::empty()
                });
                if solid {
                    let n = d.normal();
                    proof {
                        lemma_pad_index(p.x + 1 + n.x, p.y + 1 + n.y, p.z + 1 + n.z);
                    }
                    let neighbour_solid = padded[pad_index(p.x + 1 + n.x, p.y + 1 + n.y, p.z + 1 + n.z)];
                    assert(neighbour_solid == solid_near(self, block_access, p.x + n.x, p.y + n.y, p.z + n.z));
                    if !neighbour_solid {
                        if let Some(texture_id) = block.texture_id(d) {
                            mesh_builder.add_face(d, p, texture_id);
                            assert(face_at(self, i as int, d) == (Face { pos: p, dir: d, texture: texture_id }));
                        }
                        assert(mesh_builder.faces@ =~= before + (q + seq![face_at(self, i as int, d)]));
                    } else {
                        assert(q + Seq::<Face>::empty() =~= q);
                    }
                } else {
                    assert(q + Seq::<Face>::empty() =~= q);
                }
                k = k + 1;
            }
            i = i + 1;
        }
        mesh_builder
    }
}

/// Rank of a direction in the order the mesher visits them.
pub open spec fn direction_rank(d: FaceDirection) -> int {
    match d {
        FaceDirection::Top => 0,
        FaceDirection::Bottom => 1,
        FaceDirection::Left => 2,
        FaceDirection::Right => 3,
        FaceDirection::Front => 4,
        FaceDirection::Back => 5,
    }
}

/// Whether `f` is the exposed face of a solid voxel of `chunk` with index
/// below `n`, carrying that voxel's texture for its direction.
pub open spec fn is_exposed_face<A: BlockAccess>(chunk: &Chunk, access: &A, f: Face, n: int) -> bool {
    let (x, y, z) = (f.pos.x as int, f.pos.y as int, f.pos.z as int);
    &&& in_chunk(x, y, z)
    &&& index_of(x, y, z) < n
    &&& face_visible(chunk, access, x, y, z, f.dir)
    &&& f.texture == texture_of(chunk.block_at(x, y, z), f.dir).unwrap()
}

proof fn lemma_concat_contains<T>(a: Seq<T>, b: Seq<T>)
    ensures
        forall|x: T| #[trigger] (a + b).contains(x) <==> (a.contains(x) || b.contains(x)),
{
    assert forall|x: T| #[trigger] (a + b).contains(x) implies (a.contains(x) || b.contains(x)) by {
        let j = choose|j: int| 0 <= j < (a + b).len() && (a + b)[j] == x;
        if j < a.len() {
            assert(a[j] == x);
        } else {
            assert(b[j - a.len()] == x);
        }
    }
    assert forall|x: T| (a.contains(x) || b.contains(x)) implies #[trigger] (a + b).contains(x) by {
        if a.contains(x) {
            let j = choose|j: int| 0 <= j < a.len() && a[j] == x;
            assert((a + b)[j] == x);
        } else {
            let j = choose|j: int| 0 <= j < b.len() && b[j] == x;
            assert((a + b)[a.len() + j] == x);
        }
    }
}

proof fn lemma_concat_no_duplicates<T>(a: Seq<T>, b: Seq<T>)
    requires
        a.no_duplicates(),
        b.no_duplicates(),
        forall|x: T| a.contains(x) ==> !b.contains(x),
    ensures
        (a + b).no_duplicates(),
{
    let c = a + b;
    assert forall|i: int, j: int| 0 <= i < c.len() && 0 <= j < c.len() && i != j implies c[i] != c[j] by {
        if i < a.len() && j >= a.len() {
            assert(a.contains(c[i]));
            assert(b[j - a.len()] == c[j]);
        } else if j < a.len() && i >= a.len() {
            assert(a.contains(c[j]));
            assert(b[i - a.len()] == c[i]);
        } else if i >= a.len() {
            assert(b[i - a.len()] != b[j - a.len()]);
        }
    }
}

proof fn lemma_cell_faces<A: BlockAccess>(chunk: &Chunk, access: &A, i: int, k: int)
    requires
        chunk.wf(),
        0 <= i < CHUNK_VOLUME,
        0 <= k <= 6,
    ensures
        forall|f: Face|
            #[trigger] cell_faces(chunk, access, i, k).contains(f) <==> (direction_rank(f.dir) < k
                && index_of(f.pos.x as int, f.pos.y as int, f.pos.z as int) == i
                && is_exposed_face(chunk, access, f, CHUNK_VOLUME as int)),
        cell_faces(chunk, access, i, k).no_duplicates(),
    decreases k,
{
    lemma_index_bijection(0, 0, 0, i);
    let p = position_of(i);
    if k > 0 {
        lemma_cell_faces(chunk, access, i, k - 1);
        let d = directions()[k - 1];
        let prev = cell_faces(chunk, access, i, k - 1);
        let add = if face_visible(chunk, access, p.0, p.1, p.2, d) {
            seq![face_at(chunk, i, d)]
        } else {
            Seq::empty()
        };
        lemma_concat_contains(prev, add);
        assert forall|f: Face| add.contains(f) <==> (direction_rank(f.dir) == k - 1
            && index_of(f.pos.x as int, f.pos.y as int, f.pos.z as int) == i
            && is_exposed_face(chunk, access, f, CHUNK_VOLUME as int)) by {
            if add.contains(f) {
                assert(add[0] == f);
            }
            if direction_rank(f.dir) == k - 1 && index_of(f.pos.x as int, f.pos.y as int, f.pos.z as int) == i
                && is_exposed_face(chunk, access, f, CHUNK_VOLUME as int) {
                lemma_index_bijection(f.pos.x as int, f.pos.y as int, f.pos.z as int, i);
                assert(f.dir == d);
                assert(f == face_at(chunk, i, d));
                assert(add[0] == f);
            }
        }
        lemma_concat_no_duplicates(prev, add);
    }
}

proof fn lemma_faces_upto<A: BlockAccess>(chunk: &Chunk, access: &A, n: int)
    requires
        chunk.wf(),
        0 <= n <= CHUNK_VOLUME,
    ensures
        forall|f: Face| #[trigger] faces_upto(chunk, access, n).contains(f) <==> is_exposed_face(chunk, access, f, n),
        faces_upto(chunk, access, n).no_duplicates(),
    decreases n,
{
    if n > 0 {
        lemma_faces_upto(chunk, access, n - 1);
        lemma_cell_faces(chunk, access, n - 1, 6);
        let prev = faces_upto(chunk, access, n - 1);
        let cell = cell_faces(chunk, access, n - 1, 6);
        lemma_concat_contains(prev, cell);
        assert forall|f: Face| #[trigger] (prev + cell).contains(f) <==> is_exposed_face(chunk, access, f, n) by {
            assert(0 <= direction_rank(f.dir) < 6);
        }
        lemma_concat_no_duplicates(prev, cell);
    }
}

/// Hidden-surface removal is exact: the mesh of a chunk holds a face exactly
/// when it is an exposed face of one of the chunk's solid voxels (with that
/// voxel's texture for the direction), and holds no face twice.
pub proof fn lemma_visible_faces_exact<A: BlockAccess>(chunk: &Chunk, access: &A, f: Face)
    requires
        chunk.wf(),
    ensures
        visible_faces(chunk, access).contains(f) <==> is_exposed_face(chunk, access, f, CHUNK_VOLUME as int),
        visible_faces(chunk, access).no_duplicates(),
{
    lemma_faces_upto(chunk, access, CHUNK_VOLUME as int);
}

} // verus!
