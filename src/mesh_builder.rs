//! Mesh buffers for a chunk, one quad per exposed block face.
//!
//! Positions are stored doubled so that the half-block corners of a quad are
//! integers: the corner of block `(x, y, z)` at offset `(±0.5, ±0.5, ±0.5)` is
//! stored as `(2x ± 1, 2y ± 1, 2z ± 1)`. Each vertex carries the texture of its
//! face; the atlas turns that and the vertex's corner (its index modulo 4)
//! into texture coordinates.

use vstd::prelude::*;

use crate::block::{normal_of, BlockTextureId, FaceDirection};
use crate::coords::IVec3;

verus! {

/// Largest number of faces a builder accepts; keeps vertex numbers in `u32`.
pub const MAX_MESH_FACES: usize = 100_000_000;

/// Largest coordinate magnitude of a face's block position.
pub const MAX_FACE_COORD: i32 = 1_000_000_000;

/// One exposed face of a block.
#[derive(Copy, Clone, Debug, PartialEq, Eq, Structural)]
pub struct Face {
    pub pos: IVec3,
    pub dir: FaceDirection,
    pub texture: BlockTextureId,
}

/// Doubled offsets of a face's four corners from its block's centre, in
/// counter-clockwise order seen from outside.
pub open spec fn corner_offsets(d: FaceDirection) -> Seq<(int, int, int)> {
    match d {
        FaceDirection::Right => seq![(1, -1, 1), (1, -1, -1), (1, 1, -1), (1, 1, 1)],
        FaceDirection::Left => seq![(-1, -1, -1), (-1, -1, 1), (-1, 1, 1), (-1, 1, -1)],
        FaceDirection::Top => seq![(-1, 1, 1), (1, 1, 1), (1, 1, -1), (-1, 1, -1)],
        FaceDirection::Bottom => seq![(-1, -1, -1), (1, -1, -1), (1, -1, 1), (-1, -1, 1)],
        FaceDirection::Front => seq![(-1, -1, 1), (1, -1, 1), (1, 1, 1), (-1, 1, 1)],
        FaceDirection::Back => seq![(1, -1, -1), (-1, -1, -1), (-1, 1, -1), (1, 1, -1)],
    }
}

/// Doubled position of corner `c` of a face.
pub open spec fn vertex_position(f: Face, c: int) -> (int, int, int) {
    (
        2 * f.pos.x + corner_offsets(f.dir)[c].0,
        2 * f.pos.y + corner_offsets(f.dir)[c].1,
        2 * f.pos.z + corner_offsets(f.dir)[c].2,
    )
}

/// The two triangles of a quad, as corner numbers.
pub open spec fn quad_corner(j: int) -> int {
    if j == 0 || j == 3 {
        0
    } else if j == 1 {
        1
    } else if j == 2 || j == 4 {
        2
    } else {
        3
    }
}

pub open spec fn vec3(v: IVec3) -> (int, int, int) {
    (v.x as int, v.y as int, v.z as int)
}

pub open spec fn face_in_range(f: Face) -> bool {
    -MAX_FACE_COORD <= f.pos.x <= MAX_FACE_COORD && -MAX_FACE_COORD <= f.pos.y <= MAX_FACE_COORD
        && -MAX_FACE_COORD <= f.pos.z <= MAX_FACE_COORD
}

/// Position, normal, texture and index buffers, index-aligned per vertex,
/// four vertices and six indices per face.
pub struct MeshBuilder {
    pub positions: Vec<IVec3>,
    pub normals: Vec<IVec3>,
    pub textures: Vec<BlockTextureId>,
    pub indices: Vec<u32>,
    /// The faces the buffers hold, in the order they were added.
    pub faces: Ghost<Seq<Face>>,
}

impl MeshBuilder {
    /// The buffers hold exactly the faces of `faces`, in order.
    pub open spec fn wf(&self) -> bool {
        let n = self.faces@.len();
        &&& n <= MAX_MESH_FACES
        &&& self.positions@.len() == 4 * n
        &&& self.normals@.len() == 4 * n
        &&& self.textures@.len() == 4 * n
        &&& self.indices@.len() == 6 * n
        &&& forall|v: int|
            0 <= v < 4 * n ==> vec3(#[trigger] self.positions@[v]) == vertex_position(
                self.faces@[v / 4],
                v % 4,
            )
        &&& forall|v: int|
            0 <= v < 4 * n ==> vec3(#[trigger] self.normals@[v]) == normal_of(
                self.faces@[v / 4].dir,
            )
        &&& forall|v: int|
            0 <= v < 4 * n ==> #[trigger] self.textures@[v] == self.faces@[v / 4].texture
        &&& forall|j: int|
            0 <= j < 6 * n ==> #[trigger] self.indices@[j] == 4 * (j / 6) + quad_corner(j % 6)
    }

    /// An empty builder with room for `face_count` faces.
    pub fn with_capacity_faces(face_count: usize) -> (r: MeshBuilder)
        requires
            face_count <= MAX_MESH_FACES,
        ensures
            r.wf(),
            r.faces@ == Seq::<Face>::empty(),
    {
        let v = face_count * 4;
        let i = face_count * 6;
        MeshBuilder {
            positions: Vec::with_capacity(v),
            normals: Vec::with_capacity(v),
            textures: Vec::with_capacity(v),
            indices: Vec::with_capacity(i),
            faces: Ghost(Seq::empty()),
        }
    }

    /// Appends one quad: the face `dir` of the block at `pos`.
    pub fn add_face(&mut self, dir: FaceDirection, pos: IVec3, texture: BlockTextureId)
        requires
            old(self).wf(),
            old(self).faces@.len() < MAX_MESH_FACES,
            face_in_range(Face { pos, dir, texture }),
        ensures
            final(self).wf(),
            final(self).faces@ == old(self).faces@.push(Face { pos, dir, texture }),
    {
        let ghost f = Face { pos, dir, texture };
        let ghost n = self.faces@.len();
        let base = self.positions.len() as u32;
        let corners = face_corners(dir);
        let normal = dir.normal();
        let mut c: usize = 0;
        while c < 4
            invariant
                c <= 4,
                n == self.faces@.len(),
                n < MAX_MESH_FACES,
                self.faces@ == old(self).faces@,
                base == 4 * n,
                forall|j: int|
                    0 <= j < 6 * n ==> #[trigger] self.indices@[j] == 4 * (j / 6) + quad_corner(
                        j % 6,
                    ),
                face_in_range(f),
                f == (Face { pos, dir, texture }),
                corners@.len() == 4,
                forall|k: int| 0 <= k < 4 ==> vec3(#[trigger] corners@[k]) == corner_offsets(dir)[k],
                vec3(normal) == normal_of(dir),
                self.positions@.len() == 4 * n + c,
                self.normals@.len() == 4 * n + c,
                self.textures@.len() == 4 * n + c,
                self.indices@.len() == 6 * n,
                forall|v: int|
                    0 <= v < 4 * n + c ==> vec3(#[trigger] self.positions@[v]) == vertex_position(
                        self.faces@.push(f)[v / 4],
                        v % 4,
                    ),
                forall|v: int|
                    0 <= v < 4 * n + c ==> vec3(#[trigger] self.normals@[v]) == normal_of(
                        self.faces@.push(f)[v / 4].dir,
                    ),
                forall|v: int|
                    0 <= v < 4 * n + c ==> #[trigger] self.textures@[v] == self.faces@.push(
                        f,
                    )[v / 4].texture,
            decreases 4 - c,
        {
            let o = corners[c];
            let p = IVec3::new(2 * pos.x + o.x, 2 * pos.y + o.y, 2 * pos.z + o.z);
            self.positions.push(p);
            self.normals.push(normal);
            self.textures.push(texture);
            c = c + 1;
        }
        self.indices.push(base);
        self.indices.push(base + 1);
        self.indices.push(base + 2);
        self.indices.push(base);
        self.indices.push(base + 2);
        self.indices.push(base + 3);
        self.faces = Ghost(self.faces@.push(f));
        assert forall|j: int| 0 <= j < 6 * (n + 1) implies #[trigger] self.indices@[j] == 4 * (j
            / 6) + quad_corner(j % 6) by {
            if j >= 6 * n {
                assert(j / 6 == n);
                assert(j % 6 == j - 6 * n);
            }
        }
    }
}

/// Doubled corner offsets of a face, as `corner_offsets` lists them.
fn face_corners(d: FaceDirection) -> (r: [IVec3; 4])
    ensures
        forall|k: int| 0 <= k < 4 ==> vec3(#[trigger] r@[k]) == corner_offsets(d)[k],
{
    match d {
        FaceDirection::Right => [
            IVec3::new(1, -1, 1),
            IVec3::new(1, -1, -1),
            IVec3::new(1, 1, -1),
            IVec3::new(1, 1, 1),
        ],
        FaceDirection::Left => [
            IVec3::new(-1, -1, -1),
            IVec3::new(-1, -1, 1),
            IVec3::new(-1, 1, 1),
            IVec3::new(-1, 1, -1),
        ],
        FaceDirection::Top => [
            IVec3::new(-1, 1, 1),
            IVec3::new(1, 1, 1),
            IVec3::new(1, 1, -1),
            IVec3::new(-1, 1, -1),
        ],
        FaceDirection::Bottom => [
            IVec3::new(-1, -1, -1),
            IVec3::new(1, -1, -1),
            IVec3::new(1, -1, 1),
            IVec3::new(-1, -1, 1),
        ],
        FaceDirection::Front => [
            IVec3::new(-1, -1, 1),
            IVec3::new(1, -1, 1),
            IVec3::new(1, 1, 1),
            IVec3::new(-1, 1, 1),
        ],
        FaceDirection::Back => [
            IVec3::new(1, -1, -1),
            IVec3::new(-1, -1, -1),
            IVec3::new(-1, 1, -1),
            IVec3::new(1, 1, -1),
        ],
    }
}

} // verus!
