//! The chunk registry: which chunks are loaded, each with its meshing state,
//! and the block-access view that resolves world positions through it.

use vstd::prelude::*;

use std::collections::HashMap;

use crate::block::BlockType;
use crate::chunk::{in_chunk, Chunk, CHUNK_HEIGHT, CHUNK_SIZE};
use crate::coords::{IVec2, IVec3};
use crate::mesher::{solid_near, BlockAccess};

verus! {

/// Chunk coordinate of the chunk that holds a world column.
pub open spec fn chunk_of(x: int, z: int) -> IVec2 {
    IVec2 { x: (x / CHUNK_SIZE as int) as i32, y: (z / CHUNK_SIZE as int) as i32 }
}

/// Floor division and non-negative remainder by the chunk size.
fn split_world(v: i32) -> (r: (i32, i32))
    ensures
        r.0 as int == v as int / CHUNK_SIZE as int,
        r.1 as int == v as int % CHUNK_SIZE as int,
{
    if v >= 0 {
        (v / 16, v % 16)
    } else {
        let q: i32 = -((-(v + 1)) / 16) - 1;
        (q, v - q * 16)
    }
}

broadcast use vstd::std_specs::hash::group_hash_axioms;

/// Hash key of a chunk coordinate: both halves shifted to be non-negative
/// and packed into one `u64`.
pub open spec fn coord_key(c: IVec2) -> u64 {
    ((c.x as int + 0x8000_0000) * 0x1_0000_0000 + (c.y as int + 0x8000_0000)) as u64
}

proof fn lemma_coord_key_injective(a: IVec2, b: IVec2)
    ensures
        coord_key(a) == coord_key(b) ==> a == b,
{
    let (ax, ay) = (a.x as int + 0x8000_0000, a.y as int + 0x8000_0000);
    let (bx, by) = (b.x as int + 0x8000_0000, b.y as int + 0x8000_0000);
    assert(0 <= ax * 0x1_0000_0000 + ay < 0x1_0000_0000_0000_0000) by (nonlinear_arith)
        requires
            0 <= ax < 0x1_0000_0000,
            0 <= ay < 0x1_0000_0000,
    ;
    assert(0 <= bx * 0x1_0000_0000 + by < 0x1_0000_0000_0000_0000) by (nonlinear_arith)
        requires
            0 <= bx < 0x1_0000_0000,
            0 <= by < 0x1_0000_0000,
    ;
    if ax * 0x1_0000_0000 + ay == bx * 0x1_0000_0000 + by {
        assert(ax == bx && ay == by) by (nonlinear_arith)
            requires
                0 <= ay < 0x1_0000_0000,
                0 <= by < 0x1_0000_0000,
                ax * 0x1_0000_0000 + ay == bx * 0x1_0000_0000 + by,
        ;
    }
}

fn key_of(c: IVec2) -> (r: u64)
    ensures
        r == coord_key(c),
{
    let hi = (c.x as i64 + 0x8000_0000) as u64;
    let lo = (c.y as i64 + 0x8000_0000) as u64;
    assert(hi * 0x1_0000_0000 + lo < 0x1_0000_0000_0000_0000) by (nonlinear_arith)
        requires
            hi < 0x1_0000_0000,
            lo < 0x1_0000_0000,
    ;
    hi * 0x1_0000_0000 + lo
}

/// The loaded chunks, each once, each tagged meshed or not. `chunks` and
/// `meshed` are index-aligned; `index` maps the key of each loaded
/// coordinate to its slot.
pub struct ChunkMap {
    chunks: Vec<Chunk>,
    meshed: Vec<bool>,
    index: HashMap<u64, usize>,
}

impl ChunkMap {
    pub closed spec fn slots(&self) -> Map<u64, usize> {
        self.index@
    }

    pub closed spec fn entries(&self) -> Seq<Chunk> {
        self.chunks@
    }

    pub closed spec fn tags(&self) -> Seq<bool> {
        self.meshed@
    }

    /// Every stored chunk is well formed, no coordinate appears twice, and
    /// the index maps exactly the stored coordinates to their slots.
    pub open spec fn wf(&self) -> bool {
        &&& self.entries().len() == self.tags().len()
        &&& forall|k: int|
            0 <= k < self.entries().len() ==> self.slots().contains_key(
                coord_key(#[trigger] self.entries()[k].coord),
            ) && self.slots()[coord_key(self.entries()[k].coord)] == k
        &&& forall|key: u64|
            #[trigger] self.slots().contains_key(key) ==> self.slots()[key] < self.entries().len()
                && coord_key(self.entries()[self.slots()[key] as int].coord) == key
        &&& forall|k: int| 0 <= k < self.entries().len() ==> (#[trigger] self.entries()[k]).wf()
        &&& self.distinct()
    }

    /// No coordinate is stored twice.
    pub open spec fn distinct(&self) -> bool {
        forall|i: int, j: int|
            0 <= i < self.entries().len() && 0 <= j < self.entries().len() && i != j
                ==> (#[trigger] self.entries()[i]).coord != (#[trigger] self.entries()[j]).coord
    }

    /// Whether a chunk is loaded at `c`.
    pub open spec fn contains(&self, c: IVec2) -> bool {
        exists|k: int| 0 <= k < self.entries().len() && (#[trigger] self.entries()[k]).coord == c
    }

    pub open spec fn slot(&self, c: IVec2) -> int {
        choose|k: int| 0 <= k < self.entries().len() && (#[trigger] self.entries()[k]).coord == c
    }

    /// The chunk loaded at `c`.
    pub open spec fn chunk_at(&self, c: IVec2) -> Chunk {
        self.entries()[self.slot(c)]
    }

    /// Whether the chunk loaded at `c` is meshed.
    pub open spec fn meshed_at(&self, c: IVec2) -> bool {
        self.tags()[self.slot(c)]
    }

    /// The set of loaded coordinates.
    pub open spec fn coord_set(&self) -> Set<IVec2> {
        Set::new(|c: IVec2| self.contains(c))
    }

    /// A coordinate found at slot `k` is the one `slot` picks.
    pub proof fn lemma_slot(&self, k: int)
        requires
            self.distinct(),
            0 <= k < self.entries().len(),
        ensures
            self.contains(self.entries()[k].coord),
            self.slot(self.entries()[k].coord) == k,
    {
        let c = self.entries()[k].coord;
        assert(self.contains(c));
        let s = self.slot(c);
        assert(self.entries()[s].coord == c);
    }

    pub fn new() -> (r: ChunkMap)
        ensures
            r.wf(),
            r.coord_set() == Set::<IVec2>::empty(),
    {
        let r = ChunkMap { chunks: Vec::new(), meshed: Vec::new(), index: HashMap::new() };
        assert(r.coord_set() =~= Set::<IVec2>::empty());
        r
    }

    /// Number of loaded chunks.
    pub fn len(&self) -> (r: usize)
        requires
            self.wf(),
        ensures
            r == self.coord_set().len(),
    {
        proof {
            self.lemma_len();
        }
        self.chunks.len()
    }

    pub proof fn lemma_len(&self)
        requires
            self.wf(),
        ensures
            self.coord_set().finite(),
            self.coord_set().len() == self.entries().len(),
    {
        let s = self.entries().map_values(|c: Chunk| c.coord);
        assert forall|i: int, j: int| 0 <= i < s.len() && 0 <= j < s.len() && i != j implies s[i] != s[j] by {
            assert(self.entries()[i].coord != self.entries()[j].coord);
        }
        assert(s.no_duplicates());
        assert(self.coord_set() =~= s.to_set()) by {
            assert forall|c: IVec2| self.coord_set().contains(c) implies s.to_set().contains(c) by {
                let k = self.slot(c);
                assert(s[k] == c);
            }
            assert forall|c: IVec2| s.to_set().contains(c) implies self.coord_set().contains(c) by {
                let k = choose|k: int| 0 <= k < s.len() && s[k] == c;
                assert(self.entries()[k].coord == c);
            }
        }
        s.unique_seq_to_set();
    }

    /// Slot of the chunk at `c`, if one is loaded.
    fn find(&self, c: IVec2) -> (r: Option<usize>)
        requires
            self.wf(),
        ensures
            r is Some <==> self.contains(c),
            r matches Some(k) ==> k == self.slot(c) && k < self.entries().len(),
    {
        let key = key_of(c);
        match self.index.get(&key) {
            Some(k) => {
                let k = *k;
                proof {
                    assert(self.slots().contains_key(key) && self.slots()[key] == k);
                    lemma_coord_key_injective(self.entries()[k as int].coord, c);
                    self.lemma_slot(k as int);
                }
                Some(k)
            },
            None => {
                proof {
                    if self.contains(c) {
                        let k = self.slot(c);
                        assert(self.entries()[k].coord == c);
                    }
                }
                None
            },
        }
    }

    /// Whether a chunk is loaded at `c`.
    pub fn contains_coord(&self, c: IVec2) -> (r: bool)
        requires
            self.wf(),
        ensures
            r == self.contains(c),
    {
        self.find(c).is_some()
    }

    /// The chunk loaded at `c`.
    pub fn get(&self, c: IVec2) -> (r: Option<&Chunk>)
        requires
            self.wf(),
        ensures
            r is Some <==> self.contains(c),
            r matches Some(ch) ==> *ch == self.chunk_at(c),
    {
        match self.find(c) {
            Some(k) => Some(&self.chunks[k]),
            None => None,
        }
    }

    /// Whether the chunk at `c` is meshed; `None` if none is loaded there.
    pub fn is_meshed(&self, c: IVec2) -> (r: Option<bool>)
        requires
            self.wf(),
        ensures
            r is Some <==> self.contains(c),
            r matches Some(m) ==> m == self.meshed_at(c),
    {
        match self.find(c) {
            Some(k) => Some(self.meshed[k]),
            None => None,
        }
    }

    /// The loaded coordinates, each once.
    pub fn coords(&self) -> (r: Vec<IVec2>)
        requires
            self.wf(),
        ensures
            r@.no_duplicates(),
            r@.to_set() == self.coord_set(),
            r@.len() == self.entries().len(),
    {
        let mut out: Vec<IVec2> = Vec::with_capacity(self.chunks.len());
        let mut k: usize = 0;
        while k < self.chunks.len()
            invariant
                self.wf(),
                k <= self.chunks@.len(),
                out@.len() == k,
                forall|i: int| 0 <= i < k ==> out@[i] == (#[trigger] self.chunks@[i]).coord,
            decreases self.chunks@.len() - k,
        {
            out.push(self.chunks[k].coord);
            k = k + 1;
        }
        assert forall|i: int, j: int| 0 <= i < out@.len() && 0 <= j < out@.len() && i != j implies out@[i] != out@[j] by {
            assert(self.entries()[i].coord != self.entries()[j].coord);
        }
        assert(out@.to_set() =~= self.coord_set()) by {
            assert forall|c: IVec2| self.coord_set().contains(c) implies out@.to_set().contains(c) by {
                let k = self.slot(c);
                assert(out@[k] == c);
            }
            assert forall|c: IVec2| out@.to_set().contains(c) implies self.coord_set().contains(c) by {
                let k = choose|k: int| 0 <= k < out@.len() && out@[k] == c;
                assert(self.entries()[k].coord == c);
            }
        }
        out
    }

    /// Registers a chunk under its own coordinate with the given meshing
    /// state, replacing any chunk already loaded there.
    pub fn insert(&mut self, chunk: Chunk, meshed: bool)
        requires
            old(self).wf(),
            chunk.wf(),
        ensures
            final(self).wf(),
            final(self).contains(chunk.coord),
            final(self).chunk_at(chunk.coord) == chunk,
            final(self).meshed_at(chunk.coord) == meshed,
            forall|c: IVec2|
                c != chunk.coord ==> (final(self).contains(c) == old(self).contains(c) && (
                old(self).contains(c) ==> final(self).chunk_at(c) == old(self).chunk_at(c)
                    && final(self).meshed_at(c) == old(self).meshed_at(c))),
    {
        let c = chunk.coord;
        match self.find(c) {
            Some(k) => {
                let ghost before = *self;
                self.chunks.set(k, chunk);
                self.meshed.set(k, meshed);
                proof {
                    assert forall|i: int| 0 <= i < self.entries().len() implies #[trigger] self.entries()[i].coord
                        == before.entries()[i].coord by {}
                    assert(self.distinct());
                    self.lemma_slot(k as int);
                    assert forall|c2: IVec2| c2 != c implies (self.contains(c2) == before.contains(c2) && (
                    before.contains(c2) ==> self.chunk_at(c2) == before.chunk_at(c2)
                        && self.meshed_at(c2) == before.meshed_at(c2))) by {
                        if before.contains(c2) {
                            let s = before.slot(c2);
                            before.lemma_slot(s);
                            self.lemma_slot(s);
                        }
                        if self.contains(c2) {
                            let s = self.slot(c2);
                            self.lemma_slot(s);
                            before.lemma_slot(s);
                        }
                    }
                }
            },
            None => {
                let ghost before = *self;
                let n_exec = self.chunks.len();
                let key = key_of(c);
                self.chunks.push(chunk);
                self.meshed.push(meshed);
                self.index.insert(key, n_exec);
                proof {
                    let n = before.entries().len() as int;
                    assert forall|k2: int| 0 <= k2 < n implies #[trigger] coord_key(self.entries()[k2].coord) != key by {
                        assert(self.entries()[k2] == before.entries()[k2]);
                        lemma_coord_key_injective(self.entries()[k2].coord, c);
                        assert(before.contains(before.entries()[k2].coord));
                    }
                    assert forall|k2: int| 0 <= k2 < self.entries().len() implies self.slots().contains_key(
                        coord_key(#[trigger] self.entries()[k2].coord),
                    ) && self.slots()[coord_key(self.entries()[k2].coord)] == k2 by {
                        if k2 < n {
                            assert(self.entries()[k2] == before.entries()[k2]);
                        }
                    }
                    assert forall|key2: u64| #[trigger] self.slots().contains_key(key2) implies self.slots()[key2]
                        < self.entries().len() && coord_key(self.entries()[self.slots()[key2] as int].coord) == key2 by {
                        if key2 != key {
                            assert(before.slots().contains_key(key2));
                            assert(self.entries()[before.slots()[key2] as int] == before.entries()[before.slots()[key2] as int]);
                        }
                    }
                    assert forall|i: int, j: int|
                        0 <= i < self.entries().len() && 0 <= j < self.entries().len() && i != j
                            implies (#[trigger] self.entries()[i]).coord != (#[trigger] self.entries()[j]).coord by {
                        if i == n {
                            assert(self.entries()[j] == before.entries()[j]);
                            assert(before.contains(before.entries()[j].coord));
                        } else if j == n {
                            assert(self.entries()[i] == before.entries()[i]);
                            assert(before.contains(before.entries()[i].coord));
                        }
                    }
                    self.lemma_slot(n);
                    assert forall|c2: IVec2| c2 != c implies (self.contains(c2) == before.contains(c2) && (
                    before.contains(c2) ==> self.chunk_at(c2) == before.chunk_at(c2)
                        && self.meshed_at(c2) == before.meshed_at(c2))) by {
                        if before.contains(c2) {
                            let s = before.slot(c2);
                            before.lemma_slot(s);
                            self.lemma_slot(s);
                        }
                        if self.contains(c2) {
                            let s = self.slot(c2);
                            self.lemma_slot(s);
                            before.lemma_slot(s);
                        }
                    }
                }
            },
        }
    }

    /// Unloads the chunk at `c` and hands it back; `None` if none was loaded.
    pub fn remove(&mut self, c: IVec2) -> (r: Option<Chunk>)
        requires
            old(self).wf(),
        ensures
            final(self).wf(),
            r is Some <==> old(self).contains(c),
            r matches Some(ch) ==> ch == old(self).chunk_at(c),
            !final(self).contains(c),
            forall|c2: IVec2|
                c2 != c ==> (final(self).contains(c2) == old(self).contains(c2) && (
                old(self).contains(c2) ==> final(self).chunk_at(c2) == old(self).chunk_at(c2)
                    && final(self).meshed_at(c2) == old(self).meshed_at(c2))),
    {
        match self.find(c) {
            Some(k) => {
                let ghost before = *self;
                let ghost n = before.entries().len() as int;
                let last = self.chunks.len() - 1;
                let moved_key = key_of(self.chunks[last].coord);
                let key = key_of(c);
                let ch = self.chunks.swap_remove(k);
                self.meshed.swap_remove(k);
                self.index.remove(&key);
                if k < last {
                    self.index.insert(moved_key, k);
                }
                proof {
                    before.lemma_slot(k as int);
                    before.lemma_slot(n - 1);
                    assert(before.entries()[k as int].coord == c);
                    lemma_coord_key_injective(before.entries()[n - 1].coord, c);
                    assert(k < n - 1 ==> moved_key != key);
                    assert forall|i: int| 0 <= i < self.entries().len() implies #[trigger] self.entries()[i]
                        == before.entries()[if i == k { n - 1 } else { i }] by {}
                    assert forall|i: int| 0 <= i < self.tags().len() implies #[trigger] self.tags()[i]
                        == before.tags()[if i == k { n - 1 } else { i }] by {}
                    assert forall|i: int, j: int|
                        0 <= i < self.entries().len() && 0 <= j < self.entries().len() && i != j
                            implies (#[trigger] self.entries()[i]).coord != (#[trigger] self.entries()[j]).coord by {
                        let bi = if i == k { n - 1 } else { i };
                        let bj = if j == k { n - 1 } else { j };
                        assert(before.entries()[bi].coord != before.entries()[bj].coord);
                    }
                    assert(!self.contains(c)) by {
                        if self.contains(c) {
                            let s = self.slot(c);
                            let bs = if s == k { n - 1 } else { s };
                            assert(before.entries()[bs].coord == c);
                            assert(before.entries()[k as int].coord == c);
                        }
                    }
                    assert forall|c2: IVec2| c2 != c implies (self.contains(c2) == before.contains(c2) && (
                    before.contains(c2) ==> self.chunk_at(c2) == before.chunk_at(c2)
                        && self.meshed_at(c2) == before.meshed_at(c2))) by {
                        if before.contains(c2) {
                            let s = before.slot(c2);
                            before.lemma_slot(s);
                            let ns = if s == n - 1 { k as int } else { s };
                            assert(self.entries()[ns] == before.entries()[s]);
                            self.lemma_slot(ns);
                        }
                        if self.contains(c2) {
                            let s = self.slot(c2);
                            self.lemma_slot(s);
                            let bs = if s == k { n - 1 } else { s };
                            before.lemma_slot(bs);
                        }
                    }
                }
                Some(ch)
            },
            None => None,
        }
    }

    /// Marks the chunk at `c` as meshed; returns whether one was loaded.
    pub fn set_meshed(&mut self, c: IVec2) -> (r: bool)
        requires
            old(self).wf(),
        ensures
            final(self).wf(),
            r == old(self).contains(c),
            forall|c2: IVec2| final(self).contains(c2) == old(self).contains(c2),
            forall|c2: IVec2|
                old(self).contains(c2) ==> final(self).chunk_at(c2) == old(self).chunk_at(c2),
            old(self).contains(c) ==> final(self).meshed_at(c),
            forall|c2: IVec2|
                c2 != c && old(self).contains(c2) ==> final(self).meshed_at(c2) == old(self).meshed_at(
                    c2,
                ),
    {
        match self.find(c) {
            Some(k) => {
                let ghost before = *self;
                self.meshed.set(k, true);
                proof {
                    assert(self.entries() == before.entries());
                    assert forall|c2: IVec2| self.contains(c2) == before.contains(c2) by {}
                    assert forall|c2: IVec2| before.contains(c2) implies self.slot(c2) == before.slot(c2) by {
                        let s = before.slot(c2);
                        before.lemma_slot(s);
                        self.lemma_slot(s);
                    }
                }
                true
            },
            None => false,
        }
    }
}

impl BlockAccess for ChunkMap {
    open spec fn valid(&self) -> bool {
        self.wf()
    }

    /// The block at a world position: found in the loaded chunk that holds
    /// its column, `None` if that chunk is not loaded or `y` is out of range.
    open spec fn block_at_world(&self, x: int, y: int, z: int) -> Option<BlockType> {
        let c = chunk_of(x, z);
        let lx = x % CHUNK_SIZE as int;
        let lz = z % CHUNK_SIZE as int;
        if self.contains(c) && in_chunk(lx, y, lz) {
            Some(self.chunk_at(c).block_at(lx, y, lz))
        } else {
            None
        }
    }

    fn get_block(&self, world_pos: IVec3) -> (r: Option<BlockType>) {
        let (cx, lx) = split_world(world_pos.x);
        let (cz, lz) = split_world(world_pos.z);
        let c = IVec2::new(cx, cz);
        match self.find(c) {
            Some(k) => self.chunks[k].get_local(IVec3::new(lx, world_pos.y, lz)),
            None => None,
        }
    }
}

/// The block-access view that the mesher reads neighbouring chunks through:
/// a read-only borrow of the chunk map.
pub struct WorldBlockAccess<'a> {
    pub map: &'a ChunkMap,
}

impl<'a> BlockAccess for WorldBlockAccess<'a> {
    open spec fn valid(&self) -> bool {
        self.map.wf()
    }

    /// What the chunk map holds at a world position.
    open spec fn block_at_world(&self, x: int, y: int, z: int) -> Option<BlockType> {
        self.map.block_at_world(x, y, z)
    }

    fn get_block(&self, world_pos: IVec3) -> (r: Option<BlockType>) {
        self.map.get_block(world_pos)
    }
}

/// Seams agree: for a loaded chunk `b`, the solidity it sees at a local
/// position one block outside itself (or inside) is the solidity that the
/// loaded chunk holding that world position has there for itself.
pub proof fn lemma_seam_consistency(reg: ChunkMap, b: IVec2, x: int, y: int, z: int)
    requires
        reg.wf(),
        reg.contains(b),
        -1 <= x <= CHUNK_SIZE,
        -1 <= z <= CHUNK_SIZE,
        0 <= y < CHUNK_HEIGHT,
    ensures
        ({
            let wx = b.x * CHUNK_SIZE + x;
            let wz = b.y * CHUNK_SIZE + z;
            let a = chunk_of(wx, wz);
            reg.contains(a) ==> {
                &&& solid_near(&reg.chunk_at(b), &reg, x, y, z) == solid_near(
                    &reg.chunk_at(a),
                    &reg,
                    wx % CHUNK_SIZE as int,
                    y,
                    wz % CHUNK_SIZE as int,
                )
                &&& in_chunk(wx % CHUNK_SIZE as int, y, wz % CHUNK_SIZE as int)
            }
        }),
{
    let k = reg.slot(b);
    reg.lemma_slot(k);
    assert(reg.entries()[k].wf());
    assert(reg.chunk_at(b).coord == b);
    let wx = b.x * CHUNK_SIZE + x;
    let wz = b.y * CHUNK_SIZE + z;
    if in_chunk(x, y, z) {
        assert(wx / 16 == b.x as int && wx % 16 == x);
        assert(wz / 16 == b.y as int && wz % 16 == z);
        assert(chunk_of(wx, wz) == b);
    }
}

} // verus!
