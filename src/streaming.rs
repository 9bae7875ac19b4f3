//! The streaming controller: tracks the viewer's chunk, computes the set of
//! chunks that should be loaded, diffs it against the registry and carries
//! out spawns, promotions and despawns, spawns and despawns under per-tick
//! budgets.

use vstd::prelude::*;

use crate::chunk::{valid_chunk_coord, Chunk, CHUNK_SIZE};
use crate::coords::IVec2;
use crate::registry::{chunk_of, ChunkMap};

verus! {

/// Largest render distance, in chunks.
pub const MAX_RENDER_DISTANCE: usize = 1024;

/// Largest viewer world coordinate (in absolute value) the controller takes.
pub const MAX_VIEWER_COORD: i32 = 2_000_000_000;

/// Largest chunk coordinate (in absolute value) the viewer can stand in.
pub const MAX_VIEWER_CHUNK: i32 = 125_000_000;

/// A chunk that should be loaded, and whether it should also be meshed or
/// only supply boundary data to meshed neighbours.
#[derive(Copy, Clone, Debug, PartialEq, Eq, Hash, Structural)]
pub struct DesiredChunkEntry {
    pub coord: IVec2,
    pub should_be_meshed: bool,
}

/// The viewer's current chunk and the one it was in before its last move.
#[derive(Copy, Clone, Debug, PartialEq, Eq, Structural)]
pub struct PlayerChunkPositionTracker {
    pub current: IVec2,
    pub previous: IVec2,
}

pub open spec fn viewer_chunk_ok(c: IVec2) -> bool {
    -MAX_VIEWER_CHUNK <= c.x <= MAX_VIEWER_CHUNK && -MAX_VIEWER_CHUNK <= c.y <= MAX_VIEWER_CHUNK
}

/// Side of the desired square: the meshed square plus a ring on each side.
pub open spec fn desired_side(r: int) -> int {
    2 * r + 3
}

/// Entry `k` of the desired square around `center`, row by row in x.
pub open spec fn desired_entry(center: IVec2, r: int, k: int) -> DesiredChunkEntry {
    let dx = k / desired_side(r) - (r + 1);
    let dz = k % desired_side(r) - (r + 1);
    DesiredChunkEntry {
        coord: IVec2 { x: (center.x + dx) as i32, y: (center.y + dz) as i32 },
        should_be_meshed: -r <= dx <= r && -r <= dz <= r,
    }
}

/// The desired chunks around `center` for render distance `r`: the square
/// of radius `r + 1`, its inner square of radius `r` meshed, its outer ring
/// loaded only.
pub open spec fn desired_seq(center: IVec2, r: int) -> Seq<DesiredChunkEntry> {
    Seq::new((desired_side(r) * desired_side(r)) as nat, |k: int| desired_entry(center, r, k))
}

/// Chebyshev distance on the chunk grid.
pub open spec fn chunk_distance(a: IVec2, b: IVec2) -> int {
    let dx = if a.x >= b.x { a.x - b.x } else { b.x - a.x };
    let dz = if a.y >= b.y { a.y - b.y } else { b.y - a.y };
    if dx >= dz { dx } else { dz }
}

/// Whether some entry of `d` has coordinate `c`.
pub open spec fn has_coord(d: Seq<DesiredChunkEntry>, c: IVec2) -> bool {
    exists|j: int| 0 <= j < d.len() && (#[trigger] d[j]).coord == c
}

/// No two entries of `d` share a coordinate.
pub open spec fn unique_coords(d: Seq<DesiredChunkEntry>) -> bool {
    forall|i: int, j: int|
        0 <= i < d.len() && 0 <= j < d.len() && i != j ==> (#[trigger] d[i]).coord != (#[trigger] d[j]).coord
}

/// The entries that reconciliation queues for spawning.
pub open spec fn to_spawn(d: Seq<DesiredChunkEntry>, reg: ChunkMap, e: DesiredChunkEntry) -> bool {
    d.contains(e) && !reg.contains(e.coord)
}

/// The coordinates that reconciliation queues for promotion.
pub open spec fn to_promote(d: Seq<DesiredChunkEntry>, reg: ChunkMap, c: IVec2) -> bool {
    d.contains(DesiredChunkEntry { coord: c, should_be_meshed: true }) && reg.contains(c)
        && !reg.meshed_at(c)
}

/// The coordinates that reconciliation queues for despawning.
pub open spec fn to_despawn(d: Seq<DesiredChunkEntry>, reg: ChunkMap, c: IVec2) -> bool {
    reg.contains(c) && !has_coord(d, c)
}

/// Chunk coordinate of a world position on one horizontal axis.
fn world_to_chunk(v: i32) -> (r: i32)
    ensures
        r as int == v as int / CHUNK_SIZE as int,
{
    if v >= 0 {
        v / 16
    } else {
        -((-(v + 1)) / 16) - 1
    }
}

/// Moves the tracker to the chunk holding the viewer's world position
/// `(world_x, world_z)`; returns whether that is a different chunk.
pub fn detect_player_chunk(tracker: &mut PlayerChunkPositionTracker, world_x: i32, world_z: i32) -> (r: bool)
    requires
        -MAX_VIEWER_COORD <= world_x <= MAX_VIEWER_COORD,
        -MAX_VIEWER_COORD <= world_z <= MAX_VIEWER_COORD,
    ensures
        ({
            let c = IVec2 {
                x: (world_x as int / CHUNK_SIZE as int) as i32,
                y: (world_z as int / CHUNK_SIZE as int) as i32,
            };
            &&& r == (c != old(tracker).current)
            &&& r ==> *final(tracker) == (PlayerChunkPositionTracker { current: c, previous: old(tracker).current })
            &&& !r ==> *final(tracker) == *old(tracker)
            &&& viewer_chunk_ok(c)
        }),
{
    let c = IVec2::new(world_to_chunk(world_x), world_to_chunk(world_z));
    if c != tracker.current {
        tracker.previous = tracker.current;
        tracker.current = c;
        true
    } else {
        false
    }
}

proof fn lemma_desired_entry(center: IVec2, r: int, k: int)
    requires
        0 <= r <= MAX_RENDER_DISTANCE,
        0 <= k < desired_side(r) * desired_side(r),
    ensures
        -(r + 1) <= k / desired_side(r) - (r + 1) <= r + 1,
        -(r + 1) <= k % desired_side(r) - (r + 1) <= r + 1,
{
    let s = desired_side(r);
    assert(0 <= k / s < s) by (nonlinear_arith)
        requires
            s > 0,
            0 <= k < s * s,
    ;
}

/// Distinct entries of the desired square have distinct coordinates.
proof fn lemma_desired_unique(center: IVec2, r: int)
    requires
        0 <= r <= MAX_RENDER_DISTANCE,
        viewer_chunk_ok(center),
    ensures
        unique_coords(desired_seq(center, r)),
{
    let d = desired_seq(center, r);
    let s = desired_side(r);
    assert forall|i: int, j: int| 0 <= i < d.len() && 0 <= j < d.len() && i != j implies (#[trigger] d[i]).coord
        != (#[trigger] d[j]).coord by {
        lemma_desired_entry(center, r, i);
        lemma_desired_entry(center, r, j);
        assert(i == (i / s) * s + i % s && j == (j / s) * s + j % s) by (nonlinear_arith)
            requires
                s > 0,
        ;
        if i / s == j / s && i % s == j % s {
            assert(i == j) by (nonlinear_arith)
                requires
                    i == (i / s) * s + i % s,
                    j == (j / s) * s + j % s,
                    i / s == j / s,
                    i % s == j % s,
            ;
        }
    }
}

/// Recomputes the desired set around the tracker's current chunk, unless
/// the viewer stayed in its chunk and the set is already filled; returns
/// whether it recomputed.
pub fn update_desired_chunk_set(
    tracker: &PlayerChunkPositionTracker,
    render_distance: usize,
    desired: &mut Vec<DesiredChunkEntry>,
) -> (r: bool)
    requires
        render_distance <= MAX_RENDER_DISTANCE,
        viewer_chunk_ok(tracker.current),
    ensures
        r == !(tracker.current == tracker.previous && old(desired)@.len() > 0),
        r ==> final(desired)@ == desired_seq(tracker.current, render_distance as int),
        !r ==> final(desired)@ == old(desired)@,
{
    if tracker.current == tracker.previous && desired.len() > 0 {
        return false;
    }
    let center = tracker.current;
    let pr: i32 = render_distance as i32 + 1;
    let side: usize = 2 * render_distance + 3;
    assert(side * side <= 2051 * 2051) by (nonlinear_arith)
        requires
            side <= 2051,
    ;
    let total: usize = side * side;
    let ghost rr = render_distance as int;
    desired.clear();
    let mut k: usize = 0;
    while k < total
        invariant
            render_distance <= MAX_RENDER_DISTANCE,
            viewer_chunk_ok(center),
            center == tracker.current,
            rr == render_distance,
            pr == rr + 1,
            side == desired_side(rr),
            total == side * side,
            k <= total,
            desired@.len() == k,
            forall|j: int| 0 <= j < k ==> desired@[j] == #[trigger] desired_entry(center, rr, j),
        decreases total - k,
    {
        proof {
            lemma_desired_entry(center, rr, k as int);
        }
        let dx: i32 = (k / side) as i32 - pr;
        let dz: i32 = (k % side) as i32 - pr;
        let is_at_edge = dx == pr || dx == -pr || dz == pr || dz == -pr;
        desired.push(
            DesiredChunkEntry {
                coord: IVec2::new(center.x + dx, center.y + dz),
                should_be_meshed: !is_at_edge,
            },
        );
        k = k + 1;
    }
    assert(desired@ =~= desired_seq(center, rr));
    true
}

proof fn lemma_push_contains<T>(s: Seq<T>, x: T)
    ensures
        forall|e: T| #[trigger] s.push(x).contains(e) <==> (s.contains(e) || e == x),
{
    assert forall|e: T| #[trigger] s.push(x).contains(e) implies (s.contains(e) || e == x) by {
        let j = choose|j: int| 0 <= j < s.push(x).len() && s.push(x)[j] == e;
        if j < s.len() {
            assert(s[j] == e);
        }
    }
    assert forall|e: T| (s.contains(e) || e == x) implies #[trigger] s.push(x).contains(e) by {
        if s.contains(e) {
            let j = choose|j: int| 0 <= j < s.len() && s[j] == e;
            assert(s.push(x)[j] == e);
        } else {
            assert(s.push(x)[s.len() as int] == e);
        }
    }
}

/// Whether an entry of `desired` has coordinate `c`.
fn desired_has_coord(desired: &Vec<DesiredChunkEntry>, c: IVec2) -> (r: bool)
    ensures
        r == has_coord(desired@, c),
{
    let mut j: usize = 0;
    while j < desired.len()
        invariant
            j <= desired@.len(),
            forall|i: int| 0 <= i < j ==> (#[trigger] desired@[i]).coord != c,
        decreases desired@.len() - j,
    {
        if desired[j].coord == c {
            return true;
        }
        j = j + 1;
    }
    false
}

/// Rebuilds the three work queues from the desired set and the registry:
/// desired entries that are not loaded are queued to spawn, desired meshed
/// entries whose chunk is loaded unmeshed to promote, loaded coordinates
/// that are not desired to despawn. Each queue holds each item once.
pub fn reconcile_chunks(
    desired: &Vec<DesiredChunkEntry>,
    registry: &ChunkMap,
    spawn: &mut Vec<DesiredChunkEntry>,
    despawn: &mut Vec<IVec2>,
    promote: &mut Vec<IVec2>,
)
    requires
        registry.wf(),
        unique_coords(desired@),
    ensures
        forall|e: DesiredChunkEntry| final(spawn)@.contains(e) <==> to_spawn(desired@, *registry, e),
        forall|c: IVec2| final(promote)@.contains(c) <==> to_promote(desired@, *registry, c),
        forall|c: IVec2| final(despawn)@.contains(c) <==> to_despawn(desired@, *registry, c),
        final(spawn)@.no_duplicates(),
        final(promote)@.no_duplicates(),
        final(despawn)@.no_duplicates(),
{
    spawn.clear();
    despawn.clear();
    promote.clear();
    let mut i: usize = 0;
    while i < desired.len()
        invariant
            registry.wf(),
            unique_coords(desired@),
            i <= desired@.len(),
            forall|e: DesiredChunkEntry|
                #[trigger] spawn@.contains(e) <==> (desired@.take(i as int).contains(e) && !registry.contains(e.coord)),
            forall|c: IVec2|
                #[trigger] promote@.contains(c) <==> (desired@.take(i as int).contains(
                    DesiredChunkEntry { coord: c, should_be_meshed: true },
                ) && registry.contains(c) && !registry.meshed_at(c)),
            forall|m: int| 0 <= m < spawn@.len() ==> has_coord(desired@.take(i as int), (#[trigger] spawn@[m]).coord),
            forall|m: int| 0 <= m < promote@.len() ==> has_coord(desired@.take(i as int), #[trigger] promote@[m]),
            spawn@.no_duplicates(),
            promote@.no_duplicates(),
            despawn@.len() == 0,
        decreases desired@.len() - i,
    {
        let entry = desired[i];
        let ghost before = desired@.take(i as int);
        let ghost sp0 = spawn@;
        let ghost pr0 = promote@;
        assert(desired@.take(i as int + 1) =~= before.push(entry));
        assert forall|c: IVec2| has_coord(before, c) implies c != entry.coord by {
            let j = choose|j: int| 0 <= j < before.len() && (#[trigger] before[j]).coord == c;
            assert(desired@[j].coord == c);
        }
        match registry.get(entry.coord) {
            None => {
                assert(!spawn@.contains(entry)) by {
                    if spawn@.contains(entry) {
                        let m = choose|m: int| 0 <= m < spawn@.len() && spawn@[m] == entry;
                        assert(has_coord(before, spawn@[m].coord));
                    }
                }
                spawn.push(entry);
            },
            Some(_) => {
                let m = registry.is_meshed(entry.coord);
                if entry.should_be_meshed && m == Some(false) {
                    assert(!promote@.contains(entry.coord)) by {
                        if promote@.contains(entry.coord) {
                            let q = choose|q: int| 0 <= q < promote@.len() && promote@[q] == entry.coord;
                            assert(has_coord(before, promote@[q]));
                        }
                    }
                    promote.push(entry.coord);
                }
            },
        }
        proof {
            let after = desired@.take(i as int + 1);
            lemma_push_contains(before, entry);
            lemma_push_contains(sp0, entry);
            lemma_push_contains(pr0, entry.coord);
            assert forall|c: IVec2| has_coord(before, c) implies has_coord(after, c) by {
                let j = choose|j: int| 0 <= j < before.len() && (#[trigger] before[j]).coord == c;
                assert(after[j].coord == c);
            }
            assert(has_coord(after, entry.coord)) by {
                assert(after[i as int].coord == entry.coord);
            }
            let pushed_spawn = !registry.contains(entry.coord);
            let pushed_promote = registry.contains(entry.coord) && entry.should_be_meshed && !registry.meshed_at(entry.coord);
            assert(spawn@ == if pushed_spawn { sp0.push(entry) } else { sp0 });
            assert(promote@ == if pushed_promote { pr0.push(entry.coord) } else { pr0 });
            assert forall|c: IVec2|
                promote@.contains(c) <==> (after.contains(DesiredChunkEntry { coord: c, should_be_meshed: true })
                    && registry.contains(c) && !registry.meshed_at(c)) by {
                let t = DesiredChunkEntry { coord: c, should_be_meshed: true };
                assert(after.contains(t) == (before.contains(t) || t == entry));
                if before.contains(t) {
                    let j = choose|j: int| 0 <= j < before.len() && before[j] == t;
                    assert(before[j].coord == c);
                }
                if pr0.contains(c) {
                    let q = choose|q: int| 0 <= q < pr0.len() && pr0[q] == c;
                    assert(has_coord(before, pr0[q]));
                }
            }
            assert forall|e: DesiredChunkEntry|
                spawn@.contains(e) <==> (after.contains(e) && !registry.contains(e.coord)) by {
                assert(after.contains(e) == (before.contains(e) || e == entry));
            }
        }
        i = i + 1;
    }
    assert(desired@.take(desired@.len() as int) =~= desired@);
    let cs = registry.coords();
    let mut k: usize = 0;
    while k < cs.len()
        invariant
            registry.wf(),
            k <= cs@.len(),
            cs@.no_duplicates(),
            cs@.to_set() == registry.coord_set(),
            forall|c: IVec2| despawn@.contains(c) <==> (cs@.take(k as int).contains(c) && !has_coord(desired@, c)),
            forall|m: int| 0 <= m < despawn@.len() ==> cs@.take(k as int).contains(#[trigger] despawn@[m]),
            despawn@.no_duplicates(),
        decreases cs@.len() - k,
    {
        let c = cs[k];
        let ghost before = cs@.take(k as int);
        let ghost ds0 = despawn@;
        assert(cs@.take(k as int + 1) =~= before.push(c));
        if !desired_has_coord(desired, c) {
            assert(!despawn@.contains(c)) by {
                if despawn@.contains(c) {
                    let m = choose|m: int| 0 <= m < despawn@.len() && despawn@[m] == c;
                    assert(before.contains(c));
                    let j = choose|j: int| 0 <= j < before.len() && before[j] == c;
                    assert(cs@[j] == cs@[k as int]);
                }
            }
            despawn.push(c);
        }
        proof {
            let after = cs@.take(k as int + 1);
            lemma_push_contains(before, c);
            lemma_push_contains(ds0, c);
            assert(despawn@ == if !has_coord(desired@, c) { ds0.push(c) } else { ds0 });
            assert forall|x: IVec2| despawn@.contains(x) <==> (after.contains(x) && !has_coord(desired@, x)) by {
                assert(after.contains(x) == (before.contains(x) || x == c));
            }
            assert forall|x: IVec2| before.contains(x) implies after.contains(x) by {
                let j = choose|j: int| 0 <= j < before.len() && before[j] == x;
                assert(after[j] == x);
            }
            assert(after.contains(c)) by {
                assert(after[k as int] == c);
            }
        }
        k = k + 1;
    }
    proof {
        assert(cs@.take(cs@.len() as int) =~= cs@);
        assert forall|c: IVec2| cs@.contains(c) <==> registry.contains(c) by {
            assert(cs@.to_set().contains(c) == cs@.contains(c));
            assert(registry.coord_set().contains(c) == registry.contains(c));
        }
    }
}

/// The registries `a` and `b` hold the same chunk, in the same state, at `c`.
pub open spec fn same_entry(a: ChunkMap, b: ChunkMap, c: IVec2) -> bool {
    a.chunk_at(c) == b.chunk_at(c) && a.meshed_at(c) == b.meshed_at(c)
}

/// How many entries a tick takes from a queue: the budget, capped by what is
/// queued, or all of them without a budget.
pub open spec fn step_count(n: int, budget: Option<usize>, queued: int) -> bool {
    n == match budget {
        Some(b) => if b < queued { b as int } else { queued },
        None => queued,
    }
}

/// Spawns at most `budget` entries (all of them when there is no budget)
/// from the end of the spawn queue: each is generated by `generate` and
/// registered, meshed as its entry says. Returns how many were spawned.
pub fn execute_spawns<F: Fn(IVec2) -> Chunk>(
    spawn: &mut Vec<DesiredChunkEntry>,
    registry: &mut ChunkMap,
    budget: Option<usize>,
    generate: &F,
) -> (n: usize)
    requires
        old(registry).wf(),
        unique_coords(old(spawn)@),
        forall|m: int| 0 <= m < old(spawn)@.len() ==> valid_chunk_coord((#[trigger] old(spawn)@[m]).coord),
        forall|c: IVec2| valid_chunk_coord(c) ==> generate.requires((c,)),
        forall|c: IVec2, ch: Chunk| generate.ensures((c,), ch) ==> ch.wf() && ch.coord == c,
    ensures
        final(registry).wf(),
        step_count(n as int, budget, old(spawn)@.len() as int),
        final(spawn)@ == old(spawn)@.take(old(spawn)@.len() - n),
        forall|c: IVec2|
            #[trigger] final(registry).contains(c) <==> (old(registry).contains(c) || has_coord(
                old(spawn)@.skip(old(spawn)@.len() - n),
                c,
            )),
        forall|m: int|
            old(spawn)@.len() - n <= m < old(spawn)@.len() ==> {
                let e = #[trigger] old(spawn)@[m];
                &&& final(registry).meshed_at(e.coord) == e.should_be_meshed
                &&& generate.ensures((e.coord,), final(registry).chunk_at(e.coord))
            },
        forall|c: IVec2|
            old(registry).contains(c) && !has_coord(old(spawn)@.skip(old(spawn)@.len() - n), c)
                ==> #[trigger] same_entry(*old(registry), *final(registry), c),
{
    let len = spawn.len();
    let count: usize = match budget {
        Some(b) => if b < len { b } else { len },
        None => len,
    };
    let ghost s0 = spawn@;
    let ghost r0 = *registry;
    let mut k: usize = 0;
    while k < count
        invariant
            count <= len,
            len == s0.len(),
            k <= count,
            unique_coords(s0),
            forall|m: int| 0 <= m < s0.len() ==> valid_chunk_coord((#[trigger] s0[m]).coord),
            forall|c: IVec2| valid_chunk_coord(c) ==> generate.requires((c,)),
            forall|c: IVec2, ch: Chunk| generate.ensures((c,), ch) ==> ch.wf() && ch.coord == c,
            r0.wf(),
            registry.wf(),
            spawn@ == s0.take(len - k),
            forall|c: IVec2|
                #[trigger] registry.contains(c) <==> (r0.contains(c) || has_coord(s0.skip(len - k), c)),
            forall|m: int|
                len - k <= m < len ==> {
                    let e = #[trigger] s0[m];
                    &&& registry.meshed_at(e.coord) == e.should_be_meshed
                    &&& generate.ensures((e.coord,), registry.chunk_at(e.coord))
                },
            forall|c: IVec2|
                r0.contains(c) && !has_coord(s0.skip(len - k), c) ==> #[trigger] same_entry(r0, *registry, c),
        decreases count - k,
    {
        let ghost before = *registry;
        let ghost popped = s0.skip(len - k);
        let entry = spawn.pop().unwrap();
        assert(entry == s0[len - k - 1]);
        let chunk = generate(entry.coord);
        registry.insert(chunk, entry.should_be_meshed);
        proof {
            let popped2 = s0.skip(len - k - 1);
            assert(popped2 =~= seq![entry] + popped);
            assert forall|c: IVec2| has_coord(popped2, c) <==> (has_coord(popped, c) || c == entry.coord) by {
                if has_coord(popped2, c) {
                    let j = choose|j: int| 0 <= j < popped2.len() && (#[trigger] popped2[j]).coord == c;
                    if j > 0 {
                        assert(popped[j - 1].coord == c);
                    }
                }
                if has_coord(popped, c) {
                    let j = choose|j: int| 0 <= j < popped.len() && (#[trigger] popped[j]).coord == c;
                    assert(popped2[j + 1].coord == c);
                }
                if c == entry.coord {
                    assert(popped2[0].coord == c);
                }
            }
            assert(spawn@ =~= s0.take(len - k - 1));
            assert forall|m: int| len - k - 1 <= m < len implies {
                let e = #[trigger] s0[m];
                &&& registry.meshed_at(e.coord) == e.should_be_meshed
                &&& generate.ensures((e.coord,), registry.chunk_at(e.coord))
            } by {
                if m > len - k - 1 {
                    assert(s0[m].coord != entry.coord);
                    assert(popped[m - (len - k)] == s0[m]);
                    assert(has_coord(popped, s0[m].coord));
                    assert(before.contains(s0[m].coord));
                }
            }
            assert forall|c: IVec2|
                r0.contains(c) && !has_coord(popped2, c) implies #[trigger] same_entry(r0, *registry, c) by {
                assert(c != entry.coord);
                assert(same_entry(r0, before, c));
            }
        }
        k = k + 1;
    }
    assert(step_count(count as int, budget, s0.len() as int));
    count
}

/// Unloads at most `budget` coordinates (all of them when there is no
/// budget) from the end of the despawn queue. Returns how many it took.
pub fn execute_despawns(despawn: &mut Vec<IVec2>, registry: &mut ChunkMap, budget: Option<usize>) -> (n: usize)
    requires
        old(registry).wf(),
    ensures
        final(registry).wf(),
        step_count(n as int, budget, old(despawn)@.len() as int),
        final(despawn)@ == old(despawn)@.take(old(despawn)@.len() - n),
        forall|c: IVec2|
            #[trigger] final(registry).contains(c) <==> (old(registry).contains(c) && !old(despawn)@.skip(
                old(despawn)@.len() - n,
            ).contains(c)),
        forall|c: IVec2|
            final(registry).contains(c) ==> #[trigger] same_entry(*old(registry), *final(registry), c),
{
    let len = despawn.len();
    let count: usize = match budget {
        Some(b) => if b < len { b } else { len },
        None => len,
    };
    let ghost d0 = despawn@;
    let ghost r0 = *registry;
    let mut k: usize = 0;
    while k < count
        invariant
            count <= len,
            len == d0.len(),
            k <= count,
            r0.wf(),
            registry.wf(),
            despawn@ == d0.take(len - k),
            forall|c: IVec2|
                #[trigger] registry.contains(c) <==> (r0.contains(c) && !d0.skip(len - k).contains(c)),
            forall|c: IVec2| registry.contains(c) ==> #[trigger] same_entry(r0, *registry, c),
        decreases count - k,
    {
        let ghost before = *registry;
        let ghost tail = d0.skip(len - k);
        let c = despawn.pop().unwrap();
        assert(c == d0[len - k - 1]);
        registry.remove(c);
        proof {
            assert forall|x: IVec2| registry.contains(x) implies #[trigger] same_entry(r0, *registry, x) by {
                assert(before.contains(x));
                assert(same_entry(r0, before, x));
            }
            let tail2 = d0.skip(len - k - 1);
            assert(tail2 =~= seq![c] + tail);
            assert forall|x: IVec2| tail2.contains(x) <==> (tail.contains(x) || x == c) by {
                if tail2.contains(x) {
                    let j = choose|j: int| 0 <= j < tail2.len() && tail2[j] == x;
                    if j > 0 {
                        assert(tail[j - 1] == x);
                    }
                }
                if tail.contains(x) {
                    let j = choose|j: int| 0 <= j < tail.len() && tail[j] == x;
                    assert(tail2[j + 1] == x);
                }
                if x == c {
                    assert(tail2[0] == x);
                }
            }
            assert(despawn@ =~= d0.take(len - k - 1));
        }
        k = k + 1;
    }
    assert(step_count(count as int, budget, d0.len() as int));
    count
}

/// Marks every coordinate of the promote queue as meshed and empties it.
pub fn execute_promotions(promote: &mut Vec<IVec2>, registry: &mut ChunkMap)
    requires
        old(registry).wf(),
    ensures
        final(registry).wf(),
        final(promote)@.len() == 0,
        forall|c: IVec2| (#[trigger] final(registry).contains(c)) == old(registry).contains(c),
        forall|c: IVec2|
            old(registry).contains(c) ==> (#[trigger] final(registry).chunk_at(c)) == old(registry).chunk_at(c),
        forall|c: IVec2|
            old(registry).contains(c) ==> (#[trigger] final(registry).meshed_at(c)) == (old(registry).meshed_at(c)
                || old(promote)@.contains(c)),
{
    let ghost p0 = promote@;
    let ghost r0 = *registry;
    while promote.len() > 0
        invariant
            r0.wf(),
            registry.wf(),
            p0 == promote@ + p0.skip(promote@.len() as int),
            promote@.len() <= p0.len(),
            forall|c: IVec2| (#[trigger] registry.contains(c)) == r0.contains(c),
            forall|c: IVec2|
                r0.contains(c) ==> (#[trigger] registry.chunk_at(c)) == r0.chunk_at(c),
            forall|c: IVec2|
                r0.contains(c) ==> (#[trigger] registry.meshed_at(c)) == (r0.meshed_at(c) || p0.skip(
                    promote@.len() as int,
                ).contains(c)),
        decreases promote@.len(),
    {
        let ghost k = promote@.len() as int;
        let ghost tail = p0.skip(k);
        let c = promote.pop().unwrap();
        registry.set_meshed(c);
        proof {
            assert(p0[k - 1] == c) by {
                assert((promote@.push(c) + tail)[k - 1] == c);
            }
            let tail2 = p0.skip(k - 1);
            assert(tail2 =~= seq![c] + tail);
            assert forall|x: IVec2| tail2.contains(x) <==> (tail.contains(x) || x == c) by {
                if tail2.contains(x) {
                    let j = choose|j: int| 0 <= j < tail2.len() && tail2[j] == x;
                    if j > 0 {
                        assert(tail[j - 1] == x);
                    }
                }
                if tail.contains(x) {
                    let j = choose|j: int| 0 <= j < tail.len() && tail[j] == x;
                    assert(tail2[j + 1] == x);
                }
                if x == c {
                    assert(tail2[0] == x);
                }
            }
            assert(p0 =~= promote@ + tail2);
        }
    }
    proof {
        assert(p0.skip(0) =~= p0);
    }
}

/// Every desired entry around a viewer chunk has a chunk coordinate whose
/// world positions fit.
proof fn lemma_desired_valid(center: IVec2, r: int)
    requires
        0 <= r <= MAX_RENDER_DISTANCE,
        viewer_chunk_ok(center),
    ensures
        forall|j: int|
            0 <= j < desired_seq(center, r).len() ==> valid_chunk_coord(
                (#[trigger] desired_seq(center, r)[j]).coord,
            ),
{
    assert forall|j: int| 0 <= j < desired_seq(center, r).len() implies valid_chunk_coord(
        (#[trigger] desired_seq(center, r)[j]).coord,
    ) by {
        lemma_desired_entry(center, r, j);
    }
}

/// Entries of a duplicate-free queue drawn from a set with unique
/// coordinates have unique coordinates too.
proof fn lemma_sub_unique(s: Seq<DesiredChunkEntry>, d: Seq<DesiredChunkEntry>)
    requires
        s.no_duplicates(),
        unique_coords(d),
        forall|m: int| 0 <= m < s.len() ==> d.contains(#[trigger] s[m]),
    ensures
        unique_coords(s),
{
    assert forall|i: int, j: int| 0 <= i < s.len() && 0 <= j < s.len() && i != j implies (#[trigger] s[i]).coord
        != (#[trigger] s[j]).coord by {
        assert(d.contains(s[i]));
        assert(d.contains(s[j]));
        let a = choose|a: int| 0 <= a < d.len() && d[a] == s[i];
        let b = choose|b: int| 0 <= b < d.len() && d[b] == s[j];
        assert(s[i] != s[j]);
    }
}

/// The controller's state and work queues between ticks.
pub struct StreamingController {
    pub render_distance: usize,
    /// Most chunks spawned in one tick; `None` spawns all that are queued.
    pub spawn_budget: Option<usize>,
    /// Most chunks unloaded in one tick; `None` unloads all that are queued.
    pub despawn_budget: Option<usize>,
    pub tracker: PlayerChunkPositionTracker,
    pub desired: Vec<DesiredChunkEntry>,
    pub spawn: Vec<DesiredChunkEntry>,
    pub despawn: Vec<IVec2>,
    pub promote: Vec<IVec2>,
}

impl StreamingController {
    /// Settings in range, the viewer's chunk in range, and the desired set
    /// either not computed yet or the square around the viewer's chunk.
    pub open spec fn wf(&self) -> bool {
        &&& self.render_distance <= MAX_RENDER_DISTANCE
        &&& viewer_chunk_ok(self.tracker.current)
        &&& (self.desired@.len() == 0 || self.desired@ == desired_seq(
            self.tracker.current,
            self.render_distance as int,
        ))
    }

    /// The queues are the diff of the desired set against `reg`, about to be
    /// carried out.
    pub open spec fn queued(&self, reg: ChunkMap) -> bool {
        &&& self.wf()
        &&& self.desired@ == desired_seq(self.tracker.current, self.render_distance as int)
        &&& forall|e: DesiredChunkEntry| #[trigger] self.spawn@.contains(e) <==> to_spawn(self.desired@, reg, e)
        &&& forall|c: IVec2| #[trigger] self.promote@.contains(c) <==> to_promote(self.desired@, reg, c)
        &&& forall|c: IVec2| #[trigger] self.despawn@.contains(c) <==> to_despawn(self.desired@, reg, c)
        &&& self.spawn@.no_duplicates()
        &&& self.despawn@.no_duplicates()
    }

    /// The state after every tick: the desired set is computed, promotions are
    /// done, the spawn queue holds exactly the desired entries that are not
    /// loaded, the despawn queue exactly the loaded coordinates that are not
    /// desired, and every loaded chunk that should be meshed is.
    pub open spec fn settled(&self, reg: ChunkMap) -> bool {
        &&& self.wf()
        &&& reg.wf()
        &&& self.desired@ == desired_seq(self.tracker.current, self.render_distance as int)
        &&& self.promote@.len() == 0
        &&& forall|e: DesiredChunkEntry| #[trigger] self.spawn@.contains(e) <==> to_spawn(self.desired@, reg, e)
        &&& forall|c: IVec2| #[trigger] self.despawn@.contains(c) <==> to_despawn(self.desired@, reg, c)
        &&& self.spawn@.no_duplicates()
        &&& self.despawn@.no_duplicates()
        &&& forall|j: int|
            0 <= j < self.desired@.len() && (#[trigger] self.desired@[j]).should_be_meshed && reg.contains(
                self.desired@[j].coord,
            ) ==> reg.meshed_at(self.desired@[j].coord)
    }

    /// A controller that has not seen the viewer yet.
    pub fn new(render_distance: usize, spawn_budget: Option<usize>, despawn_budget: Option<usize>) -> (r:
        StreamingController)
        requires
            render_distance <= MAX_RENDER_DISTANCE,
        ensures
            r.wf(),
            r.render_distance == render_distance,
            r.spawn_budget == spawn_budget,
            r.despawn_budget == despawn_budget,
            r.desired@.len() == 0,
    {
        StreamingController {
            render_distance,
            spawn_budget,
            despawn_budget,
            tracker: PlayerChunkPositionTracker {
                current: IVec2::new(0, 0),
                previous: IVec2::new(0, 0),
            },
            desired: Vec::new(),
            spawn: Vec::new(),
            despawn: Vec::new(),
            promote: Vec::new(),
        }
    }

    proof fn lemma_settled_is_queued(&self, reg: ChunkMap)
        requires
            self.settled(reg),
        ensures
            self.queued(reg),
    {
        assert forall|c: IVec2| #[trigger] self.promote@.contains(c) <==> to_promote(self.desired@, reg, c) by {
            let t = DesiredChunkEntry { coord: c, should_be_meshed: true };
            if to_promote(self.desired@, reg, c) {
                let j = choose|j: int| 0 <= j < self.desired@.len() && self.desired@[j] == t;
                assert(reg.meshed_at(self.desired@[j].coord));
            }
        }
    }

    /// One frame of streaming, in the mandatory order: sample the viewer's
    /// chunk; if it changed, or on the first tick, recompute the desired set
    /// and rebuild the queues; then spawn (within the spawn budget, generating
    /// each chunk with `generate`), promote, and despawn (within the despawn
    /// budget). Returns how many chunks were spawned.
    pub fn tick<F: Fn(IVec2) -> Chunk>(
        &mut self,
        registry: &mut ChunkMap,
        world_x: i32,
        world_z: i32,
        generate: &F,
    ) -> (n: usize)
        requires
            old(self).wf(),
            old(registry).wf(),
            old(self).desired@.len() == 0 || old(self).settled(*old(registry)),
            -MAX_VIEWER_COORD <= world_x <= MAX_VIEWER_COORD,
            -MAX_VIEWER_COORD <= world_z <= MAX_VIEWER_COORD,
            forall|c: IVec2| valid_chunk_coord(c) ==> generate.requires((c,)),
            forall|c: IVec2, ch: Chunk| generate.ensures((c,), ch) ==> ch.wf() && ch.coord == c,
        ensures
            final(self).settled(*final(registry)),
            final(self).render_distance == old(self).render_distance,
            final(self).spawn_budget == old(self).spawn_budget,
            final(self).tracker.current == chunk_of(world_x as int, world_z as int),
            final(self).despawn_budget == old(self).despawn_budget,
            old(self).desired@.len() > 0 && chunk_of(world_x as int, world_z as int) == old(self).tracker.current
                ==> {
                let s0 = old(self).spawn@;
                let x0 = old(self).despawn@;
                let gone = x0.skip(final(self).despawn@.len() as int);
                &&& final(self).desired@ == old(self).desired@
                &&& step_count(n as int, old(self).spawn_budget, s0.len() as int)
                &&& final(self).spawn@ == s0.take(s0.len() - n)
                &&& step_count(
                    x0.len() - final(self).despawn@.len(),
                    old(self).despawn_budget,
                    x0.len() as int,
                )
                &&& final(self).despawn@ == x0.take(final(self).despawn@.len() as int)
                &&& forall|c: IVec2|
                    #[trigger] final(registry).contains(c) <==> ((old(registry).contains(c) || has_coord(
                        s0.skip(s0.len() - n),
                        c,
                    )) && !gone.contains(c))
                &&& forall|c: IVec2|
                    old(registry).contains(c) && !has_coord(s0.skip(s0.len() - n), c) && final(registry).contains(c)
                        ==> #[trigger] same_entry(*old(registry), *final(registry), c)
            },
    {
        let moved = detect_player_chunk(&mut self.tracker, world_x, world_z);
        if moved || self.desired.len() == 0 {
            update_desired_chunk_set(&self.tracker, self.render_distance, &mut self.desired);
            proof {
                lemma_desired_unique(self.tracker.current, self.render_distance as int);
            }
            reconcile_chunks(&self.desired, registry, &mut self.spawn, &mut self.despawn, &mut self.promote);
        } else {
            proof {
                old(self).lemma_settled_is_queued(*old(registry));
            }
        }
        let ghost r0 = *registry;
        let ghost s0 = self.spawn@;
        let ghost p0 = self.promote@;
        let ghost x0 = self.despawn@;
        proof {
            let d = self.desired@;
            lemma_desired_unique(self.tracker.current, self.render_distance as int);
            lemma_desired_valid(self.tracker.current, self.render_distance as int);
            assert forall|m: int| 0 <= m < s0.len() implies d.contains(#[trigger] s0[m]) by {
                assert(s0.contains(s0[m]));
            }
            lemma_sub_unique(s0, d);
            assert forall|m: int| 0 <= m < s0.len() implies valid_chunk_coord((#[trigger] s0[m]).coord) by {
                assert(d.contains(s0[m]));
                let j = choose|j: int| 0 <= j < d.len() && d[j] == s0[m];
            }
        }
        let n = execute_spawns(&mut self.spawn, registry, self.spawn_budget, generate);
        let ghost r1 = *registry;
        execute_promotions(&mut self.promote, registry);
        let ghost r2 = *registry;
        let nd = execute_despawns(&mut self.despawn, registry, self.despawn_budget);
        proof {
            self.lemma_after_execution(r0, r1, r2, *registry, s0, p0, x0, n as int, nd as int);
            if old(self).desired@.len() > 0 && !moved {
                assert(p0.len() == 0);
                assert(r0 == *old(registry));
                assert(x0 == old(self).despawn@);
                assert(self.despawn@.len() == x0.len() - nd);
                assert forall|c: IVec2|
                    old(registry).contains(c) && !has_coord(s0.skip(s0.len() - n), c) && registry.contains(c)
                        implies #[trigger] same_entry(*old(registry), *registry, c) by {
                    assert(same_entry(r0, r1, c));
                    assert(!p0.contains(c));
                    assert(r1.contains(c));
                    assert(same_entry(r2, *registry, c));
                }
            }
        }
        n
    }

    proof fn lemma_after_execution(
        &self,
        r0: ChunkMap,
        r1: ChunkMap,
        r2: ChunkMap,
        r3: ChunkMap,
        s0: Seq<DesiredChunkEntry>,
        p0: Seq<IVec2>,
        x0: Seq<IVec2>,
        n: int,
        nd: int,
    )
        requires
            self.wf(),
            r0.wf(),
            r3.wf(),
            self.desired@ == desired_seq(self.tracker.current, self.render_distance as int),
            unique_coords(self.desired@),
            forall|e: DesiredChunkEntry| #[trigger] s0.contains(e) <==> to_spawn(self.desired@, r0, e),
            forall|c: IVec2| #[trigger] p0.contains(c) <==> to_promote(self.desired@, r0, c),
            forall|c: IVec2| #[trigger] x0.contains(c) <==> to_despawn(self.desired@, r0, c),
            s0.no_duplicates(),
            unique_coords(s0),
            0 <= n <= s0.len(),
            self.spawn@ == s0.take(s0.len() - n),
            self.promote@.len() == 0,
            x0.no_duplicates(),
            0 <= nd <= x0.len(),
            self.despawn@ == x0.take(x0.len() - nd),
            forall|c: IVec2|
                #[trigger] r1.contains(c) <==> (r0.contains(c) || has_coord(s0.skip(s0.len() - n), c)),
            forall|m: int|
                s0.len() - n <= m < s0.len() ==> r1.meshed_at((#[trigger] s0[m]).coord) == s0[m].should_be_meshed,
            forall|c: IVec2|
                r0.contains(c) && !has_coord(s0.skip(s0.len() - n), c) ==> #[trigger] same_entry(r0, r1, c),
            forall|c: IVec2| (#[trigger] r2.contains(c)) == r1.contains(c),
            forall|c: IVec2|
                r1.contains(c) ==> (#[trigger] r2.chunk_at(c)) == r1.chunk_at(c),
            forall|c: IVec2|
                r1.contains(c) ==> (#[trigger] r2.meshed_at(c)) == (r1.meshed_at(c) || p0.contains(c)),
            forall|c: IVec2|
                #[trigger] r3.contains(c) <==> (r2.contains(c) && !x0.skip(x0.len() - nd).contains(c)),
            forall|c: IVec2| r3.contains(c) ==> #[trigger] same_entry(r2, r3, c),
        ensures
            self.settled(r3),
    {
        let d = self.desired@;
        let cut = s0.len() - n;
        let popped = s0.skip(cut);
        let xcut = x0.len() - nd;
        let gone = x0.skip(xcut);
        assert forall|c: IVec2| gone.contains(c) implies exists|m: int| xcut <= m < x0.len() && x0[m] == c by {
            let j = choose|j: int| 0 <= j < gone.len() && gone[j] == c;
            assert(x0[xcut + j] == c);
        }
        assert forall|c: IVec2| gone.contains(c) implies x0.contains(c) by {
            let m = choose|m: int| xcut <= m < x0.len() && x0[m] == c;
        }
        // a popped coordinate belongs to exactly one queue entry, at or past the cut
        assert forall|c: IVec2| has_coord(popped, c) implies exists|m: int|
            cut <= m < s0.len() && (#[trigger] s0[m]).coord == c by {
            let j = choose|j: int| 0 <= j < popped.len() && (#[trigger] popped[j]).coord == c;
            assert(s0[cut + j].coord == c);
        }
        assert forall|e: DesiredChunkEntry| #[trigger] self.spawn@.contains(e) <==> to_spawn(d, r3, e) by {
            if self.spawn@.contains(e) {
                let m = choose|m: int| 0 <= m < self.spawn@.len() && self.spawn@[m] == e;
                assert(s0[m] == e);
                assert(s0.contains(e));
                assert(!has_coord(popped, e.coord)) by {
                    if has_coord(popped, e.coord) {
                        let m2 = choose|m2: int| cut <= m2 < s0.len() && (#[trigger] s0[m2]).coord == e.coord;
                        assert(s0[m2].coord == s0[m].coord);
                    }
                }
            }
            if to_spawn(d, r3, e) {
                assert(has_coord(d, e.coord)) by {
                    let j = choose|j: int| 0 <= j < d.len() && d[j] == e;
                    assert(d[j].coord == e.coord);
                }
                assert(!x0.contains(e.coord));
                assert(!gone.contains(e.coord));
                assert(!r1.contains(e.coord));
                assert(s0.contains(e));
                let m = choose|m: int| 0 <= m < s0.len() && s0[m] == e;
                if m >= cut {
                    assert(popped[m - cut].coord == e.coord);
                    assert(has_coord(popped, e.coord));
                }
                assert(self.spawn@[m] == e);
            }
        }
        assert forall|c: IVec2| #[trigger] self.despawn@.contains(c) <==> to_despawn(d, r3, c) by {
            if self.despawn@.contains(c) {
                let m = choose|m: int| 0 <= m < self.despawn@.len() && self.despawn@[m] == c;
                assert(x0[m] == c);
                assert(x0.contains(c));
                assert(r1.contains(c));
                assert(!gone.contains(c)) by {
                    if gone.contains(c) {
                        let m2 = choose|m2: int| xcut <= m2 < x0.len() && x0[m2] == c;
                        assert(x0[m2] == x0[m]);
                    }
                }
            }
            if to_despawn(d, r3, c) {
                assert(r1.contains(c));
                if !r0.contains(c) {
                    let m = choose|m: int| cut <= m < s0.len() && (#[trigger] s0[m]).coord == c;
                    assert(s0.contains(s0[m]));
                    let j = choose|j: int| 0 <= j < d.len() && d[j] == s0[m];
                    assert(d[j].coord == c);
                }
                assert(x0.contains(c));
                let m = choose|m: int| 0 <= m < x0.len() && x0[m] == c;
                if m >= xcut {
                    assert(gone[m - xcut] == c);
                }
                assert(self.despawn@[m] == c);
            }
        }
        assert forall|i: int, j: int| 0 <= i < self.despawn@.len() && 0 <= j < self.despawn@.len() && i != j implies self.despawn@[i] != self.despawn@[j] by {
            assert(x0[i] != x0[j]);
        }
        assert forall|j: int|
            0 <= j < d.len() && (#[trigger] d[j]).should_be_meshed && r3.contains(d[j].coord) implies r3.meshed_at(
                d[j].coord,
            ) by {
            let c = d[j].coord;
            assert(r2.contains(c));
            assert(r1.contains(c));
            assert(same_entry(r2, r3, c));
            if has_coord(popped, c) {
                let m = choose|m: int| cut <= m < s0.len() && (#[trigger] s0[m]).coord == c;
                assert(s0.contains(s0[m]));
                let j2 = choose|j2: int| 0 <= j2 < d.len() && d[j2] == s0[m];
                assert(d[j2].coord == d[j].coord);
                assert(j2 == j);
                assert(r1.meshed_at(s0[m].coord) == s0[m].should_be_meshed);
                assert(r1.meshed_at(c));
            } else {
                assert(r0.contains(c));
                assert(same_entry(r0, r1, c));
                if !r0.meshed_at(c) {
                    assert(d.contains(DesiredChunkEntry { coord: c, should_be_meshed: true })) by {
                        assert(d[j] == DesiredChunkEntry { coord: c, should_be_meshed: true });
                    }
                    assert(p0.contains(c));
                }
            }
        }
        assert forall|i: int, j: int| 0 <= i < self.spawn@.len() && 0 <= j < self.spawn@.len() && i != j implies self.spawn@[i] != self.spawn@[j] by {
            assert(s0[i] != s0[j]);
        }
    }
}

/// A spawn step registers at most as many new chunks as its budget allows
/// (or as were queued, without a budget).
pub proof fn lemma_spawn_budget(
    before: ChunkMap,
    after: ChunkMap,
    queue: Seq<DesiredChunkEntry>,
    n: int,
    budget: Option<usize>,
)
    requires
        before.wf(),
        after.wf(),
        step_count(n, budget, queue.len() as int),
        forall|c: IVec2|
            #[trigger] after.contains(c) <==> (before.contains(c) || has_coord(queue.skip(queue.len() - n), c)),
    ensures
        after.coord_set().difference(before.coord_set()).len() <= n,
        n <= queue.len(),
        budget matches Some(b) ==> n <= b,
{
    let popped = queue.skip(queue.len() - n);
    let coords = popped.map_values(|e: DesiredChunkEntry| e.coord);
    let fresh = after.coord_set().difference(before.coord_set());
    assert forall|c: IVec2| fresh.contains(c) implies coords.to_set().contains(c) by {
        assert(after.contains(c));
        let j = choose|j: int| 0 <= j < popped.len() && (#[trigger] popped[j]).coord == c;
        assert(coords[j] == c);
    }
    coords.lemma_cardinality_of_set();
    vstd::set_lib::lemma_len_subset(fresh, coords.to_set());
}

/// Once the spawn and despawn queues of a settled controller are empty, the
/// registry holds exactly the desired square around the viewer's chunk, the
/// inner square of radius `render_distance` meshed. A tick on a stationary
/// viewer then changes nothing (see `tick`), and each earlier stationary tick
/// shortens both queues by their budgets.
pub proof fn lemma_streaming_converged(ctrl: StreamingController, reg: ChunkMap)
    requires
        ctrl.settled(reg),
        ctrl.spawn@.len() == 0,
        ctrl.despawn@.len() == 0,
    ensures
        forall|c: IVec2|
            #[trigger] reg.contains(c) <==> has_coord(
                desired_seq(ctrl.tracker.current, ctrl.render_distance as int),
                c,
            ),
        forall|c: IVec2|
            chunk_distance(c, ctrl.tracker.current) <= ctrl.render_distance ==> #[trigger] reg.contains(c)
                && reg.meshed_at(c),
        forall|c: IVec2|
            #[trigger] reg.contains(c) ==> chunk_distance(c, ctrl.tracker.current) <= ctrl.render_distance + 1,
{
    let d = ctrl.desired@;
    let center = ctrl.tracker.current;
    let r = ctrl.render_distance as int;
    let side = desired_side(r);
    assert forall|c: IVec2| has_coord(d, c) implies #[trigger] reg.contains(c) by {
        let j = choose|j: int| 0 <= j < d.len() && (#[trigger] d[j]).coord == c;
        assert(d.contains(d[j]));
        if !reg.contains(c) {
            assert(to_spawn(d, reg, d[j]));
            assert(ctrl.spawn@.contains(d[j]));
        }
    }
    assert forall|c: IVec2| chunk_distance(c, center) <= r implies #[trigger] reg.contains(c) && reg.meshed_at(c) by {
        let dx = c.x - center.x;
        let dz = c.y - center.y;
        let k = (dx + r + 1) * side + (dz + r + 1);
        assert(0 <= k < side * side && k / side == dx + r + 1 && k % side == dz + r + 1) by (nonlinear_arith)
            requires
                -r <= dx <= r,
                -r <= dz <= r,
                side == 2 * r + 3,
                k == (dx + r + 1) * side + (dz + r + 1),
        ;
        assert(d[k].coord == c);
        assert(d[k].should_be_meshed);
        assert(has_coord(d, c));
    }
    assert forall|c: IVec2| #[trigger] reg.contains(c) implies has_coord(d, c) by {
        if !has_coord(d, c) {
            assert(to_despawn(d, reg, c));
            assert(ctrl.despawn@.contains(c));
        }
    }
    assert forall|c: IVec2| #[trigger] reg.contains(c) implies chunk_distance(c, center) <= r + 1 by {
        assert(has_coord(d, c));
        let j = choose|j: int| 0 <= j < d.len() && (#[trigger] d[j]).coord == c;
        lemma_desired_entry(center, r, j);
    }
}

/// Whether `v` holds `c`.
fn holds_coord(v: &Vec<IVec2>, c: IVec2) -> (r: bool)
    ensures
        r == v@.contains(c),
{
    let mut j: usize = 0;
    while j < v.len()
        invariant
            j <= v@.len(),
            forall|i: int| 0 <= i < j ==> v@[i] != c,
        decreases v@.len() - j,
    {
        if v[j] == c {
            return true;
        }
        j = j + 1;
    }
    false
}

/// Mesh upkeep for one frame, given the coordinates whose chunks already have
/// a mesh: the first list holds every loaded chunk tagged meshed that has no
/// mesh yet (each once), the second every held mesh whose chunk is unloaded
/// or not tagged meshed.
pub fn mesh_work(map: &ChunkMap, have: &Vec<IVec2>) -> (r: (Vec<IVec2>, Vec<IVec2>))
    requires
        map.wf(),
    ensures
        forall|c: IVec2|
            #[trigger] r.0@.contains(c) <==> (map.contains(c) && map.meshed_at(c) && !have@.contains(c)),
        r.0@.no_duplicates(),
        forall|c: IVec2|
            #[trigger] r.1@.contains(c) <==> (have@.contains(c) && !(map.contains(c) && map.meshed_at(c))),
{
    let cs = map.coords();
    let mut build: Vec<IVec2> = Vec::new();
    let mut k: usize = 0;
    while k < cs.len()
        invariant
            map.wf(),
            k <= cs@.len(),
            cs@.no_duplicates(),
            cs@.to_set() == map.coord_set(),
            forall|c: IVec2|
                #[trigger] build@.contains(c) <==> (cs@.take(k as int).contains(c) && map.meshed_at(c)
                    && !have@.contains(c)),
            forall|m: int| 0 <= m < build@.len() ==> cs@.take(k as int).contains(#[trigger] build@[m]),
            build@.no_duplicates(),
        decreases cs@.len() - k,
    {
        let c = cs[k];
        let ghost before = cs@.take(k as int);
        let ghost b0 = build@;
        assert(cs@.take(k as int + 1) =~= before.push(c));
        proof {
            assert(cs@.contains(c) == map.coord_set().contains(c)) by {
                assert(cs@[k as int] == c);
            }
        }
        if map.is_meshed(c) == Some(true) && !holds_coord(have, c) {
            assert(!b0.contains(c)) by {
                if b0.contains(c) {
                    let m = choose|m: int| 0 <= m < b0.len() && b0[m] == c;
                    assert(before.contains(c));
                    let j = choose|j: int| 0 <= j < before.len() && before[j] == c;
                    assert(cs@[j] == cs@[k as int]);
                }
            }
            build.push(c);
        }
        proof {
            lemma_push_contains(before, c);
            lemma_push_contains(b0, c);
            assert forall|x: IVec2| before.contains(x) implies cs@.take(k as int + 1).contains(x) by {}
        }
        k = k + 1;
    }
    let mut drop: Vec<IVec2> = Vec::new();
    let mut j: usize = 0;
    while j < have.len()
        invariant
            map.wf(),
            j <= have@.len(),
            forall|c: IVec2|
                #[trigger] drop@.contains(c) <==> (have@.take(j as int).contains(c) && !(map.contains(c)
                    && map.meshed_at(c))),
        decreases have@.len() - j,
    {
        let c = have[j];
        let ghost before = have@.take(j as int);
        let ghost d0 = drop@;
        assert(have@.take(j as int + 1) =~= before.push(c));
        if map.is_meshed(c) != Some(true) {
            drop.push(c);
        }
        proof {
            lemma_push_contains(before, c);
            lemma_push_contains(d0, c);
        }
        j = j + 1;
    }
    proof {
        assert(cs@.take(cs@.len() as int) =~= cs@);
        assert(have@.take(have@.len() as int) =~= have@);
        assert forall|c: IVec2| cs@.contains(c) <==> map.contains(c) by {
            assert(cs@.to_set().contains(c) == cs@.contains(c));
            assert(map.coord_set().contains(c) == map.contains(c));
        }
    }
    (build, drop)
}

/// A registry that already matches the desired set is a fixed point of
/// reconciliation: nothing is queued to spawn, promote or despawn.
pub proof fn lemma_reconcile_fixed_point(d: Seq<DesiredChunkEntry>, reg: ChunkMap)
    requires
        forall|c: IVec2| #[trigger] reg.contains(c) <==> has_coord(d, c),
        forall|j: int|
            0 <= j < d.len() && (#[trigger] d[j]).should_be_meshed ==> reg.meshed_at(d[j].coord),
    ensures
        forall|e: DesiredChunkEntry| !#[trigger] to_spawn(d, reg, e),
        forall|c: IVec2| !#[trigger] to_promote(d, reg, c),
        forall|c: IVec2| !#[trigger] to_despawn(d, reg, c),
{
    assert forall|e: DesiredChunkEntry| !#[trigger] to_spawn(d, reg, e) by {
        if d.contains(e) {
            let j = choose|j: int| 0 <= j < d.len() && d[j] == e;
            assert(d[j].coord == e.coord);
            assert(has_coord(d, e.coord));
        }
    }
    assert forall|c: IVec2| !#[trigger] to_promote(d, reg, c) by {
        let t = DesiredChunkEntry { coord: c, should_be_meshed: true };
        if d.contains(t) {
            let j = choose|j: int| 0 <= j < d.len() && d[j] == t;
            assert(d[j].should_be_meshed);
        }
    }
}

} // verus!
