//! The streaming controller: decides which chunks should be resident around
//! a set of observers, removes unwanted chunks from the store, and keeps a
//! priority-ordered queue of chunks to generate, with a bounded number of
//! generation tasks in flight.
//!
//! The controller holds only the bookkeeping; running the generation tasks
//! themselves (spawning, polling, cancelling) is the caller's business. Each
//! tick the caller invokes [`manage_chunk_loading_state`] when an observer
//! moved, [`load_new_chunks_from_queue`] to learn which positions to start
//! generating, and [`spawn_loaded_chunk`] for every finished task. A task
//! whose target was unloaded before completion is dropped without insertion:
//! `spawn_loaded_chunk` re-validates that the position is still expected.

use vstd::prelude::*;
use crate::chunk::Chunk;
use crate::coords::ChunkPos;
use crate::world::{World, WORLD_HEIGHT_CHUNKS};

verus! {

/// Most chunk-generation tasks that may be in flight at once; one dispatch
/// step never pushes the backlog beyond this bound (backpressure).
pub const MAX_LOADING_TASKS: usize = 64;

/// Load radius a [`WorldAnchor`] gets by default.
pub const DEFAULT_LOAD_RADIUS: u32 = 2;

/// An observer around which the world is kept loaded.
#[derive(Clone, Copy, PartialEq, Eq, Structural, Debug)]
pub struct WorldAnchor {
    /// Radius, in chunks, within which the world is kept loaded. A radius of
    /// zero loads nothing.
    pub load_radius: u32,
}

impl Default for WorldAnchor {
    fn default() -> (r: Self)
        ensures
            r.load_radius == DEFAULT_LOAD_RADIUS,
    {
        WorldAnchor { load_radius: DEFAULT_LOAD_RADIUS }
    }
}

/// The position of a [`WorldAnchor`] in the chunk grid.
#[derive(Clone, Copy, PartialEq, Eq, Structural, Debug)]
pub struct WorldAnchorInChunkPos {
    pub pos: ChunkPos,
}

/// A change in the set of resident chunks, reported to render consumers.
#[derive(Clone, Copy, PartialEq, Eq, Structural, Debug)]
pub enum ChunkUpdateEvent {
    Loaded(ChunkPos),
    Unloaded(ChunkPos),
}

/// A queued request to generate one chunk; smaller priority loads sooner.
#[derive(Clone, Copy, PartialEq, Eq, Structural, Debug)]
pub struct ChunkLoadInfo {
    pub pos: ChunkPos,
    /// Squared chunk-grid distance to the nearest observer wanting this
    /// chunk: closer chunks are generated first.
    pub priority: i128,
}

/// The anchor's own column in the chunk grid: its position with `z` zeroed.
/// Wanted sets and priorities are computed from the column, so an observer's
/// height never changes which chunks are loaded.
pub open spec fn anchor_column(a: WorldAnchorInChunkPos) -> ChunkPos {
    ChunkPos { x: a.pos.x, y: a.pos.y, z: 0 }
}

/// Whether the single observer `(a, cfg)` wants the chunk at `p` resident:
/// within `load_radius` of the observer's column in x and y (a square
/// neighborhood), and inside the world's height range in z. A radius of
/// zero wants nothing.
pub open spec fn anchor_wants(a: WorldAnchorInChunkPos, cfg: WorldAnchor, p: ChunkPos) -> bool {
    let c = anchor_column(a);
    &&& cfg.load_radius > 0
    &&& c.x - cfg.load_radius < p.x < c.x + cfg.load_radius
    &&& c.y - cfg.load_radius < p.y < c.y + cfg.load_radius
    &&& 0 <= p.z < WORLD_HEIGHT_CHUNKS as int
}

/// Whether any observer wants the chunk at `p` resident: the wanted sets of
/// all observers union.
pub open spec fn wanted(anchors: Seq<(WorldAnchorInChunkPos, WorldAnchor)>, p: ChunkPos) -> bool {
    exists|i: int|
        0 <= i < anchors.len() && anchor_wants((#[trigger] anchors[i]).0, anchors[i].1, p)
}

/// Squared chunk-grid distance between `a` and `p`.
pub open spec fn dist_sq(a: ChunkPos, p: ChunkPos) -> int {
    (a.x - p.x) * (a.x - p.x) + (a.y - p.y) * (a.y - p.y) + (a.z - p.z) * (a.z - p.z)
}

/// Priority of the chunk at `p`: its squared distance to the column of the
/// nearest observer that wants it. Meaningful only when some observer wants
/// `p`.
pub open spec fn priority_of(anchors: Seq<(WorldAnchorInChunkPos, WorldAnchor)>, p: ChunkPos) -> int
    decreases anchors.len(),
{
    if anchors.len() == 0 {
        0
    } else {
        let rest = anchors.drop_last();
        let a = anchors.last();
        if anchor_wants(a.0, a.1, p) {
            let d = dist_sq(anchor_column(a.0), p);
            if wanted(rest, p) && priority_of(rest, p) <= d {
                priority_of(rest, p)
            } else {
                d
            }
        } else {
            priority_of(rest, p)
        }
    }
}

/// The observer's wanted square stays within the 32-bit chunk grid (the
/// machine limit on anchor position and radius).
pub open spec fn anchor_in_bounds(a: WorldAnchorInChunkPos, cfg: WorldAnchor) -> bool {
    &&& i32::MIN <= a.pos.x - cfg.load_radius + 1
    &&& a.pos.x + cfg.load_radius - 1 <= i32::MAX
    &&& i32::MIN <= a.pos.y - cfg.load_radius + 1
    &&& a.pos.y + cfg.load_radius - 1 <= i32::MAX
}

/// Whether some entry of the load queue is for position `p`.
pub open spec fn queue_has_pos(q: Seq<ChunkLoadInfo>, p: ChunkPos) -> bool {
    exists|i: int| 0 <= i < q.len() && (#[trigger] q[i]).pos == p
}

/// The queue is ordered by ascending priority: closest chunks first.
pub open spec fn queue_sorted(q: Seq<ChunkLoadInfo>) -> bool {
    forall|i: int, j: int|
        0 <= i <= j < q.len() ==> (#[trigger] q[i]).priority <= (#[trigger] q[j]).priority
}

/// No position appears in the queue twice.
pub open spec fn queue_positions_distinct(q: Seq<ChunkLoadInfo>) -> bool {
    forall|i: int, j: int| 0 <= i < j < q.len() ==> (#[trigger] q[i]).pos != (#[trigger] q[j]).pos
}

/// Bookkeeping of the streaming controller: the queue of chunks awaiting
/// generation, and the positions whose generation tasks are in flight.
pub struct StreamingState {
    pub queue: Vec<ChunkLoadInfo>,
    pub in_flight: Vec<ChunkPos>,
}

impl StreamingState {
    /// Well-formedness: the queue is sorted by priority with distinct
    /// positions, disjoint from the in-flight set, and the in-flight set is
    /// duplicate-free and within the task bound.
    pub open spec fn wf(self) -> bool {
        &&& queue_sorted(self.queue@)
        &&& queue_positions_distinct(self.queue@)
        &&& self.in_flight@.no_duplicates()
        &&& self.in_flight@.len() <= MAX_LOADING_TASKS
        &&& forall|i: int|
            0 <= i < self.queue@.len() ==> !self.in_flight@.contains(
                (#[trigger] self.queue@[i]).pos,
            )
    }

    /// Neither queued nor in-flight positions are already resident in
    /// `world`: a chunk is only ever generated once.
    pub open spec fn consistent_with<M>(self, world: World<M>) -> bool {
        &&& forall|i: int|
            0 <= i < self.queue@.len() ==> !world@.dom().contains((#[trigger] self.queue@[i]).pos)
        &&& forall|p: ChunkPos| self.in_flight@.contains(p) ==> !world@.dom().contains(p)
    }

    /// A controller with nothing queued and nothing in flight.
    pub fn new() -> (r: Self)
        ensures
            r.queue@.len() == 0,
            r.in_flight@.len() == 0,
            r.wf(),
    {
        StreamingState { queue: Vec::new(), in_flight: Vec::new() }
    }
}

/// Whether `v` holds the position `p`.
fn vec_contains_pos(v: &Vec<ChunkPos>, p: &ChunkPos) -> (r: bool)
    ensures
        r == v@.contains(*p),
{
    let n = v.len();
    for i in 0..n
        invariant
            n == v@.len(),
            forall|j: int| 0 <= j < i ==> v@[j] != *p,
    {
        if v[i] == *p {
            return true;
        }
    }
    false
}

/// Restricting the anchor list to one more entry extends its wanted set by
/// exactly that observer's square.
proof fn lemma_wanted_take_step(
    anchors: Seq<(WorldAnchorInChunkPos, WorldAnchor)>,
    i: int,
    p: ChunkPos,
)
    requires
        0 <= i < anchors.len(),
    ensures
        wanted(anchors.take(i + 1), p) <==> (wanted(anchors.take(i), p) || anchor_wants(
            anchors[i].0,
            anchors[i].1,
            p,
        )),
{
    let t1 = anchors.take(i + 1);
    let t0 = anchors.take(i);
    if wanted(t1, p) {
        let j = choose|j: int| 0 <= j < t1.len() && anchor_wants((#[trigger] t1[j]).0, t1[j].1, p);
        if j < i {
            assert(t0[j] == anchors[j]);
            assert(anchor_wants(t0[j].0, t0[j].1, p));
        } else {
            assert(t1[j] == anchors[i]);
        }
    }
    if wanted(t0, p) {
        let j = choose|j: int| 0 <= j < t0.len() && anchor_wants((#[trigger] t0[j]).0, t0[j].1, p);
        assert(t1[j] == anchors[j]);
        assert(anchor_wants(t1[j].0, t1[j].1, p));
    }
    if anchor_wants(anchors[i].0, anchors[i].1, p) {
        assert(t1[i] == anchors[i]);
        assert(anchor_wants(t1[i].0, t1[i].1, p));
    }
}

/// The duplicate-free list of all chunk positions wanted by any observer.
fn compute_wanted(anchors: &Vec<(WorldAnchorInChunkPos, WorldAnchor)>) -> (r: Vec<ChunkPos>)
    requires
        forall|i: int|
            0 <= i < anchors@.len() ==> anchor_in_bounds(
                (#[trigger] anchors@[i]).0,
                anchors@[i].1,
            ),
    ensures
        r@.no_duplicates(),
        forall|p: ChunkPos| #[trigger] r@.contains(p) <==> wanted(anchors@, p),
{
    let mut r: Vec<ChunkPos> = Vec::new();
    let n = anchors.len();
    for ai in 0..n
        invariant
            n == anchors@.len(),
            forall|i: int|
                0 <= i < anchors@.len() ==> anchor_in_bounds(
                    (#[trigger] anchors@[i]).0,
                    anchors@[i].1,
                ),
            r@.no_duplicates(),
            forall|p: ChunkPos| #[trigger] r@.contains(p) <==> wanted(anchors@.take(ai as int), p),
    {
        let (apos, cfg) = anchors[ai];
        let ghost prev = r@;
        if cfg.load_radius > 0 {
            let x0: i64 = apos.pos.x as i64 - cfg.load_radius as i64 + 1;
            let x1: i64 = apos.pos.x as i64 + cfg.load_radius as i64 - 1;
            let y0: i64 = apos.pos.y as i64 - cfg.load_radius as i64 + 1;
            let y1: i64 = apos.pos.y as i64 + cfg.load_radius as i64 - 1;
            let mut xx: i64 = x0;
            while xx <= x1
                invariant
                    x0 <= xx <= x1 + 1,
                    x0 == apos.pos.x - cfg.load_radius + 1,
                    x1 == apos.pos.x + cfg.load_radius - 1,
                    y0 == apos.pos.y - cfg.load_radius + 1,
                    y1 == apos.pos.y + cfg.load_radius - 1,
                    i32::MIN <= x0,
                    x1 <= i32::MAX,
                    i32::MIN <= y0,
                    y1 <= i32::MAX,
                    cfg.load_radius > 0,
                    apos == anchors@[ai as int].0,
                    cfg == anchors@[ai as int].1,
                    r@.no_duplicates(),
                    forall|p: ChunkPos| #[trigger]
                        r@.contains(p) <==> (prev.contains(p) || (anchor_wants(
                            anchors@[ai as int].0,
                            anchors@[ai as int].1,
                            p,
                        ) && p.x < xx)),
                decreases x1 + 1 - xx,
            {
                let mut yy: i64 = y0;
                while yy <= y1
                    invariant
                        x0 <= xx <= x1,
                        y0 <= yy <= y1 + 1,
                        x0 == apos.pos.x - cfg.load_radius + 1,
                        x1 == apos.pos.x + cfg.load_radius - 1,
                        y0 == apos.pos.y - cfg.load_radius + 1,
                        y1 == apos.pos.y + cfg.load_radius - 1,
                        i32::MIN <= x0,
                        x1 <= i32::MAX,
                        i32::MIN <= y0,
                        y1 <= i32::MAX,
                        cfg.load_radius > 0,
                        apos == anchors@[ai as int].0,
                        cfg == anchors@[ai as int].1,
                        r@.no_duplicates(),
                        forall|p: ChunkPos| #[trigger]
                            r@.contains(p) <==> (prev.contains(p) || (anchor_wants(
                                anchors@[ai as int].0,
                                anchors@[ai as int].1,
                                p,
                            ) && (p.x < xx || (p.x == xx && p.y < yy)))),
                    decreases y1 + 1 - yy,
                {
                    let mut zz: usize = 0;
                    while zz < WORLD_HEIGHT_CHUNKS
                        invariant
                            x0 <= xx <= x1,
                            y0 <= yy <= y1,
                            zz <= WORLD_HEIGHT_CHUNKS,
                            x0 == apos.pos.x - cfg.load_radius + 1,
                            x1 == apos.pos.x + cfg.load_radius - 1,
                            y0 == apos.pos.y - cfg.load_radius + 1,
                            y1 == apos.pos.y + cfg.load_radius - 1,
                            i32::MIN <= x0,
                            x1 <= i32::MAX,
                            i32::MIN <= y0,
                            y1 <= i32::MAX,
                            cfg.load_radius > 0,
                            apos == anchors@[ai as int].0,
                            cfg == anchors@[ai as int].1,
                            r@.no_duplicates(),
                            forall|p: ChunkPos| #[trigger]
                                r@.contains(p) <==> (prev.contains(p) || (anchor_wants(
                                    anchors@[ai as int].0,
                                    anchors@[ai as int].1,
                                    p,
                                ) && (p.x < xx || (p.x == xx && p.y < yy) || (p.x == xx && p.y == yy
                                    && p.z < zz)))),
                        decreases WORLD_HEIGHT_CHUNKS - zz,
                    {
                        let cand = ChunkPos { x: xx as i32, y: yy as i32, z: zz as i32 };
                        let ghost rpre = r@;
                        let already = vec_contains_pos(&r, &cand);
                        if !already {
                            r.push(cand);
                        }
                        proof {
                            assert(anchor_wants(anchors@[ai as int].0, anchors@[ai as int].1, cand));
                            if !already {
                                assert(r@ == rpre.push(cand));
                                assert forall|a: int, b: int|
                                    0 <= a < b < r@.len() implies r@[a] != r@[b] by {
                                    if b == r@.len() - 1 {
                                        if r@[a] == cand {
                                            assert(rpre[a] == cand);
                                            assert(rpre.contains(cand));
                                        }
                                    }
                                }
                            }
                            assert forall|p: ChunkPos| #[trigger]
                                r@.contains(p) <==> (prev.contains(p) || (anchor_wants(
                                    anchors@[ai as int].0,
                                    anchors@[ai as int].1,
                                    p,
                                ) && (p.x < xx || (p.x == xx && p.y < yy) || (p.x == xx && p.y
                                    == yy && p.z < zz + 1)))) by {
                                if p == cand {
                                    if already {
                                        assert(r@.contains(cand));
                                    } else {
                                        assert(r@[r@.len() - 1] == cand);
                                        assert(r@.contains(cand));
                                    }
                                } else {
                                    if r@.contains(p) {
                                        let j = choose|j: int| 0 <= j < r@.len() && r@[j] == p;
                                        assert(rpre[j] == p);
                                        assert(rpre.contains(p));
                                    }
                                    if rpre.contains(p) {
                                        let j = choose|j: int| 0 <= j < rpre.len() && rpre[j] == p;
                                        assert(r@[j] == p);
                                    }
                                }
                            }
                        }
                        zz = zz + 1;
                    }
                    yy = yy + 1;
                }
                xx = xx + 1;
            }
        }
        proof {
            assert forall|p: ChunkPos| #[trigger] r@.contains(p) <==> wanted(
                anchors@.take(ai as int + 1),
                p,
            ) by {
                lemma_wanted_take_step(anchors@, ai as int, p);
            }
        }
    }
    proof {
        assert(anchors@.take(n as int) =~= anchors@);
    }
    r
}

/// Whether one observer wants the chunk at `p`, decided in executable code.
fn anchor_wants_exec(a: WorldAnchorInChunkPos, cfg: WorldAnchor, p: ChunkPos) -> (r: bool)
    ensures
        r == anchor_wants(a, cfg, p),
{
    cfg.load_radius > 0 && a.pos.x as i64 - (cfg.load_radius as i64) < p.x as i64 && (p.x as i64)
        < a.pos.x as i64 + cfg.load_radius as i64 && a.pos.y as i64 - (cfg.load_radius as i64)
        < p.y as i64 && (p.y as i64) < a.pos.y as i64 + cfg.load_radius as i64 && 0 <= p.z && (p.z
        as i64) < WORLD_HEIGHT_CHUNKS as i64
}

/// Squared chunk-grid distance, in executable code.
fn dist_sq_exec(a: ChunkPos, p: ChunkPos) -> (r: i128)
    ensures
        r == dist_sq(a, p),
{
    let dx: i128 = a.x as i128 - p.x as i128;
    let dy: i128 = a.y as i128 - p.y as i128;
    let dz: i128 = a.z as i128 - p.z as i128;
    proof {
        assert(0 <= dx * dx <= 0x40000000000000000) by (nonlinear_arith)
            requires -0x100000000 <= dx <= 0x100000000;
        assert(0 <= dy * dy <= 0x40000000000000000) by (nonlinear_arith)
            requires -0x100000000 <= dy <= 0x100000000;
        assert(0 <= dz * dz <= 0x40000000000000000) by (nonlinear_arith)
            requires -0x100000000 <= dz <= 0x100000000;
    }
    dx * dx + dy * dy + dz * dz
}

/// Priority of the wanted chunk at `p`: squared distance to the nearest
/// observer column that wants it.
fn compute_priority(anchors: &Vec<(WorldAnchorInChunkPos, WorldAnchor)>, p: ChunkPos) -> (r: i128)
    requires
        wanted(anchors@, p),
    ensures
        r == priority_of(anchors@, p),
{
    let mut best: Option<i128> = None;
    let n = anchors.len();
    for i in 0..n
        invariant
            n == anchors@.len(),
            wanted(anchors@, p),
            match best {
                None => !wanted(anchors@.take(i as int), p),
                Some(b) => wanted(anchors@.take(i as int), p) && b == priority_of(
                    anchors@.take(i as int),
                    p,
                ),
            },
    {
        let (apos, cfg) = anchors[i];
        let ghost t1 = anchors@.take(i as int + 1);
        proof {
            assert(t1.drop_last() =~= anchors@.take(i as int));
            assert(t1.last() == anchors@[i as int]);
            lemma_wanted_take_step(anchors@, i as int, p);
        }
        if anchor_wants_exec(apos, cfg, p) {
            let d = dist_sq_exec(ChunkPos { x: apos.pos.x, y: apos.pos.y, z: 0 }, p);
            best = match best {
                None => Some(d),
                Some(b) => if b <= d {
                    Some(b)
                } else {
                    Some(d)
                },
            };
        }
    }
    proof {
        assert(anchors@.take(n as int) =~= anchors@);
    }
    match best {
        Some(b) => b,
        None => unreached(),
    }
}

/// Inserting an entry into the queue binds its position and keeps every
/// other binding.
proof fn lemma_insert_queue_pos(q: Seq<ChunkLoadInfo>, k: int, e: ChunkLoadInfo, p: ChunkPos)
    requires
        0 <= k <= q.len(),
    ensures
        queue_has_pos(q.insert(k, e), p) <==> (queue_has_pos(q, p) || e.pos == p),
{
    q.insert_ensures(k, e);
    let s = q.insert(k, e);
    if queue_has_pos(s, p) {
        let j = choose|j: int| 0 <= j < s.len() && (#[trigger] s[j]).pos == p;
        if j < k {
            assert((q[j]).pos == p);
        } else if j > k {
            assert((q[j - 1]).pos == p);
        }
    }
    if queue_has_pos(q, p) {
        let j = choose|j: int| 0 <= j < q.len() && (#[trigger] q[j]).pos == p;
        if j < k {
            assert((s[j]).pos == p);
        } else {
            assert((s[j + 1]).pos == p);
        }
    }
    if e.pos == p {
        assert((s[k]).pos == p);
    }
}

/// Insert a load request into a priority-sorted queue, keeping it sorted.
fn insert_sorted(queue: &mut Vec<ChunkLoadInfo>, info: ChunkLoadInfo)
    requires
        queue_sorted(old(queue)@),
    ensures
        queue_sorted(final(queue)@),
        exists|k: int|
            0 <= k <= old(queue)@.len() && final(queue)@ == #[trigger] old(queue)@.insert(k, info),
{
    let n = queue.len();
    let mut idx: usize = 0;
    while idx < n && queue[idx].priority <= info.priority
        invariant
            n == queue@.len(),
            idx <= n,
            queue_sorted(queue@),
            forall|j: int| 0 <= j < idx ==> (#[trigger] queue@[j]).priority <= info.priority,
        decreases n - idx,
    {
        idx = idx + 1;
    }
    let ghost q0 = queue@;
    let ghost k = idx as int;
    queue.insert(idx, info);
    proof {
        q0.insert_ensures(k, info);
        assert(queue@ == q0.insert(k, info));
        assert forall|a: int, b: int| 0 <= a <= b < queue@.len() implies (
        #[trigger] queue@[a]).priority <= (#[trigger] queue@[b]).priority by {
            if a < k && b > k {
                assert(q0[a].priority <= info.priority);
                assert(info.priority < q0[b - 1].priority || q0[k].priority <= q0[b - 1].priority);
            }
        }
    }
}

/// The first `i + 1` entries of `s` are its first `i` entries plus `s[i]`.
proof fn lemma_seq_take_step<A>(s: Seq<A>, i: int, q: A)
    requires
        0 <= i < s.len(),
    ensures
        s.take(i + 1).contains(q) <==> (s.take(i).contains(q) || s[i] == q),
{
    let t1 = s.take(i + 1);
    let t0 = s.take(i);
    if t1.contains(q) {
        let j = choose|j: int| 0 <= j < t1.len() && t1[j] == q;
        if j < i {
            assert(t0[j] == q);
        } else {
            assert(t1[i] == s[i]);
        }
    }
    if t0.contains(q) {
        let j = choose|j: int| 0 <= j < t0.len() && t0[j] == q;
        assert(t1[j] == q);
    }
    if s[i] == q {
        assert(t1[i] == q);
    }
}

/// Recompute which chunks should be resident after observers moved or
/// changed radius.
///
/// Chunks resident but no longer wanted are removed from the store at once,
/// each reported through exactly one `Unloaded` event, and any in-flight
/// generation task for such a chunk is cancelled (dropped from the
/// in-flight set; its eventual result will be discarded by
/// [`spawn_loaded_chunk`]). Chunks wanted but neither resident nor already
/// generating are queued, closest observer first.
pub fn manage_chunk_loading_state<M>(
    world: &mut World<M>,
    state: &mut StreamingState,
    anchors: &Vec<(WorldAnchorInChunkPos, WorldAnchor)>,
) -> (events: Vec<ChunkUpdateEvent>)
    requires
        old(state).wf(),
        old(state).consistent_with(*old(world)),
        forall|i: int|
            0 <= i < anchors@.len() ==> anchor_in_bounds(
                (#[trigger] anchors@[i]).0,
                anchors@[i].1,
            ),
    ensures
        final(state).wf(),
        final(state).consistent_with(*final(world)),
        // the store afterwards holds exactly the still-wanted chunks, unchanged
        forall|p: ChunkPos| #[trigger]
            final(world)@.dom().contains(p) <==> (old(world)@.dom().contains(p) && wanted(
                anchors@,
                p,
            )),
        forall|p: ChunkPos|
            final(world)@.dom().contains(p) ==> #[trigger] final(world)@[p] == old(world)@[p],
        // exactly one unload event per chunk that was resident and is unwanted
        forall|j: int|
            0 <= j < events@.len() ==> ((#[trigger] events@[j]) matches ChunkUpdateEvent::Unloaded(
                p,
            ) && old(world)@.dom().contains(p) && !wanted(anchors@, p)),
        forall|p: ChunkPos|
            old(world)@.dom().contains(p) && !wanted(anchors@, p) ==> events@.contains(
                ChunkUpdateEvent::Unloaded(p),
            ),
        events@.no_duplicates(),
        // a task survives exactly when its chunk is still wanted
        forall|p: ChunkPos| #[trigger]
            final(state).in_flight@.contains(p) <==> (old(state).in_flight@.contains(p) && wanted(
                anchors@,
                p,
            )),
        // the queue holds exactly the wanted chunks that are neither
        // resident nor generating, prioritized by distance, closest first
        forall|k: int|
            0 <= k < final(state).queue@.len() ==> {
                let e = #[trigger] final(state).queue@[k];
                &&& wanted(anchors@, e.pos)
                &&& !final(world)@.dom().contains(e.pos)
                &&& !final(state).in_flight@.contains(e.pos)
                &&& e.priority == priority_of(anchors@, e.pos)
            },
        forall|p: ChunkPos| #[trigger]
            queue_has_pos(final(state).queue@, p) <==> (wanted(anchors@, p) && !old(
                world,
            )@.dom().contains(p) && !(old(state).in_flight@.contains(p) && wanted(anchors@, p))),
        // the same transition, over the sets the idempotence law speaks of
        final(world)@.dom() =~= resident_after(old(world)@.dom(), anchors@),
        final(state).in_flight@.to_set() =~= surviving_tasks(
            old(state).in_flight@.to_set(),
            anchors@,
        ),
        forall|p: ChunkPos| #[trigger]
            queue_has_pos(final(state).queue@, p) <==> queue_set(
                old(world)@.dom(),
                old(state).in_flight@.to_set(),
                anchors@,
            ).contains(p),
{
    let wanted_list = compute_wanted(anchors);
    let ghost w0 = world@;
    let ghost f0 = state.in_flight@;

    // Unload chunks that are resident but no longer wanted.
    let keys = world.get_chunk_keys();
    let mut events: Vec<ChunkUpdateEvent> = Vec::new();
    let nk = keys.len();
    for i in 0..nk
        invariant
            nk == keys@.len(),
            keys@.no_duplicates(),
            forall|q: ChunkPos| #[trigger] keys@.contains(q) <==> w0.dom().contains(q),
            forall|p: ChunkPos| #[trigger] wanted_list@.contains(p) <==> wanted(anchors@, p),
            forall|q: ChunkPos| #[trigger]
                world@.dom().contains(q) <==> (w0.dom().contains(q) && (wanted(anchors@, q)
                    || !keys@.take(i as int).contains(q))),
            forall|q: ChunkPos|
                world@.dom().contains(q) ==> #[trigger] world@[q] == w0[q],
            forall|j: int|
                0 <= j < events@.len() ==> {
                    let e = #[trigger] events@[j];
                    e matches ChunkUpdateEvent::Unloaded(q) && w0.dom().contains(q) && !wanted(
                        anchors@,
                        q,
                    ) && keys@.take(i as int).contains(q)
                },
            forall|q: ChunkPos|
                keys@.take(i as int).contains(q) && w0.dom().contains(q) && !wanted(anchors@, q)
                    ==> events@.contains(ChunkUpdateEvent::Unloaded(q)),
            forall|j1: int, j2: int|
                0 <= j1 < j2 < events@.len() ==> #[trigger] events@[j1] != #[trigger] events@[j2],
            state == old(state),
    {
        let p = keys[i];
        let ghost epre = events@;
        if !vec_contains_pos(&wanted_list, &p) {
            proof {
                assert(keys@.contains(p));
                assert(!keys@.take(i as int).contains(p)) by {
                    if keys@.take(i as int).contains(p) {
                        let j = choose|j: int|
                            0 <= j < i && (#[trigger] keys@.take(i as int)[j]) == p;
                        assert(keys@[j] == p);
                        assert(keys@[i as int] == p);
                    }
                }
            }
            world.remove_chunk(&p);
            events.push(ChunkUpdateEvent::Unloaded(p));
            proof {
                assert forall|j1: int, j2: int|
                    0 <= j1 < j2 < events@.len() implies #[trigger] events@[j1]
                    != #[trigger] events@[j2] by {
                    if j2 == events@.len() - 1 {
                        let e1 = events@[j1];
                        assert(epre[j1] == e1);
                        if e1 == ChunkUpdateEvent::Unloaded(p) {
                            assert(keys@.take(i as int).contains(p));
                        }
                    } else {
                        assert(events@[j1] == epre[j1]);
                        assert(events@[j2] == epre[j2]);
                    }
                }
            }
        }
        proof {
            assert forall|j: int| 0 <= j < events@.len() implies {
                let e = #[trigger] events@[j];
                e matches ChunkUpdateEvent::Unloaded(q) && w0.dom().contains(q) && !wanted(
                    anchors@,
                    q,
                ) && keys@.take(i as int + 1).contains(q)
            } by {
                let e = events@[j];
                if j < epre.len() {
                    assert(events@[j] == epre[j]);
                }
                let q = e->Unloaded_0;
                lemma_seq_take_step(keys@, i as int, q);
            }
            assert forall|q: ChunkPos| #[trigger]
                world@.dom().contains(q) <==> (w0.dom().contains(q) && (wanted(anchors@, q)
                    || !keys@.take(i as int + 1).contains(q))) by {
                lemma_seq_take_step(keys@, i as int, q);
            }
            assert forall|q: ChunkPos|
                keys@.take(i as int + 1).contains(q) && w0.dom().contains(q) && !wanted(
                    anchors@,
                    q,
                ) implies events@.contains(ChunkUpdateEvent::Unloaded(q)) by {
                lemma_seq_take_step(keys@, i as int, q);
                if keys@.take(i as int).contains(q) {
                    if epre.contains(ChunkUpdateEvent::Unloaded(q)) {
                        let j = choose|j: int|
                            0 <= j < epre.len() && epre[j] == ChunkUpdateEvent::Unloaded(q);
                        assert(events@[j] == ChunkUpdateEvent::Unloaded(q));
                    }
                } else {
                    assert(q == p);
                    assert(events@[events@.len() - 1] == ChunkUpdateEvent::Unloaded(p));
                }
            }
        }
    }
    proof {
        assert(keys@.take(nk as int) =~= keys@);
    }

    // Cancel in-flight generation for chunks that are no longer wanted.
    let mut kept: Vec<ChunkPos> = Vec::new();
    let nf = state.in_flight.len();
    for i in 0..nf
        invariant
            nf == f0.len(),
            state.in_flight@ == f0,
            f0.no_duplicates(),
            kept@.no_duplicates(),
            kept@.len() <= i,
            forall|p: ChunkPos| #[trigger] wanted_list@.contains(p) <==> wanted(anchors@, p),
            forall|p: ChunkPos| #[trigger]
                kept@.contains(p) <==> (f0.take(i as int).contains(p) && wanted(anchors@, p)),
    {
        let p = state.in_flight[i];
        let ghost kpre = kept@;
        if vec_contains_pos(&wanted_list, &p) {
            proof {
                assert(!kpre.contains(p)) by {
                    if kpre.contains(p) {
                        assert(f0.take(i as int).contains(p));
                        let j = choose|j: int|
                            0 <= j < i && (#[trigger] f0.take(i as int)[j]) == p;
                        assert(f0[j] == p);
                        assert(f0[i as int] == p);
                    }
                }
            }
            kept.push(p);
            proof {
                assert forall|a: int, b: int| 0 <= a < b < kept@.len() implies kept@[a]
                    != kept@[b] by {
                    if b == kept@.len() - 1 {
                        if kept@[a] == p {
                            assert(kpre[a] == p);
                            assert(kpre.contains(p));
                        }
                    } else {
                        assert(kept@[a] == kpre[a]);
                        assert(kept@[b] == kpre[b]);
                    }
                }
                assert forall|q: ChunkPos| #[trigger]
                    kept@.contains(q) <==> (f0.take(i as int + 1).contains(q) && wanted(
                        anchors@,
                        q,
                    )) by {
                    lemma_seq_take_step(f0, i as int, q);
                    if kept@.contains(q) {
                        let j = choose|j: int| 0 <= j < kept@.len() && (#[trigger] kept@[j]) == q;
                        if j < kept@.len() - 1 {
                            assert(kpre[j] == q);
                            assert(kpre.contains(q));
                        } else {
                            assert(q == p);
                        }
                    }
                    if kpre.contains(q) {
                        let j = choose|j: int| 0 <= j < kpre.len() && (#[trigger] kpre[j]) == q;
                        assert(kept@[j] == q);
                    }
                    if q == p {
                        assert(kept@[kept@.len() - 1] == p);
                    }
                }
            }
        } else {
            proof {
                assert forall|q: ChunkPos| #[trigger]
                    kept@.contains(q) <==> (f0.take(i as int + 1).contains(q) && wanted(
                        anchors@,
                        q,
                    )) by {
                    lemma_seq_take_step(f0, i as int, q);
                }
            }
        }
    }
    proof {
        assert(f0.take(nf as int) =~= f0);
    }
    state.in_flight = kept;

    // Queue the wanted chunks that are neither resident nor generating,
    // closest observer first.
    let mut queue: Vec<ChunkLoadInfo> = Vec::new();
    let nw = wanted_list.len();
    let ghost w1 = world@;
    for i in 0..nw
        invariant
            nw == wanted_list@.len(),
            world@ == w1,
            wanted_list@.no_duplicates(),
            forall|p: ChunkPos| #[trigger] wanted_list@.contains(p) <==> wanted(anchors@, p),
            queue_sorted(queue@),
            queue_positions_distinct(queue@),
            forall|k: int|
                0 <= k < queue@.len() ==> {
                    let e = #[trigger] queue@[k];
                    &&& wanted(anchors@, e.pos)
                    &&& !world@.dom().contains(e.pos)
                    &&& !state.in_flight@.contains(e.pos)
                    &&& e.priority == priority_of(anchors@, e.pos)
                },
            forall|p: ChunkPos| #[trigger]
                queue_has_pos(queue@, p) <==> (wanted_list@.take(i as int).contains(p)
                    && !world@.dom().contains(p) && !state.in_flight@.contains(p)),
    {
        let p = wanted_list[i];
        let loaded = world.is_chunk_loaded(&p);
        let in_flight = vec_contains_pos(&state.in_flight, &p);
        let ghost qpre = queue@;
        if !loaded && !in_flight {
            proof {
                assert(wanted_list@.contains(p));
            }
            let pri = compute_priority(anchors, p);
            let info = ChunkLoadInfo { pos: p, priority: pri };
            proof {
                assert(!queue_has_pos(qpre, p)) by {
                    if wanted_list@.take(i as int).contains(p) {
                        let j = choose|j: int|
                            0 <= j < i && (#[trigger] wanted_list@.take(i as int)[j]) == p;
                        assert(wanted_list@[j] == p);
                        assert(wanted_list@[i as int] == p);
                    }
                }
            }
            insert_sorted(&mut queue, info);
            proof {
                let k = choose|k: int| 0 <= k <= qpre.len() && queue@ == #[trigger] qpre.insert(
                    k,
                    info,
                );
                qpre.insert_ensures(k, info);
                assert forall|t: int, u: int|
                    0 <= t < u < queue@.len() implies (#[trigger] queue@[t]).pos != (
                #[trigger] queue@[u]).pos by {
                    if t == k {
                        assert(queue@[u] == qpre[u - 1]);
                        if qpre[u - 1].pos == info.pos {
                            assert(queue_has_pos(qpre, p));
                        }
                    } else if u == k {
                        assert(queue@[t] == qpre[t]);
                        if qpre[t].pos == info.pos {
                            assert(queue_has_pos(qpre, p));
                        }
                    } else {
                        let t0 = if t < k {
                            t
                        } else {
                            t - 1
                        };
                        let u0 = if u < k {
                            u
                        } else {
                            u - 1
                        };
                        assert(queue@[t] == qpre[t0]);
                        assert(queue@[u] == qpre[u0]);
                    }
                }
                assert forall|q: ChunkPos| #[trigger]
                    queue_has_pos(queue@, q) <==> (wanted_list@.take(i as int + 1).contains(q)
                        && !world@.dom().contains(q) && !state.in_flight@.contains(q)) by {
                    lemma_insert_queue_pos(qpre, k, info, q);
                    lemma_seq_take_step(wanted_list@, i as int, q);
                }
            }
        } else {
            proof {
                assert forall|q: ChunkPos| #[trigger]
                    queue_has_pos(queue@, q) <==> (wanted_list@.take(i as int + 1).contains(q)
                        && !world@.dom().contains(q) && !state.in_flight@.contains(q)) by {
                    lemma_seq_take_step(wanted_list@, i as int, q);
                }
            }
        }
    }
    proof {
        assert(wanted_list@.take(nw as int) =~= wanted_list@);
    }
    state.queue = queue;
    events
}

/// How many queue entries the next dispatch step hands out: the whole queue,
/// capped by the room left under [`MAX_LOADING_TASKS`].
pub open spec fn dispatch_count(s: StreamingState) -> int {
    let room = MAX_LOADING_TASKS - s.in_flight@.len();
    if s.queue@.len() <= room {
        s.queue@.len() as int
    } else {
        room
    }
}

/// Move the head of the load queue into the in-flight set and hand the
/// positions out for generation, closest first.
///
/// At most `MAX_LOADING_TASKS` generation tasks are ever in flight: one
/// call dispatches only as many entries as there is room for, and the rest
/// of the queue stays queued (backpressure after an observer teleports).
pub fn load_new_chunks_from_queue(state: &mut StreamingState) -> (to_spawn: Vec<ChunkPos>)
    requires
        old(state).wf(),
    ensures
        final(state).wf(),
        to_spawn@ == old(state).queue@.take(dispatch_count(*old(state))).map_values(
            |e: ChunkLoadInfo| e.pos,
        ),
        final(state).queue@ == old(state).queue@.skip(dispatch_count(*old(state))),
        final(state).in_flight@ == old(state).in_flight@ + to_spawn@,
        to_spawn@.len() + old(state).in_flight@.len() <= MAX_LOADING_TASKS,
{
    let room = MAX_LOADING_TASKS - state.in_flight.len();
    let size = if state.queue.len() <= room {
        state.queue.len()
    } else {
        room
    };
    let ghost q0 = state.queue@;
    let ghost f0 = state.in_flight@;
    let mut to_spawn: Vec<ChunkPos> = Vec::new();
    let mut i: usize = 0;
    while i < size
        invariant
            size == dispatch_count(*old(state)),
            size <= state.queue@.len(),
            state.queue@ == q0,
            state.in_flight@ == f0.add(to_spawn@),
            old(state).wf(),
            q0 == old(state).queue@,
            f0 == old(state).in_flight@,
            i <= size,
            to_spawn@.len() == i,
            forall|j: int| 0 <= j < i ==> to_spawn@[j] == (#[trigger] q0[j]).pos,
            state.in_flight@.no_duplicates(),
            state.in_flight@.len() == f0.len() + i,
        decreases size - i,
    {
        let p = state.queue[i].pos;
        let ghost fpre = state.in_flight@;
        to_spawn.push(p);
        state.in_flight.push(p);
        proof {
            assert(state.in_flight@ =~= f0.add(to_spawn@));
            assert forall|a: int, b: int| 0 <= a < b < state.in_flight@.len() implies state
                .in_flight@[a] != state.in_flight@[b] by {
                if b == state.in_flight@.len() - 1 {
                    assert(state.in_flight@[b] == q0[i as int].pos);
                    if a < f0.len() {
                        assert(state.in_flight@[a] == f0[a]);
                        assert(f0.contains(f0[a]));
                        if f0[a] == q0[i as int].pos {
                            assert(!f0.contains((q0[i as int]).pos));
                        }
                    } else {
                        assert(state.in_flight@[a] == (q0[a - f0.len()]).pos);
                        assert((q0[a - f0.len()]).pos != (q0[i as int]).pos);
                    }
                } else {
                    assert(state.in_flight@[a] == fpre[a]);
                    assert(state.in_flight@[b] == fpre[b]);
                }
            }
        }
        i = i + 1;
    }
    let mut rest: Vec<ChunkLoadInfo> = Vec::new();
    let n = state.queue.len();
    let mut j: usize = size;
    while j < n
        invariant
            n == state.queue@.len(),
            state.queue@ == q0,
            size <= j <= n,
            rest@.len() == j - size,
            forall|t: int| 0 <= t < rest@.len() ==> rest@[t] == (#[trigger] q0[size + t]),
        decreases n - j,
    {
        rest.push(state.queue[j]);
        j = j + 1;
    }
    state.queue = rest;
    proof {
        assert(state.queue@.len() == q0.skip(size as int).len());
        assert forall|t: int| 0 <= t < state.queue@.len() implies state.queue@[t] == q0.skip(
            size as int,
        )[t] by {
            assert(state.queue@[t] == q0[size + t]);
        }
        assert(state.queue@ =~= q0.skip(size as int));
        assert(to_spawn@ =~= q0.take(size as int).map_values(|e: ChunkLoadInfo| e.pos));
        assert forall|a: int, b: int| 0 <= a <= b < state.queue@.len() implies (
        #[trigger] state.queue@[a]).priority <= (#[trigger] state.queue@[b]).priority by {
            assert(state.queue@[a] == q0[size + a]);
            assert(state.queue@[b] == q0[size + b]);
        }
        assert forall|a: int, b: int| 0 <= a < b < state.queue@.len() implies (
        #[trigger] state.queue@[a]).pos != (#[trigger] state.queue@[b]).pos by {
            assert(state.queue@[a] == q0[size + a]);
            assert(state.queue@[b] == q0[size + b]);
        }
        assert forall|t: int|
            0 <= t < state.queue@.len() implies !state.in_flight@.contains(
            (#[trigger] state.queue@[t]).pos,
        ) by {
            assert(state.queue@[t] == q0[size + t]);
            if state.in_flight@.contains((q0[size + t]).pos) {
                let a = choose|a: int|
                    0 <= a < state.in_flight@.len() && state.in_flight@[a] == (q0[size + t]).pos;
                if a < f0.len() {
                    assert(f0.contains(f0[a]));
                    assert(!f0.contains((q0[size + t]).pos));
                } else {
                    assert(state.in_flight@[a] == (q0[a - f0.len()]).pos);
                    assert((q0[a - f0.len()]).pos != (q0[size + t]).pos);
                }
            }
        }
    }
    to_spawn
}

/// Take delivery of one finished generation task.
///
/// If the position is still expected (its task was not cancelled by a
/// recompute in the meantime), the chunk enters the store and a `Loaded`
/// event is returned; otherwise the chunk is discarded and nothing changes.
/// A chunk whose position was unloaded while it was generating is therefore
/// never inserted.
pub fn spawn_loaded_chunk<M>(
    world: &mut World<M>,
    state: &mut StreamingState,
    pos: ChunkPos,
    chunk: Chunk<M>,
) -> (r: Option<ChunkUpdateEvent>)
    requires
        old(state).wf(),
        old(state).consistent_with(*old(world)),
    ensures
        final(state).wf(),
        final(state).consistent_with(*final(world)),
        old(state).in_flight@.contains(pos) ==> {
            &&& final(world)@ == old(world)@.insert(pos, chunk)
            &&& r == Some(ChunkUpdateEvent::Loaded(pos))
            &&& final(state).queue == old(state).queue
            &&& forall|p: ChunkPos| #[trigger]
                final(state).in_flight@.contains(p) <==> (old(state).in_flight@.contains(p) && p
                    != pos)
        },
        !old(state).in_flight@.contains(pos) ==> {
            &&& *final(world) == *old(world)
            &&& *final(state) == *old(state)
            &&& r is None
        },
{
    let ghost f0 = state.in_flight@;
    let n = state.in_flight.len();
    let mut found: Option<usize> = None;
    let mut i: usize = 0;
    while i < n
        invariant
            n == state.in_flight@.len(),
            i <= n,
            state.in_flight@ == f0,
            match found {
                Some(k) => k < n && f0[k as int] == pos,
                None => forall|j: int| 0 <= j < i ==> f0[j] != pos,
            },
        decreases n - i,
    {
        if found.is_none() && state.in_flight[i] == pos {
            found = Some(i);
        }
        i = i + 1;
    }
    match found {
        Some(k) => {
            proof {
                assert(f0.contains(pos));
            }
            state.in_flight.remove(k);
            proof {
                f0.remove_ensures(k as int);
                assert forall|p: ChunkPos| #[trigger]
                    state.in_flight@.contains(p) <==> (f0.contains(p) && p != pos) by {
                    if state.in_flight@.contains(p) {
                        let j = choose|j: int|
                            0 <= j < state.in_flight@.len() && state.in_flight@[j] == p;
                        if j < k {
                            assert(f0[j] == p);
                        } else {
                            assert(f0[j + 1] == p);
                        }
                        if p == pos {
                            assert(f0.no_duplicates());
                            assert(f0[k as int] == pos);
                        }
                    }
                    if f0.contains(p) && p != pos {
                        let j = choose|j: int| 0 <= j < f0.len() && f0[j] == p;
                        if j < k {
                            assert(state.in_flight@[j] == p);
                        } else {
                            assert(j != k);
                            assert(state.in_flight@[j - 1] == p);
                        }
                    }
                }
                assert forall|a: int, b: int| 0 <= a < b < state.in_flight@.len() implies state
                    .in_flight@[a] != state.in_flight@[b] by {
                    let a0 = if a < k {
                        a
                    } else {
                        a + 1
                    };
                    let b0 = if b < k {
                        b
                    } else {
                        b + 1
                    };
                    assert(state.in_flight@[a] == f0[a0]);
                    assert(state.in_flight@[b] == f0[b0]);
                }
            }
            world.add_chunk(pos, chunk);
            Some(ChunkUpdateEvent::Loaded(pos))
        },
        None => {
            proof {
                if f0.contains(pos) {
                    let j = choose|j: int| 0 <= j < f0.len() && f0[j] == pos;
                    assert(f0[j] == pos);
                }
            }
            None
        },
    }
}

/// The set of chunk positions some observer wants resident.
pub open spec fn wanted_set(anchors: Seq<(WorldAnchorInChunkPos, WorldAnchor)>) -> Set<ChunkPos> {
    Set::new(|p: ChunkPos| wanted(anchors, p))
}

/// The resident set after one recompute: what was resident and is wanted.
pub open spec fn resident_after(
    resident: Set<ChunkPos>,
    anchors: Seq<(WorldAnchorInChunkPos, WorldAnchor)>,
) -> Set<ChunkPos> {
    resident.intersect(wanted_set(anchors))
}

/// The chunks one recompute unloads: resident but unwanted.
pub open spec fn unload_set(
    resident: Set<ChunkPos>,
    anchors: Seq<(WorldAnchorInChunkPos, WorldAnchor)>,
) -> Set<ChunkPos> {
    resident.difference(wanted_set(anchors))
}

/// The generation tasks one recompute leaves in flight: those still wanted.
pub open spec fn surviving_tasks(
    in_flight: Set<ChunkPos>,
    anchors: Seq<(WorldAnchorInChunkPos, WorldAnchor)>,
) -> Set<ChunkPos> {
    in_flight.intersect(wanted_set(anchors))
}

/// The positions one recompute queues for generation: wanted, but neither
/// resident nor already generating.
pub open spec fn queue_set(
    resident: Set<ChunkPos>,
    in_flight: Set<ChunkPos>,
    anchors: Seq<(WorldAnchorInChunkPos, WorldAnchor)>,
) -> Set<ChunkPos> {
    wanted_set(anchors).difference(resident).difference(in_flight)
}

/// Law (streaming idempotence): recomputing a second time with unchanged
/// observers is a no-op. Starting from any resident set and any in-flight
/// set, after one recompute a second recompute unloads nothing, cancels no
/// task, leaves the resident set as it is, and queues exactly the same
/// positions again — so no new load or unload events are produced.
pub proof fn lemma_recompute_idempotent(
    resident: Set<ChunkPos>,
    in_flight: Set<ChunkPos>,
    anchors: Seq<(WorldAnchorInChunkPos, WorldAnchor)>,
)
    ensures
        unload_set(resident_after(resident, anchors), anchors) =~= Set::<ChunkPos>::empty(),
        resident_after(resident_after(resident, anchors), anchors) =~= resident_after(
            resident,
            anchors,
        ),
        surviving_tasks(surviving_tasks(in_flight, anchors), anchors) =~= surviving_tasks(
            in_flight,
            anchors,
        ),
        queue_set(resident_after(resident, anchors), surviving_tasks(in_flight, anchors), anchors)
            =~= queue_set(resident, in_flight, anchors),
{
}

} // verus!
