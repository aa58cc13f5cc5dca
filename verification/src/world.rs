//! The world's chunk store: a mapping from chunk-grid position to loaded
//! chunk.
//!
//! The store is the single owner of all resident chunk data; readers borrow
//! a chunk for the duration of one operation. A grid position maps to at
//! most one chunk; inserting into an occupied slot or removing an absent one
//! indicates corrupted bookkeeping in the caller and is therefore ruled out
//! by precondition rather than handled.

use vstd::prelude::*;
use crate::block::{Block, BlockType};
use crate::chunk::Chunk;
use crate::coords::{local_in_range, ChunkBlockPos, ChunkPos, LocalCoords, CHUNK_SIZE};

verus! {

/// Height of the world in blocks; chunks are only wanted with their grid
/// `z` in `[0, WORLD_HEIGHT / CHUNK_SIZE)`.
pub const WORLD_HEIGHT: usize = 256;

/// Height of the world in chunks.
pub const WORLD_HEIGHT_CHUNKS: usize = 16;

/// Whether the (finite) sequence of key/chunk pairs binds the key `p`.
pub open spec fn seq_has_key<M>(s: Seq<(ChunkPos, Chunk<M>)>, p: ChunkPos) -> bool {
    exists|i: int| 0 <= i < s.len() && (#[trigger] s[i]).0 == p
}

/// The mapping described by a sequence of key/chunk pairs, later pairs
/// taking precedence.
spec fn as_chunk_map<M>(s: Seq<(ChunkPos, Chunk<M>)>) -> Map<ChunkPos, Chunk<M>>
    decreases s.len(),
{
    if s.len() == 0 {
        Map::empty()
    } else {
        as_chunk_map(s.drop_last()).insert(s.last().0, s.last().1)
    }
}

/// The keys of `as_chunk_map(s)` are exactly the keys occurring in `s`.
proof fn lemma_as_chunk_map_dom<M>(s: Seq<(ChunkPos, Chunk<M>)>)
    ensures
        forall|p: ChunkPos| #[trigger]
            as_chunk_map(s).dom().contains(p) <==> seq_has_key(s, p),
    decreases s.len(),
{
    if s.len() > 0 {
        let dl = s.drop_last();
        lemma_as_chunk_map_dom(dl);
        assert(as_chunk_map(s) == as_chunk_map(dl).insert(s.last().0, s.last().1));
        assert forall|p: ChunkPos| seq_has_key(s, p) implies #[trigger] as_chunk_map(
            s,
        ).dom().contains(p) by {
            let i = choose|i: int| 0 <= i < s.len() && (#[trigger] s[i]).0 == p;
            if i < s.len() - 1 {
                assert(dl[i] == s[i]);
                assert(seq_has_key(dl, p));
                assert(as_chunk_map(dl).dom().contains(p));
            } else {
                assert(s.last().0 == p);
            }
        }
        assert forall|p: ChunkPos| #[trigger] as_chunk_map(s).dom().contains(p) implies seq_has_key(
            s,
            p,
        ) by {
            if p == s.last().0 {
                assert((s[s.len() - 1]).0 == p);
            } else {
                assert(as_chunk_map(dl).dom().contains(p));
                assert(seq_has_key(dl, p));
                let i = choose|i: int| 0 <= i < dl.len() && (#[trigger] dl[i]).0 == p;
                assert(s[i] == dl[i]);
                assert((s[i]).0 == p);
            }
        }
    }
}

/// With pairwise-distinct keys, the pair at index `i` is bound in the map.
proof fn lemma_as_chunk_map_index<M>(s: Seq<(ChunkPos, Chunk<M>)>, i: int)
    requires
        forall|a: int, b: int| 0 <= a < b < s.len() ==> (#[trigger] s[a]).0 != (#[trigger] s[b]).0,
        0 <= i < s.len(),
    ensures
        as_chunk_map(s).dom().contains(s[i].0),
        as_chunk_map(s)[s[i].0] == s[i].1,
    decreases s.len(),
{
    if i == s.len() - 1 {
    } else {
        assert(s.drop_last()[i] == s[i]);
        lemma_as_chunk_map_index(s.drop_last(), i);
        assert(s[i].0 != s.last().0);
    }
}

/// Removing the pair at index `i` removes exactly its key from the map,
/// provided keys are pairwise distinct.
proof fn lemma_as_chunk_map_remove<M>(s: Seq<(ChunkPos, Chunk<M>)>, i: int)
    requires
        forall|a: int, b: int| 0 <= a < b < s.len() ==> (#[trigger] s[a]).0 != (#[trigger] s[b]).0,
        0 <= i < s.len(),
    ensures
        as_chunk_map(s.remove(i)) == as_chunk_map(s).remove(s[i].0),
    decreases s.len(),
{
    lemma_as_chunk_map_dom(s.drop_last());
    if i == s.len() - 1 {
        assert(s.remove(i) =~= s.drop_last());
        assert(!seq_has_key(s.drop_last(), s[i].0));
        assert(as_chunk_map(s.drop_last()).remove(s[i].0) =~= as_chunk_map(s.drop_last()));
        assert(as_chunk_map(s).remove(s[i].0) =~= as_chunk_map(s.drop_last()).remove(s[i].0));
    } else {
        lemma_as_chunk_map_remove(s.drop_last(), i);
        s.remove_ensures(i);
        s.drop_last().remove_ensures(i);
        assert(s.remove(i).drop_last() =~= s.drop_last().remove(i));
        assert(s.remove(i).last() == s.last());
        assert(s[i] == s.drop_last()[i]);
        assert(s[i].0 != s.last().0);
        assert(as_chunk_map(s.remove(i)) =~= as_chunk_map(s).remove(s[i].0));
    }
}

/// The store of loaded chunks, keyed by chunk-grid position. Its view is
/// the mathematical map from positions to resident chunks.
pub struct World<M> {
    chunks: Vec<(ChunkPos, Chunk<M>)>,
}

impl<M> View for World<M> {
    type V = Map<ChunkPos, Chunk<M>>;

    closed spec fn view(&self) -> Map<ChunkPos, Chunk<M>> {
        as_chunk_map(self.chunks@)
    }
}

impl<M> World<M> {
    #[verifier::type_invariant]
    spec fn inv(self) -> bool {
        forall|a: int, b: int|
            0 <= a < b < self.chunks@.len() ==> (#[trigger] self.chunks@[a]).0 != (
            #[trigger] self.chunks@[b]).0
    }

    /// An empty store.
    pub fn new() -> (r: Self)
        ensures
            r@ == Map::<ChunkPos, Chunk<M>>::empty(),
    {
        World { chunks: Vec::new() }
    }

    /// Index of the pair binding `pos`, if any.
    fn find_index(&self, pos: &ChunkPos) -> (r: Option<usize>)
        ensures
            match r {
                Some(i) => i < self.chunks@.len() && self.chunks@[i as int].0 == *pos,
                None => !seq_has_key(self.chunks@, *pos),
            },
    {
        let n = self.chunks.len();
        for i in 0..n
            invariant
                n == self.chunks@.len(),
                forall|j: int| 0 <= j < i ==> (#[trigger] self.chunks@[j]).0 != *pos,
        {
            if self.chunks[i].0 == *pos {
                return Some(i);
            }
        }
        None
    }

    /// Whether a chunk is resident at `pos`.
    pub fn is_chunk_loaded(&self, pos: &ChunkPos) -> (r: bool)
        ensures
            r == self@.dom().contains(*pos),
    {
        proof {
            lemma_as_chunk_map_dom(self.chunks@);
        }
        self.find_index(pos).is_some()
    }

    /// The chunk resident at `pos`, if any.
    pub fn get_chunk(&self, pos: &ChunkPos) -> (r: Option<&Chunk<M>>)
        ensures
            match r {
                Some(c) => self@.dom().contains(*pos) && *c == self@[*pos],
                None => !self@.dom().contains(*pos),
            },
    {
        proof {
            use_type_invariant(self);
            lemma_as_chunk_map_dom(self.chunks@);
        }
        match self.find_index(pos) {
            Some(i) => {
                proof {
                    lemma_as_chunk_map_index(self.chunks@, i as int);
                }
                Some(&self.chunks[i].1)
            },
            None => None,
        }
    }

    /// The set of positions with a resident chunk, as a duplicate-free list.
    pub fn get_chunk_keys(&self) -> (r: Vec<ChunkPos>)
        ensures
            r@.no_duplicates(),
            forall|p: ChunkPos| #[trigger] r@.contains(p) <==> self@.dom().contains(p),
            r@.len() == self@.dom().len(),
    {
        proof {
            use_type_invariant(self);
            lemma_as_chunk_map_dom(self.chunks@);
        }
        let mut r: Vec<ChunkPos> = Vec::new();
        let n = self.chunks.len();
        for i in 0..n
            invariant
                n == self.chunks@.len(),
                r@.len() == i,
                forall|j: int| 0 <= j < i ==> r@[j] == (#[trigger] self.chunks@[j]).0,
                forall|a: int, b: int|
                    0 <= a < b < self.chunks@.len() ==> (#[trigger] self.chunks@[a]).0 != (
                    #[trigger] self.chunks@[b]).0,
        {
            r.push(self.chunks[i].0);
        }
        proof {
            assert forall|p: ChunkPos| #[trigger] r@.contains(p) implies seq_has_key(
                self.chunks@,
                p,
            ) by {
                let j = choose|j: int| 0 <= j < r@.len() && r@[j] == p;
                assert((self.chunks@[j]).0 == p);
            }
            assert forall|p: ChunkPos| seq_has_key(self.chunks@, p) implies r@.contains(p) by {
                let j = choose|j: int|
                    0 <= j < self.chunks@.len() && (#[trigger] self.chunks@[j]).0 == p;
                assert(r@[j] == p);
            }
            assert forall|a: int, b: int| 0 <= a < b < r@.len() implies r@[a] != r@[b] by {
                assert((self.chunks@[a]).0 != (self.chunks@[b]).0);
            }
            lemma_key_list_len(self.chunks@, r@);
        }
        r
    }

    /// Insert a chunk at a position that holds none yet. Inserting into an
    /// occupied slot indicates corrupt streaming bookkeeping and is a
    /// precondition violation, never silently ignored.
    pub fn add_chunk(&mut self, pos: ChunkPos, chunk: Chunk<M>)
        requires
            !old(self)@.dom().contains(pos),
        ensures
            final(self)@ == old(self)@.insert(pos, chunk),
    {
        proof {
            use_type_invariant(&*self);
            lemma_as_chunk_map_dom(self.chunks@);
        }
        let ghost s0 = self.chunks@;
        let mut chunks: Vec<(ChunkPos, Chunk<M>)> = Vec::new();
        std::mem::swap(&mut chunks, &mut self.chunks);
        chunks.push((pos, chunk));
        self.chunks = chunks;
        proof {
            assert(self.chunks@.drop_last() =~= s0);
            assert forall|a: int, b: int| 0 <= a < b < self.chunks@.len() implies (
            #[trigger] self.chunks@[a]).0 != (#[trigger] self.chunks@[b]).0 by {
                if b == self.chunks@.len() - 1 {
                    assert(seq_has_key(s0, (self.chunks@[a]).0));
                }
            }
        }
    }

    /// Remove the chunk resident at `pos`. Removing from an empty slot
    /// indicates corrupt streaming bookkeeping and is a precondition
    /// violation, never silently ignored.
    pub fn remove_chunk(&mut self, pos: &ChunkPos)
        requires
            old(self)@.dom().contains(*pos),
        ensures
            final(self)@ == old(self)@.remove(*pos),
    {
        proof {
            use_type_invariant(&*self);
            lemma_as_chunk_map_dom(self.chunks@);
        }
        let i = match self.find_index(pos) {
            Some(i) => i,
            None => unreached(),
        };
        proof {
            lemma_as_chunk_map_remove(self.chunks@, i as int);
            self.chunks@.remove_ensures(i as int);
        }
        let mut chunks: Vec<(ChunkPos, Chunk<M>)> = Vec::new();
        std::mem::swap(&mut chunks, &mut self.chunks);
        chunks.remove(i);
        self.chunks = chunks;
    }
}

/// Law (chunk store): after inserting chunk `c` at position `p` the store
/// contains `p` and yields `c` for it; after removing `p` the store no
/// longer contains `p`. Insertion and removal leave every other position
/// untouched.
pub proof fn lemma_store_insert_remove<M>(m: Map<ChunkPos, Chunk<M>>, p: ChunkPos, c: Chunk<M>)
    ensures
        m.insert(p, c).dom().contains(p),
        m.insert(p, c)[p] == c,
        !m.remove(p).dom().contains(p),
        forall|q: ChunkPos|
            q != p ==> (m.insert(p, c).dom().contains(q) <==> #[trigger] m.dom().contains(q)),
        forall|q: ChunkPos|
            q != p ==> (m.remove(p).dom().contains(q) <==> #[trigger] m.dom().contains(q)),
        forall|q: ChunkPos|
            q != p && m.dom().contains(q) ==> #[trigger] m.insert(p, c)[q] == m[q] && m.remove(
                p,
            )[q] == m[q],
{
}

/// Whether the cell at local coordinates `l` of the chunk at height-layer
/// `chunk_z` lies below its terrain column's surface height.
pub open spec fn column_occupied(heights: Seq<i32>, chunk_z: int, l: LocalCoords) -> bool {
    l.z + chunk_z * (CHUNK_SIZE as int) < heights[l.x * (CHUNK_SIZE as int) + l.y]
}

/// One cell of `c` agrees with the height map: it holds a block exactly when
/// it lies below its column's surface, and that block is grass.
pub open spec fn height_cell_ok<M>(
    c: Chunk<M>,
    heights: Seq<i32>,
    chunk_z: int,
    l: LocalCoords,
) -> bool {
    &&& (c.cell(l) is Some <==> column_occupied(heights, chunk_z, l))
    &&& (c.cell(l) matches Some(b) ==> b.ty() == BlockType::GRASS)
}

/// Fill the chunk at height-layer `chunk_z` of the chunk grid from a
/// `CHUNK_SIZE x CHUNK_SIZE` map of terrain column heights (in global
/// blocks, x-major order). A cell is occupied, by a grass block, exactly
/// when its global height lies below its column's height.
///
/// The height map itself comes from the terrain noise function, an external
/// collaborator of this library; this function is the part of chunk
/// generation that decides which cells exist.
pub fn chunk_from_heights<M>(heights: &Vec<i32>, chunk_z: i32, metadata: M) -> (r: Chunk<M>)
    requires
        heights@.len() == 256,
    ensures
        r.meta() == metadata,
        forall|l: LocalCoords|
            local_in_range(l) ==> #[trigger] height_cell_ok(r, heights@, chunk_z as int, l),
{
    let mut chunk: Chunk<M> = Chunk::new(metadata);
    for x in 0..16usize
        invariant
            heights@.len() == 256,
            chunk.meta() == metadata,
            forall|l: LocalCoords|
                local_in_range(l) && l.x < x ==> #[trigger] height_cell_ok(
                    chunk,
                    heights@,
                    chunk_z as int,
                    l,
                ),
            forall|l: LocalCoords|
                local_in_range(l) && l.x >= x ==> #[trigger] chunk.cell(l) is None,
    {
        for y in 0..16usize
            invariant
                heights@.len() == 256,
                chunk.meta() == metadata,
                x < 16,
                forall|l: LocalCoords|
                    local_in_range(l) && (l.x < x || (l.x == x && l.y < y))
                        ==> #[trigger] height_cell_ok(chunk, heights@, chunk_z as int, l),
                forall|l: LocalCoords|
                    local_in_range(l) && (l.x > x || (l.x == x && l.y >= y))
                        ==> #[trigger] chunk.cell(l) is None,
        {
            let h: i64 = heights[x * 16 + y] as i64 - chunk_z as i64 * 16;
            let cap: usize = if h <= 0 {
                0
            } else if h >= 16 {
                16
            } else {
                h as usize
            };
            for z in 0..cap
                invariant
                    heights@.len() == 256,
                    chunk.meta() == metadata,
                    x < 16,
                    y < 16,
                    cap <= 16,
                    h == heights@[x * 16 + y] - chunk_z * 16,
                    cap == if h <= 0 {
                        0int
                    } else if h >= 16 {
                        16int
                    } else {
                        h as int
                    },
                    forall|l: LocalCoords|
                        local_in_range(l) && (l.x < x || (l.x == x && l.y < y))
                            ==> #[trigger] height_cell_ok(chunk, heights@, chunk_z as int, l),
                    forall|l: LocalCoords|
                        local_in_range(l) && l.x == x && l.y == y && l.z < z
                            ==> #[trigger] height_cell_ok(chunk, heights@, chunk_z as int, l),
                    forall|l: LocalCoords|
                        local_in_range(l) && (l.x > x || (l.x == x && l.y > y) || (l.x == x && l.y
                            == y && l.z >= z)) ==> #[trigger] chunk.cell(l) is None,
            {
                let pos = match ChunkBlockPos::try_new(x as u32, y as u32, z as u32) {
                    Ok(p) => p,
                    Err(_) => unreached(),
                };
                let ghost c0 = chunk;
                chunk.set(&pos, Some(Block::new(BlockType::GRASS)));
                proof {
                    assert forall|l: LocalCoords|
                        local_in_range(l) && (l.x < x || (l.x == x && l.y < y))
                            implies #[trigger] height_cell_ok(
                        chunk,
                        heights@,
                        chunk_z as int,
                        l,
                    ) by {
                        assert(height_cell_ok(c0, heights@, chunk_z as int, l));
                        assert(chunk.cell(l) == c0.cell(l));
                    }
                    assert forall|l: LocalCoords|
                        local_in_range(l) && l.x == x && l.y == y && l.z < z + 1
                            implies #[trigger] height_cell_ok(
                        chunk,
                        heights@,
                        chunk_z as int,
                        l,
                    ) by {
                        if l == pos@ {
                            assert(chunk.cell(l) is Some);
                            assert(column_occupied(heights@, chunk_z as int, l));
                        } else {
                            assert(height_cell_ok(c0, heights@, chunk_z as int, l));
                            assert(chunk.cell(l) == c0.cell(l));
                        }
                    }
                    assert forall|l: LocalCoords|
                        local_in_range(l) && (l.x > x || (l.x == x && l.y > y) || (l.x == x && l.y
                            == y && l.z >= z + 1)) implies #[trigger] chunk.cell(l) is None by {
                        assert(c0.cell(l) is None);
                        assert(chunk.cell(l) == c0.cell(l));
                    }
                }
            }
        }
    }
    chunk
}

/// A duplicate-free list of the keys of `s` has exactly as many entries as
/// the map of `s` has keys.
proof fn lemma_key_list_len<M>(s: Seq<(ChunkPos, Chunk<M>)>, keys: Seq<ChunkPos>)
    requires
        keys.no_duplicates(),
        forall|p: ChunkPos| #[trigger] keys.contains(p) <==> seq_has_key(s, p),
    ensures
        keys.len() == as_chunk_map(s).dom().len(),
{
    lemma_as_chunk_map_dom(s);
    assert(keys.to_set() =~= as_chunk_map(s).dom());
    keys.unique_seq_to_set();
}

} // verus!
