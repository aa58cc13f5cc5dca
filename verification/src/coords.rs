//! Coordinate spaces of the voxel world and the transforms between them.
//!
//! Three spaces are kept apart by distinct types:
//! - [`AbsoluteBlockPos`]: global integer coordinates of a single block;
//! - [`ChunkPos`]: integer coordinates of a chunk in the chunk grid (the
//!   second chunk along x has `x == 1`, not `CHUNK_SIZE`);
//! - [`ChunkBlockPos`]: coordinates of a block within one chunk, each
//!   component strictly below [`CHUNK_SIZE`].

use vstd::prelude::*;
use vstd::arithmetic::div_mod::{
    lemma_div_denominator, lemma_div_is_ordered, lemma_fundamental_div_mod,
    lemma_fundamental_div_mod_converse_div, lemma_fundamental_div_mod_converse_mod,
    lemma_mod_division_less_than_divisor,
};

verus! {

/// Edge length of a cubic chunk, in blocks.
pub const CHUNK_SIZE: usize = 16;

/// Global (absolute) coordinates of a single block in world space.
#[derive(Clone, Copy, PartialEq, Eq, Structural, Hash, Debug, Default)]
pub struct AbsoluteBlockPos {
    pub x: i32,
    pub y: i32,
    pub z: i32,
}

impl AbsoluteBlockPos {
    pub fn new(x: i32, y: i32, z: i32) -> (r: Self)
        ensures
            r == (AbsoluteBlockPos { x, y, z }),
    {
        AbsoluteBlockPos { x, y, z }
    }
}

/// Coordinates of a chunk in the chunk grid.
#[derive(Clone, Copy, PartialEq, Eq, Structural, Hash, Debug, Default)]
pub struct ChunkPos {
    pub x: i32,
    pub y: i32,
    pub z: i32,
}

/// Chunk positions whose origin (and every block of the chunk) still fits in
/// the signed 32-bit global block space.
pub open spec fn chunk_in_bounds(c: ChunkPos) -> bool {
    &&& -0x800_0000 <= c.x <= 0x7FF_FFFF
    &&& -0x800_0000 <= c.y <= 0x7FF_FFFF
    &&& -0x800_0000 <= c.z <= 0x7FF_FFFF
}

/// Whether the global position `g` falls inside the chunk at grid position `c`.
pub open spec fn in_chunk(c: ChunkPos, g: AbsoluteBlockPos) -> bool {
    &&& 0 <= g.x - c.x * (CHUNK_SIZE as int) < CHUNK_SIZE as int
    &&& 0 <= g.y - c.y * (CHUNK_SIZE as int) < CHUNK_SIZE as int
    &&& 0 <= g.z - c.z * (CHUNK_SIZE as int) < CHUNK_SIZE as int
}

/// Euclidean floor division of one global block coordinate by [`CHUNK_SIZE`]:
/// rounds towards negative infinity, so `-1` lands in chunk `-1`, not `0`.
fn div_floor_chunk(v: i32) -> (r: i32)
    ensures
        r == v as int / (CHUNK_SIZE as int),
{
    proof {
        lemma_div_is_ordered(i32::MIN as int, v as int, CHUNK_SIZE as int);
        lemma_div_is_ordered(v as int, i32::MAX as int, CHUNK_SIZE as int);
        assert((-2147483648int) / 16 == -134217728);
        assert(2147483647int / 16 == 134217727);
    }
    v.checked_div_euclid(CHUNK_SIZE as i32).unwrap()
}

impl ChunkPos {
    pub fn new(x: i32, y: i32, z: i32) -> (r: Self)
        ensures
            r == (ChunkPos { x, y, z }),
    {
        ChunkPos { x, y, z }
    }

    /// Grid position of the chunk containing the global position `coord`.
    ///
    /// Each axis is the Euclidean floor of `coord` divided by [`CHUNK_SIZE`],
    /// for negative coordinates too: global `-1` lies in chunk `-1`, local
    /// `CHUNK_SIZE - 1`.
    pub fn from_global_coord(coord: AbsoluteBlockPos) -> (r: Self)
        ensures
            r.x == coord.x as int / (CHUNK_SIZE as int),
            r.y == coord.y as int / (CHUNK_SIZE as int),
            r.z == coord.z as int / (CHUNK_SIZE as int),
    {
        ChunkPos {
            x: div_floor_chunk(coord.x),
            y: div_floor_chunk(coord.y),
            z: div_floor_chunk(coord.z),
        }
    }

    /// Global coordinates of the chunk's lowest corner, `CHUNK_SIZE` times the
    /// grid position on each axis.
    pub fn get_absolute_coord(&self) -> (r: AbsoluteBlockPos)
        requires
            chunk_in_bounds(*self),
        ensures
            r.x == self.x * (CHUNK_SIZE as int),
            r.y == self.y * (CHUNK_SIZE as int),
            r.z == self.z * (CHUNK_SIZE as int),
    {
        AbsoluteBlockPos { x: self.x * 16, y: self.y * 16, z: self.z * 16 }
    }

    /// Global position of the block at chunk-local position `local` within
    /// this chunk: the chunk's lowest corner plus the local offset.
    pub fn global_of(&self, local: &ChunkBlockPos) -> (r: AbsoluteBlockPos)
        requires
            chunk_in_bounds(*self),
        ensures
            r == global_of_spec(*self, local@),
            in_chunk(*self, r),
    {
        proof {
            use_type_invariant(local);
        }
        AbsoluteBlockPos {
            x: self.x * 16 + local.x as i32,
            y: self.y * 16 + local.y as i32,
            z: self.z * 16 + local.z as i32,
        }
    }

    /// Local position of `global_pos` within this chunk, if `global_pos`
    /// falls inside it; `Err(OutOfChunk)` exactly when it does not.
    pub fn try_global_pos_into_chunk_pos(&self, global_pos: AbsoluteBlockPos) -> (r: Result<
        ChunkBlockPos,
        OutOfChunk,
    >)
        ensures
            r is Ok <==> in_chunk(*self, global_pos),
            r matches Ok(l) ==> l@ == (LocalCoords {
                x: global_pos.x - self.x * (CHUNK_SIZE as int),
                y: global_pos.y - self.y * (CHUNK_SIZE as int),
                z: global_pos.z - self.z * (CHUNK_SIZE as int),
            }),
    {
        let dx: i64 = global_pos.x as i64 - self.x as i64 * 16;
        let dy: i64 = global_pos.y as i64 - self.y as i64 * 16;
        let dz: i64 = global_pos.z as i64 - self.z as i64 * 16;
        if 0 <= dx && dx < 16 && 0 <= dy && dy < 16 && 0 <= dz && dz < 16 {
            Ok(ChunkBlockPos { x: dx as u8, y: dy as u8, z: dz as u8 })
        } else {
            Err(OutOfChunk)
        }
    }

    /// The six axis-aligned neighbors of this chunk in the grid, in the order
    /// `+x, -x, +y, -y, +z, -z`.
    pub fn get_neighbors(&self) -> (r: Vec<ChunkPos>)
        requires
            i32::MIN < self.x < i32::MAX,
            i32::MIN < self.y < i32::MAX,
            i32::MIN < self.z < i32::MAX,
        ensures
            r@.len() == 6,
            forall|i: int|
                0 <= i < 6 ==> #[trigger] r@[i] == neighbor_spec(*self, dir_at_index(i)),
    {
        let mut v: Vec<ChunkPos> = Vec::new();
        v.push(ChunkPos { x: self.x + 1, y: self.y, z: self.z });
        v.push(ChunkPos { x: self.x - 1, y: self.y, z: self.z });
        v.push(ChunkPos { x: self.x, y: self.y + 1, z: self.z });
        v.push(ChunkPos { x: self.x, y: self.y - 1, z: self.z });
        v.push(ChunkPos { x: self.x, y: self.y, z: self.z + 1 });
        v.push(ChunkPos { x: self.x, y: self.y, z: self.z - 1 });
        proof {
            assert(v@[0] == neighbor_spec(*self, dir_at_index(0)));
            assert(v@[1] == neighbor_spec(*self, dir_at_index(1)));
            assert(v@[2] == neighbor_spec(*self, dir_at_index(2)));
            assert(v@[3] == neighbor_spec(*self, dir_at_index(3)));
            assert(v@[4] == neighbor_spec(*self, dir_at_index(4)));
            assert(v@[5] == neighbor_spec(*self, dir_at_index(5)));
        }
        v
    }

    /// The neighboring chunk position one step in direction `dir`.
    pub fn neighbor(&self, dir: ChunkNeighborDir) -> (r: ChunkPos)
        requires
            i32::MIN < self.x < i32::MAX,
            i32::MIN < self.y < i32::MAX,
            i32::MIN < self.z < i32::MAX,
        ensures
            r == neighbor_spec(*self, dir),
    {
        let (dx, dy, dz) = dir.delta();
        ChunkPos { x: self.x + dx, y: self.y + dy, z: self.z + dz }
    }
}

/// The result of stepping one chunk in direction `dir`.
pub open spec fn neighbor_spec(c: ChunkPos, dir: ChunkNeighborDir) -> ChunkPos {
    let d = dir.delta_spec();
    ChunkPos { x: (c.x + d.0) as i32, y: (c.y + d.1) as i32, z: (c.z + d.2) as i32 }
}

/// The spec-level result of [`ChunkPos::global_of`].
pub open spec fn global_of_spec(c: ChunkPos, l: LocalCoords) -> AbsoluteBlockPos {
    AbsoluteBlockPos {
        x: (c.x * (CHUNK_SIZE as int) + l.x) as i32,
        y: (c.y * (CHUNK_SIZE as int) + l.y) as i32,
        z: (c.z * (CHUNK_SIZE as int) + l.z) as i32,
    }
}

/// Rejection marker for a global position that lies outside the chunk, or a
/// component outside `[0, CHUNK_SIZE)`.
#[derive(Clone, Copy, PartialEq, Eq, Structural, Debug)]
pub struct OutOfChunk;

/// Spec-level coordinates of a chunk-local block position.
pub struct LocalCoords {
    pub x: int,
    pub y: int,
    pub z: int,
}

/// Whether spec-level local coordinates lie within one chunk.
pub open spec fn local_in_range(l: LocalCoords) -> bool {
    &&& 0 <= l.x < CHUNK_SIZE as int
    &&& 0 <= l.y < CHUNK_SIZE as int
    &&& 0 <= l.z < CHUNK_SIZE as int
}

/// Coordinates of a block within one chunk; every component is strictly
/// below [`CHUNK_SIZE`]. Construction from an out-of-range value fails, so a
/// value of this type never needs a bounds check when indexing a chunk.
#[derive(Clone, Copy, PartialEq, Eq, Structural, Hash, Debug)]
pub struct ChunkBlockPos {
    x: u8,
    y: u8,
    z: u8,
}

impl View for ChunkBlockPos {
    type V = LocalCoords;

    closed spec fn view(&self) -> LocalCoords {
        LocalCoords { x: self.x as int, y: self.y as int, z: self.z as int }
    }
}

impl ChunkBlockPos {
    /// Every constructed value satisfies this: each component lies in
    /// `[0, CHUNK_SIZE)`.
    #[verifier::type_invariant]
    pub open spec fn inv(self) -> bool {
        local_in_range(self.view())
    }

    /// Local position from unsigned components; fails unless every component
    /// is strictly below [`CHUNK_SIZE`].
    pub fn try_new(x: u32, y: u32, z: u32) -> (r: Result<ChunkBlockPos, OutOfChunk>)
        ensures
            r is Ok <==> (x < CHUNK_SIZE as u32 && y < CHUNK_SIZE as u32 && z < CHUNK_SIZE as u32),
            r matches Ok(l) ==> l@ == (LocalCoords { x: x as int, y: y as int, z: z as int }),
    {
        if x < 16 && y < 16 && z < 16 {
            Ok(ChunkBlockPos { x: x as u8, y: y as u8, z: z as u8 })
        } else {
            Err(OutOfChunk)
        }
    }

    /// Local position from signed components; fails unless every component
    /// lies in `[0, CHUNK_SIZE)`.
    pub fn try_from_signed(x: i32, y: i32, z: i32) -> (r: Result<ChunkBlockPos, OutOfChunk>)
        ensures
            r is Ok <==> (0 <= x < CHUNK_SIZE as int && 0 <= y < CHUNK_SIZE as int && 0 <= z
                < CHUNK_SIZE as int),
            r matches Ok(l) ==> l@ == (LocalCoords { x: x as int, y: y as int, z: z as int }),
    {
        if 0 <= x && x < 16 && 0 <= y && y < 16 && 0 <= z && z < 16 {
            Ok(ChunkBlockPos { x: x as u8, y: y as u8, z: z as u8 })
        } else {
            Err(OutOfChunk)
        }
    }

    pub fn x(&self) -> (r: u8)
        ensures
            r == self@.x,
            0 <= r < CHUNK_SIZE,
    {
        proof {
            use_type_invariant(self);
        }
        self.x
    }

    pub fn y(&self) -> (r: u8)
        ensures
            r == self@.y,
            0 <= r < CHUNK_SIZE,
    {
        proof {
            use_type_invariant(self);
        }
        self.y
    }

    pub fn z(&self) -> (r: u8)
        ensures
            r == self@.z,
            0 <= r < CHUNK_SIZE,
    {
        proof {
            use_type_invariant(self);
        }
        self.z
    }

    /// Flat index of this position in x-major scan order (x outermost, z
    /// innermost), in `[0, CHUNK_SIZE^3)`.
    pub fn index(&self) -> (r: usize)
        ensures
            r == scan_index(self@),
            r < 4096,
    {
        proof {
            use_type_invariant(self);
        }
        (self.x as usize) * 256 + (self.y as usize) * 16 + (self.z as usize)
    }

    /// The `i`-th local position in x-major scan order; the inverse of
    /// [`ChunkBlockPos::index`]. Stepping `i` over `[0, CHUNK_SIZE^3)` visits
    /// every cell of a chunk exactly once.
    pub fn from_scan_index(i: usize) -> (r: ChunkBlockPos)
        requires
            i < 4096,
        ensures
            r@ == scan_coords(i as int),
    {
        proof {
            lemma_scan_coords_in_range(i as int);
        }
        ChunkBlockPos { x: (i / 256) as u8, y: ((i / 16) % 16) as u8, z: (i % 16) as u8 }
    }
}

/// Flat x-major scan index of local coordinates `l`.
pub open spec fn scan_index(l: LocalCoords) -> int {
    l.x * 256 + l.y * 16 + l.z
}

/// Local coordinates of the `i`-th cell in x-major scan order.
pub open spec fn scan_coords(i: int) -> LocalCoords {
    LocalCoords { x: i / 256, y: (i / 16) % 16, z: i % 16 }
}

/// The scan order stays within one chunk: the `i`-th scan position is a valid
/// local position for every `i` in `[0, CHUNK_SIZE^3)`.
pub proof fn lemma_scan_coords_in_range(i: int)
    requires
        0 <= i < 4096,
    ensures
        local_in_range(scan_coords(i)),
{
    lemma_div_is_ordered(i, 4095, 256);
    lemma_div_is_ordered(0, i, 256);
    assert(4095int / 256 == 15);
    lemma_mod_division_less_than_divisor(i / 16, 16);
    lemma_mod_division_less_than_divisor(i, 16);
}

/// Scan index and scan coordinates are mutually inverse on one chunk: the
/// index of the `i`-th scan position is `i` again.
pub proof fn lemma_scan_round_trip(i: int)
    requires
        0 <= i < 4096,
    ensures
        scan_index(scan_coords(i)) == i,
{
    lemma_fundamental_div_mod(i, 16);
    lemma_fundamental_div_mod(i / 16, 16);
    lemma_div_is_ordered(i, 4095, 256);
    assert(4095int / 256 == 15);
    lemma_div_denominator(i, 16, 16);
    lemma_mod_division_less_than_divisor(i, 16);
    lemma_mod_division_less_than_divisor(i / 16, 16);
}

/// Scan coordinates and scan index are mutually inverse on one chunk, the
/// other way around: taking the scan coordinates of the index of a valid
/// local position yields that position again. In particular the scan index
/// is injective on valid local positions.
pub proof fn lemma_index_round_trip(l: LocalCoords)
    requires
        local_in_range(l),
    ensures
        0 <= scan_index(l) < 4096,
        scan_coords(scan_index(l)) == l,
{
    let i = scan_index(l);
    lemma_fundamental_div_mod_converse_div(i, 256, l.x, l.y * 16 + l.z);
    lemma_fundamental_div_mod_converse_div(i, 16, l.x * 16 + l.y, l.z);
    lemma_fundamental_div_mod_converse_mod(i, 16, l.x * 16 + l.y, l.z);
    lemma_fundamental_div_mod_converse_mod(l.x * 16 + l.y, 16, l.x, l.y);
}

/// The six chunk-neighbor directions along the coordinate axes.
#[derive(Clone, Copy, PartialEq, Eq, Structural, Debug)]
pub enum ChunkNeighborDir {
    PosX,
    NegX,
    PosY,
    NegY,
    PosZ,
    NegZ,
}

/// The direction enumerated at slot `i` by [`ChunkPos::get_neighbors`].
pub open spec fn dir_at_index(i: int) -> ChunkNeighborDir {
    if i == 0 {
        ChunkNeighborDir::PosX
    } else if i == 1 {
        ChunkNeighborDir::NegX
    } else if i == 2 {
        ChunkNeighborDir::PosY
    } else if i == 3 {
        ChunkNeighborDir::NegY
    } else if i == 4 {
        ChunkNeighborDir::PosZ
    } else {
        ChunkNeighborDir::NegZ
    }
}

impl ChunkNeighborDir {
    /// The unit grid offset of this direction.
    pub open spec fn delta_spec(self) -> (int, int, int) {
        match self {
            ChunkNeighborDir::PosX => (1, 0, 0),
            ChunkNeighborDir::NegX => (-1, 0, 0),
            ChunkNeighborDir::PosY => (0, 1, 0),
            ChunkNeighborDir::NegY => (0, -1, 0),
            ChunkNeighborDir::PosZ => (0, 0, 1),
            ChunkNeighborDir::NegZ => (0, 0, -1),
        }
    }

    /// The unit grid offset of this direction, as signed components.
    pub fn delta(self) -> (r: (i32, i32, i32))
        ensures
            r.0 == self.delta_spec().0,
            r.1 == self.delta_spec().1,
            r.2 == self.delta_spec().2,
    {
        match self {
            ChunkNeighborDir::PosX => (1, 0, 0),
            ChunkNeighborDir::NegX => (-1, 0, 0),
            ChunkNeighborDir::PosY => (0, 1, 0),
            ChunkNeighborDir::NegY => (0, -1, 0),
            ChunkNeighborDir::PosZ => (0, 0, 1),
            ChunkNeighborDir::NegZ => (0, 0, -1),
        }
    }
}

/// Law: local-to-global and back round-trips. For every in-bounds chunk
/// position `c` and valid local position `l`, the global position of `l`
/// within `c` lies in chunk `c`, converting it back yields `l` again, and
/// Euclidean floor division recovers `c` on every axis.
pub proof fn lemma_local_global_round_trip(c: ChunkPos, l: LocalCoords)
    requires
        chunk_in_bounds(c),
        local_in_range(l),
    ensures
        in_chunk(c, global_of_spec(c, l)),
        global_of_spec(c, l).x - c.x * (CHUNK_SIZE as int) == l.x,
        global_of_spec(c, l).y - c.y * (CHUNK_SIZE as int) == l.y,
        global_of_spec(c, l).z - c.z * (CHUNK_SIZE as int) == l.z,
        global_of_spec(c, l).x as int / (CHUNK_SIZE as int) == c.x,
        global_of_spec(c, l).y as int / (CHUNK_SIZE as int) == c.y,
        global_of_spec(c, l).z as int / (CHUNK_SIZE as int) == c.z,
{
    lemma_fundamental_div_mod_converse_div(c.x * 16 + l.x, 16, c.x as int, l.x);
    lemma_fundamental_div_mod_converse_div(c.y * 16 + l.y, 16, c.y as int, l.y);
    lemma_fundamental_div_mod_converse_div(c.z * 16 + l.z, 16, c.z as int, l.z);
}

} // verus!
