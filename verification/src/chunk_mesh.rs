//! Building the geometry of one chunk, with per-face visibility culling
//! across chunk boundaries.
//!
//! Every occupied cell contributes up to six faces; a face is emitted only
//! when the adjacent cell is empty. A neighbor inside the same chunk is
//! read from the chunk itself; one in an adjacent chunk is resolved through
//! the store. If that chunk is not resident the boundary is treated as
//! opaque (the face is suppressed), so seams do not flicker while chunks
//! stream in and out; and the downward face at world height zero is always
//! suppressed, so the world never exposes a bottomless underside.

use vstd::prelude::*;
use vstd::arithmetic::div_mod::{
    lemma_div_is_ordered, lemma_div_multiples_vanish, lemma_fundamental_div_mod_converse_div,
    lemma_fundamental_div_mod_converse_mod, lemma_mod_division_less_than_divisor,
};
use crate::chunk::Chunk;
use crate::coords::{
    chunk_in_bounds, lemma_scan_coords_in_range, local_in_range, scan_coords, ChunkBlockPos,
    ChunkPos, LocalCoords, CHUNK_SIZE,
};
use crate::face::{face_at_index, AbsoluteBlockFaceDirection};
use crate::mesh::{
    faces_indexes, faces_normals, faces_positions, faces_uvs, lemma_faces_buffer_lens,
    lemma_faces_buffers_push, lemma_faces_buffers_wf, FaceInstance, MeshBuffers, MeshBuilder,
};
use crate::world::World;

verus! {

/// Chunk-local coordinates of the cell adjacent to `l` across face `d`.
/// Components may leave `[0, CHUNK_SIZE)` when the neighbor lies in the
/// next chunk over.
pub open spec fn neighbor_local(l: LocalCoords, d: AbsoluteBlockFaceDirection) -> LocalCoords {
    let dd = d.delta_spec();
    LocalCoords { x: l.x + dd.0, y: l.y + dd.1, z: l.z + dd.2 }
}

/// Whether face `d` of the cell at `l` of the chunk at `cpos` is hidden
/// (culled). The neighbor cell decides: occupied hides the face; inside
/// the same chunk the chunk itself is consulted, across a boundary the
/// store is, a non-resident neighbor chunk counts as opaque, and anything
/// below world height zero is opaque (the world floor).
pub open spec fn face_hidden<M>(
    map: Map<ChunkPos, Chunk<M>>,
    chunk: Chunk<M>,
    cpos: ChunkPos,
    l: LocalCoords,
    d: AbsoluteBlockFaceDirection,
) -> bool {
    let nl = neighbor_local(l, d);
    if local_in_range(nl) {
        chunk.cell(nl) is Some
    } else {
        let gx = cpos.x * (CHUNK_SIZE as int) + nl.x;
        let gy = cpos.y * (CHUNK_SIZE as int) + nl.y;
        let gz = cpos.z * (CHUNK_SIZE as int) + nl.z;
        if gz < 0 {
            true
        } else {
            let nc = ChunkPos {
                x: (gx / (CHUNK_SIZE as int)) as i32,
                y: (gy / (CHUNK_SIZE as int)) as i32,
                z: (gz / (CHUNK_SIZE as int)) as i32,
            };
            let nll = LocalCoords {
                x: gx % (CHUNK_SIZE as int),
                y: gy % (CHUNK_SIZE as int),
                z: gz % (CHUNK_SIZE as int),
            };
            if map.dom().contains(nc) {
                map[nc].cell(nll) is Some
            } else {
                true
            }
        }
    }
}

/// Whether the neighbor of this block's face is occupied, so that the face
/// need not be rendered.
pub fn is_need_to_render_face<M>(
    world: &World<M>,
    chunk: &Chunk<M>,
    chunk_pos: ChunkPos,
    block_pos: &ChunkBlockPos,
    face_dir: AbsoluteBlockFaceDirection,
) -> (r: bool)
    requires
        chunk_in_bounds(chunk_pos),
    ensures
        r == face_hidden(world@, *chunk, chunk_pos, block_pos@, face_dir),
{
    let (dx, dy, dz) = face_dir.delta();
    let nlx: i32 = block_pos.x() as i32 + dx;
    let nly: i32 = block_pos.y() as i32 + dy;
    let nlz: i32 = block_pos.z() as i32 + dz;
    match ChunkBlockPos::try_from_signed(nlx, nly, nlz) {
        Ok(nl) => {
            // the neighbor block lies within this same chunk
            chunk.get(&nl).is_some()
        },
        Err(_) => {
            // the neighbor block lies in an adjacent chunk
            let gx: i64 = chunk_pos.x as i64 * 16 + nlx as i64;
            let gy: i64 = chunk_pos.y as i64 * 16 + nly as i64;
            let gz: i64 = chunk_pos.z as i64 * 16 + nlz as i64;
            if gz < 0 {
                // the world floor: nothing below height zero is ever open
                true
            } else {
                proof {
                    lemma_neighbor_div_range(chunk_pos.x as int, gx as int);
                    lemma_neighbor_div_range(chunk_pos.y as int, gy as int);
                    lemma_neighbor_div_range(chunk_pos.z as int, gz as int);
                    lemma_mod_division_less_than_divisor(gx as int, 16);
                    lemma_mod_division_less_than_divisor(gy as int, 16);
                    lemma_mod_division_less_than_divisor(gz as int, 16);
                }
                let nc = ChunkPos {
                    x: gx.checked_div_euclid(16).unwrap() as i32,
                    y: gy.checked_div_euclid(16).unwrap() as i32,
                    z: gz.checked_div_euclid(16).unwrap() as i32,
                };
                let rx = gx.checked_rem_euclid(16).unwrap();
                let ry = gy.checked_rem_euclid(16).unwrap();
                let rz = gz.checked_rem_euclid(16).unwrap();
                match world.get_chunk(&nc) {
                    None => {
                        // the neighbor chunk is not resident: treat the
                        // boundary as opaque
                        true
                    },
                    Some(neighbor_chunk) => {
                        let np = match ChunkBlockPos::try_from_signed(
                            rx as i32,
                            ry as i32,
                            rz as i32,
                        ) {
                            Ok(p) => p,
                            Err(_) => unreached(),
                        };
                        neighbor_chunk.get(&np).is_some()
                    },
                }
            }
        },
    }
}

/// A face neighbor's global coordinate differs from the chunk's origin by
/// at most one chunk edge, so its chunk-grid coordinate lands next door.
proof fn lemma_neighbor_div_range(c: int, g: int)
    requires
        -0x800_0000 <= c <= 0x7FF_FFFF,
        16 * c - 1 <= g <= 16 * c + 16,
    ensures
        c - 1 <= g / 16 <= c + 1,
{
    lemma_div_multiples_vanish(c - 1, 16);
    lemma_div_multiples_vanish(c + 1, 16);
    assert(16 * (c - 1) == (c - 1) * 16);
    assert(16 * (c + 1) == (c + 1) * 16);
    lemma_div_is_ordered(16 * (c - 1), g, 16);
    lemma_div_is_ordered(g, 16 * (c + 1), 16);
}

/// The face list of the chunk's mesh after scanning the first `n` of the
/// `CHUNK_SIZE^3 * 6` (cell, face) slots: cells in x-major scan order, the
/// six faces of each cell in fixed direction order. A slot contributes a
/// face exactly when its cell is occupied and the face is not hidden.
pub open spec fn mesh_faces<M>(
    map: Map<ChunkPos, Chunk<M>>,
    chunk: Chunk<M>,
    cpos: ChunkPos,
    n: int,
) -> Seq<FaceInstance>
    decreases n,
{
    if n <= 0 {
        Seq::empty()
    } else {
        let k = n - 1;
        let l = scan_coords(k / 6);
        let d = face_at_index(k % 6);
        mesh_faces(map, chunk, cpos, k) + if chunk.cell(l) is Some && !face_hidden(
            map,
            chunk,
            cpos,
            l,
            d,
        ) {
            seq![FaceInstance { offset: (l.x, l.y, l.z), dir: d }]
        } else {
            Seq::empty()
        }
    }
}

/// The face list grows by at most one face per slot.
proof fn lemma_mesh_faces_len<M>(map: Map<ChunkPos, Chunk<M>>, chunk: Chunk<M>, cpos: ChunkPos, n: int)
    requires
        n >= 0,
    ensures
        mesh_faces(map, chunk, cpos, n).len() <= n,
    decreases n,
{
    if n > 0 {
        lemma_mesh_faces_len(map, chunk, cpos, n - 1);
    }
}

/// Build the renderable geometry of the chunk at `chunk_pos` from its
/// voxel data, culling every face whose neighbor cell is occupied (in this
/// chunk or, through the store, in an adjacent one).
///
/// The result is exactly the fold of the chunk's face list into buffers:
/// nothing is emitted beyond the visible faces, in scan order, and the
/// buffers are well-formed. An all-culled chunk yields empty buffers.
pub fn build_chunk_mesh<M>(world: &World<M>, chunk: &Chunk<M>, chunk_pos: ChunkPos) -> (r:
    MeshBuffers)
    requires
        chunk_in_bounds(chunk_pos),
    ensures
        r.positions@ == faces_positions(mesh_faces(world@, *chunk, chunk_pos, 24576)),
        r.normals@ == faces_normals(mesh_faces(world@, *chunk, chunk_pos, 24576)),
        r.uvs@ == faces_uvs(mesh_faces(world@, *chunk, chunk_pos, 24576)),
        r.indexes@ == faces_indexes(mesh_faces(world@, *chunk, chunk_pos, 24576)),
        r.wf(),
{
    let mut builder = MeshBuilder::new();
    for ci in 0..4096usize
        invariant
            chunk_in_bounds(chunk_pos),
            builder.positions@ == faces_positions(mesh_faces(world@, *chunk, chunk_pos, 6 * ci)),
            builder.normals@ == faces_normals(mesh_faces(world@, *chunk, chunk_pos, 6 * ci)),
            builder.uvs@ == faces_uvs(mesh_faces(world@, *chunk, chunk_pos, 6 * ci)),
            builder.indexes@ == faces_indexes(mesh_faces(world@, *chunk, chunk_pos, 6 * ci)),
            mesh_faces(world@, *chunk, chunk_pos, 6 * ci).len() <= 6 * ci,
    {
        let block_pos = ChunkBlockPos::from_scan_index(ci);
        let occupied = chunk.get(&block_pos).is_some();
        if occupied {
            builder.set_transition(
                (block_pos.x() as i32, block_pos.y() as i32, block_pos.z() as i32),
            );
        }
        for di in 0..6usize
            invariant
                chunk_in_bounds(chunk_pos),
                ci < 4096,
                block_pos@ == scan_coords(ci as int),
                local_in_range(block_pos@),
                occupied == (chunk.cell(scan_coords(ci as int)) is Some),
                occupied ==> builder.transition == ((
                    block_pos@.x as i32,
                    block_pos@.y as i32,
                    block_pos@.z as i32,
                )),
                builder.positions@ == faces_positions(
                    mesh_faces(world@, *chunk, chunk_pos, 6 * ci + di),
                ),
                builder.normals@ == faces_normals(
                    mesh_faces(world@, *chunk, chunk_pos, 6 * ci + di),
                ),
                builder.uvs@ == faces_uvs(mesh_faces(world@, *chunk, chunk_pos, 6 * ci + di)),
                builder.indexes@ == faces_indexes(
                    mesh_faces(world@, *chunk, chunk_pos, 6 * ci + di),
                ),
                mesh_faces(world@, *chunk, chunk_pos, 6 * ci + di).len() <= 6 * ci + di,
        {
            let dir = AbsoluteBlockFaceDirection::from_index(di);
            let ghost k = 6 * ci + di;
            let ghost faces_k = mesh_faces(world@, *chunk, chunk_pos, k as int);
            proof {
                lemma_fundamental_div_mod_converse_div(k as int, 6, ci as int, di as int);
                lemma_fundamental_div_mod_converse_mod(k as int, 6, ci as int, di as int);
            }
            if occupied {
                if !is_need_to_render_face(world, chunk, chunk_pos, &block_pos, dir) {
                    let ghost inst = FaceInstance {
                        offset: (block_pos@.x, block_pos@.y, block_pos@.z),
                        dir,
                    };
                    proof {
                        lemma_mesh_faces_len(world@, *chunk, chunk_pos, k as int);
                        lemma_faces_buffer_lens(faces_k);
                    }
                    builder.add_mesh_data(dir);
                    proof {
                        lemma_faces_buffers_push(faces_k, inst);
                        assert(mesh_faces(world@, *chunk, chunk_pos, k as int + 1) =~= faces_k.push(
                            inst,
                        ));
                    }
                } else {
                    proof {
                        assert(mesh_faces(world@, *chunk, chunk_pos, k as int + 1) =~= faces_k);
                    }
                }
            } else {
                proof {
                    assert(mesh_faces(world@, *chunk, chunk_pos, k as int + 1) =~= faces_k);
                }
            }
        }
    }
    proof {
        lemma_mesh_faces_len(world@, *chunk, chunk_pos, 24576);
        lemma_faces_buffers_wf(mesh_faces(world@, *chunk, chunk_pos, 24576));
        lemma_faces_buffer_lens(mesh_faces(world@, *chunk, chunk_pos, 24576));
    }
    builder.build()
}

/// Law: a chunk with no occupied cell produces an empty mesh — its face
/// list is empty, so all four buffers fold to nothing.
pub proof fn lemma_empty_chunk_empty_mesh<M>(
    map: Map<ChunkPos, Chunk<M>>,
    chunk: Chunk<M>,
    cpos: ChunkPos,
)
    requires
        forall|l: LocalCoords| local_in_range(l) ==> #[trigger] chunk.cell(l) is None,
    ensures
        mesh_faces(map, chunk, cpos, 24576).len() == 0,
        faces_positions(mesh_faces(map, chunk, cpos, 24576)).len() == 0,
        faces_indexes(mesh_faces(map, chunk, cpos, 24576)).len() == 0,
{
    lemma_empty_chunk_aux(map, chunk, cpos, 24576);
    lemma_faces_buffer_lens(mesh_faces(map, chunk, cpos, 24576));
}

proof fn lemma_empty_chunk_aux<M>(
    map: Map<ChunkPos, Chunk<M>>,
    chunk: Chunk<M>,
    cpos: ChunkPos,
    n: int,
)
    requires
        forall|l: LocalCoords| local_in_range(l) ==> #[trigger] chunk.cell(l) is None,
        0 <= n <= 24576,
    ensures
        mesh_faces(map, chunk, cpos, n).len() == 0,
    decreases n,
{
    if n > 0 {
        lemma_empty_chunk_aux(map, chunk, cpos, n - 1);
        let k = n - 1;
        lemma_div_is_ordered(0, k, 6);
        lemma_div_is_ordered(k, 24575, 6);
        assert(24575int / 6 == 4095);
        lemma_scan_coords_in_range(k / 6);
        assert(chunk.cell(scan_coords(k / 6)) is None);
    }
}

} // verus!
