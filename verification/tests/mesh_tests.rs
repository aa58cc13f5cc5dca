use voxel_terrain::block::{Block, BlockType};
use voxel_terrain::chunk::Chunk;
use voxel_terrain::chunk_mesh::{build_chunk_mesh, is_need_to_render_face};
use voxel_terrain::coords::{ChunkBlockPos, ChunkPos};
use voxel_terrain::face::AbsoluteBlockFaceDirection;
use voxel_terrain::mesh::MeshBuilder;
use voxel_terrain::world::World;

fn solid_chunk() -> Chunk<()> {
    let mut chunk: Chunk<()> = Chunk::new(());
    for i in 0..4096 {
        let p = ChunkBlockPos::from_scan_index(i);
        chunk.set(&p, Some(Block::new(BlockType::GRASS)));
    }
    chunk
}

#[test]
fn empty_chunk_builds_empty_buffers() {
    let world: World<()> = World::new();
    let chunk: Chunk<()> = Chunk::new(());
    let mesh = build_chunk_mesh(&world, &chunk, ChunkPos::new(0, 0, 0));
    assert!(mesh.is_empty());
    assert_eq!(mesh.positions.len(), 0);
    assert_eq!(mesh.normals.len(), 0);
    assert_eq!(mesh.uvs.len(), 0);
    assert_eq!(mesh.indexes.len(), 0);
}

#[test]
fn isolated_cell_shows_six_faces() {
    let world: World<()> = World::new();
    let mut chunk: Chunk<()> = Chunk::new(());
    let p = ChunkBlockPos::try_new(5, 5, 5).unwrap();
    chunk.set(&p, Some(Block::new(BlockType::GRASS)));
    let mesh = build_chunk_mesh(&world, &chunk, ChunkPos::new(0, 0, 0));
    assert!(!mesh.is_empty());
    assert_eq!(mesh.positions.len(), 24);
    assert_eq!(mesh.normals.len(), 24);
    assert_eq!(mesh.uvs.len(), 24);
    assert_eq!(mesh.indexes.len(), 36);
    // every index refers to an existing vertex
    for &i in &mesh.indexes {
        assert!((i as usize) < mesh.positions.len());
    }
    // the quads are translated to the block's position
    for &(x, y, z) in &mesh.positions {
        assert!((5..=6).contains(&x));
        assert!((5..=6).contains(&y));
        assert!((5..=6).contains(&z));
    }
}

#[test]
fn cell_at_world_floor_hides_downward_face() {
    let world: World<()> = World::new();
    let mut chunk: Chunk<()> = Chunk::new(());
    let p = ChunkBlockPos::try_new(5, 5, 0).unwrap();
    chunk.set(&p, Some(Block::new(BlockType::GRASS)));
    let mesh = build_chunk_mesh(&world, &chunk, ChunkPos::new(0, 0, 0));
    // five faces: the downward face at height zero is suppressed
    assert_eq!(mesh.positions.len(), 20);
    assert_eq!(mesh.indexes.len(), 30);
}

#[test]
fn adjacent_solid_chunks_cull_the_shared_face() {
    let a_pos = ChunkPos::new(0, 0, 0);
    let b_pos = ChunkPos::new(1, 0, 0);
    let mut world: World<()> = World::new();
    world.add_chunk(a_pos, solid_chunk());
    world.add_chunk(b_pos, solid_chunk());

    // the shared face between the two chunks is culled on both sides
    let face = AbsoluteBlockFaceDirection::PosX;
    let edge_cell = ChunkBlockPos::try_new(15, 7, 7).unwrap();
    assert!(is_need_to_render_face(
        &world,
        world.get_chunk(&a_pos).unwrap(),
        a_pos,
        &edge_cell,
        face
    ));
    let back_cell = ChunkBlockPos::try_new(0, 7, 7).unwrap();
    assert!(is_need_to_render_face(
        &world,
        world.get_chunk(&b_pos).unwrap(),
        b_pos,
        &back_cell,
        AbsoluteBlockFaceDirection::NegX
    ));

    // with every other neighbor absent (treated opaque) or internal, both
    // meshes end up fully culled
    let mesh_a = build_chunk_mesh(&world, world.get_chunk(&a_pos).unwrap(), a_pos);
    let mesh_b = build_chunk_mesh(&world, world.get_chunk(&b_pos).unwrap(), b_pos);
    assert!(mesh_a.is_empty());
    assert!(mesh_b.is_empty());
}

#[test]
fn empty_resident_neighbor_exposes_boundary_faces() {
    let a_pos = ChunkPos::new(0, 0, 0);
    let b_pos = ChunkPos::new(1, 0, 0);
    let mut world: World<()> = World::new();
    world.add_chunk(a_pos, solid_chunk());
    world.add_chunk(b_pos, Chunk::new(()));
    let mesh_a = build_chunk_mesh(&world, world.get_chunk(&a_pos).unwrap(), a_pos);
    // exactly the 16 x 16 faces towards the empty neighbor are visible
    assert_eq!(mesh_a.positions.len(), 16 * 16 * 4);
    assert_eq!(mesh_a.indexes.len(), 16 * 16 * 6);
}

#[test]
fn unloaded_neighbor_is_treated_as_opaque() {
    let a_pos = ChunkPos::new(0, 0, 0);
    let mut world: World<()> = World::new();
    world.add_chunk(a_pos, solid_chunk());
    // no neighbor chunk is resident: every boundary face is suppressed
    let mesh_a = build_chunk_mesh(&world, world.get_chunk(&a_pos).unwrap(), a_pos);
    assert!(mesh_a.is_empty());
}

#[test]
fn occupied_same_chunk_neighbor_hides_face() {
    let world: World<()> = World::new();
    let mut chunk: Chunk<()> = Chunk::new(());
    let a = ChunkBlockPos::try_new(4, 4, 4).unwrap();
    let b = ChunkBlockPos::try_new(5, 4, 4).unwrap();
    chunk.set(&a, Some(Block::new(BlockType::GRASS)));
    chunk.set(&b, Some(Block::new(BlockType::GRASS)));
    let cpos = ChunkPos::new(0, 0, 0);
    assert!(is_need_to_render_face(&world, &chunk, cpos, &a, AbsoluteBlockFaceDirection::PosX));
    assert!(!is_need_to_render_face(&world, &chunk, cpos, &a, AbsoluteBlockFaceDirection::NegX));
    // two touching cells: 2 * 6 - 2 = 10 faces
    let mesh = build_chunk_mesh(&world, &chunk, cpos);
    assert_eq!(mesh.positions.len(), 40);
    assert_eq!(mesh.indexes.len(), 60);
}

#[test]
fn builder_appends_translated_template() {
    let mut builder = MeshBuilder::new();
    builder.set_transition((2, 3, 4));
    builder.add_mesh_data(AbsoluteBlockFaceDirection::PosX);
    assert_eq!(builder.positions.len(), 4);
    assert_eq!(builder.normals.len(), 4);
    assert_eq!(builder.uvs.len(), 4);
    assert_eq!(builder.indexes, vec![0, 1, 2, 2, 3, 0]);
    // PosX template (1,0,0), (1,1,0), (1,1,1), (1,0,1), shifted by (2,3,4)
    assert_eq!(builder.positions, vec![(3, 3, 4), (3, 4, 4), (3, 4, 5), (3, 3, 5)]);
    assert_eq!(builder.normals, vec![(1, 0, 0); 4]);

    // a second face's indices are shifted past the four existing vertices
    builder.add_mesh_data(AbsoluteBlockFaceDirection::PosY);
    assert_eq!(builder.indexes, vec![0, 1, 2, 2, 3, 0, 4, 5, 6, 6, 7, 4]);
    assert_eq!(builder.positions.len(), 8);
    let mesh = builder.build();
    assert!(!mesh.is_empty());
    assert_eq!(mesh.positions.len(), 8);
    assert_eq!(mesh.indexes.len(), 12);
}

#[test]
fn face_index_template() {
    assert_eq!(AbsoluteBlockFaceDirection::get_indexes(), vec![0, 1, 2, 2, 3, 0]);
}
