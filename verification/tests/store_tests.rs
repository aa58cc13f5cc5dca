use voxel_terrain::block::{Block, BlockType};
use voxel_terrain::chunk::Chunk;
use voxel_terrain::coords::{ChunkBlockPos, ChunkPos};
use voxel_terrain::world::World;

#[test]
fn new_chunk_is_empty_and_keeps_metadata() {
    let chunk: Chunk<u32> = Chunk::new(7);
    assert_eq!(*chunk.get_metadata(), 7);
    for i in [0usize, 1, 100, 4095] {
        let p = ChunkBlockPos::from_scan_index(i);
        assert!(chunk.get(&p).is_none());
    }
}

#[test]
fn set_then_get_cell() {
    let mut chunk: Chunk<()> = Chunk::new(());
    let p = ChunkBlockPos::try_new(3, 4, 5).unwrap();
    chunk.set(&p, Some(Block::new(BlockType::GRASS)));
    assert!(chunk.get(&p).is_some());
    assert_eq!(chunk.get(&p).unwrap().get_block_type(), BlockType::GRASS);
    // every other cell is untouched
    let q = ChunkBlockPos::try_new(3, 4, 6).unwrap();
    assert!(chunk.get(&q).is_none());
    chunk.set(&p, None);
    assert!(chunk.get(&p).is_none());
}

#[test]
fn insert_then_contains_and_get() {
    let mut world: World<u8> = World::new();
    let p = ChunkPos::new(1, -2, 3);
    assert!(!world.is_chunk_loaded(&p));
    assert!(world.get_chunk(&p).is_none());

    let mut chunk: Chunk<u8> = Chunk::new(42);
    let cell = ChunkBlockPos::try_new(0, 0, 1).unwrap();
    chunk.set(&cell, Some(Block::new(BlockType::BEDROCK)));
    world.add_chunk(p, chunk);

    assert!(world.is_chunk_loaded(&p));
    let got = world.get_chunk(&p).unwrap();
    assert_eq!(*got.get_metadata(), 42);
    assert_eq!(got.get(&cell).unwrap().get_block_type(), BlockType::BEDROCK);
}

#[test]
fn remove_then_absent() {
    let mut world: World<()> = World::new();
    let p = ChunkPos::new(0, 0, 0);
    world.add_chunk(p, Chunk::new(()));
    assert!(world.is_chunk_loaded(&p));
    world.remove_chunk(&p);
    assert!(!world.is_chunk_loaded(&p));
    assert!(world.get_chunk(&p).is_none());
}

#[test]
fn keys_snapshot_lists_loaded_positions() {
    let mut world: World<()> = World::new();
    let a = ChunkPos::new(0, 0, 0);
    let b = ChunkPos::new(5, 5, 5);
    let c = ChunkPos::new(-1, 2, 3);
    world.add_chunk(a, Chunk::new(()));
    world.add_chunk(b, Chunk::new(()));
    world.add_chunk(c, Chunk::new(()));
    world.remove_chunk(&b);
    let keys = world.get_chunk_keys();
    assert_eq!(keys.len(), 2);
    assert!(keys.contains(&a));
    assert!(keys.contains(&c));
    assert!(!keys.contains(&b));
}

#[test]
fn unrelated_entries_survive_insert_and_remove() {
    let mut world: World<i32> = World::new();
    let a = ChunkPos::new(1, 0, 0);
    let b = ChunkPos::new(2, 0, 0);
    world.add_chunk(a, Chunk::new(-1));
    world.add_chunk(b, Chunk::new(-2));
    world.remove_chunk(&a);
    assert!(world.is_chunk_loaded(&b));
    assert_eq!(*world.get_chunk(&b).unwrap().get_metadata(), -2);
}
