use voxel_terrain::block::BlockType;
use voxel_terrain::chunk::Chunk;
use voxel_terrain::coords::ChunkBlockPos;
use voxel_terrain::world::{chunk_from_heights, WORLD_HEIGHT, WORLD_HEIGHT_CHUNKS};

#[test]
fn world_height_constants() {
    assert_eq!(WORLD_HEIGHT, 256);
    assert_eq!(WORLD_HEIGHT_CHUNKS, 16);
}

#[test]
fn zero_heights_give_empty_chunk() {
    let heights = vec![0i32; 256];
    let chunk: Chunk<()> = chunk_from_heights(&heights, 0, ());
    for i in 0..4096 {
        assert!(chunk.get(&ChunkBlockPos::from_scan_index(i)).is_none());
    }
}

#[test]
fn full_heights_fill_chunk_with_grass() {
    let heights = vec![16i32; 256];
    let chunk: Chunk<()> = chunk_from_heights(&heights, 0, ());
    for i in 0..4096 {
        let cell = chunk.get(&ChunkBlockPos::from_scan_index(i));
        assert_eq!(cell.unwrap().get_block_type(), BlockType::GRASS);
    }
}

#[test]
fn column_fills_up_to_its_height() {
    let mut heights = vec![0i32; 256];
    // column (x, y) = (2, 3), x-major: index x * 16 + y
    heights[2 * 16 + 3] = 5;
    let chunk: Chunk<()> = chunk_from_heights(&heights, 0, ());
    for z in 0..16u32 {
        let p = ChunkBlockPos::try_new(2, 3, z).unwrap();
        assert_eq!(chunk.get(&p).is_some(), z < 5);
    }
    assert!(chunk.get(&ChunkBlockPos::try_new(2, 4, 0).unwrap()).is_none());
}

#[test]
fn higher_chunk_layer_shifts_the_surface() {
    let heights = vec![20i32; 256];
    // the chunk one layer up only gets the part of each column above z = 16
    let chunk: Chunk<()> = chunk_from_heights(&heights, 1, ());
    for z in 0..16u32 {
        let p = ChunkBlockPos::try_new(0, 0, z).unwrap();
        assert_eq!(chunk.get(&p).is_some(), z < 4);
    }
}

#[test]
fn negative_surplus_leaves_layer_empty() {
    let heights = vec![3i32; 256];
    let chunk: Chunk<()> = chunk_from_heights(&heights, 2, ());
    for i in 0..4096 {
        assert!(chunk.get(&ChunkBlockPos::from_scan_index(i)).is_none());
    }
}

#[test]
fn metadata_is_kept() {
    let heights = vec![1i32; 256];
    let chunk: Chunk<&str> = chunk_from_heights(&heights, 0, "layer");
    assert_eq!(*chunk.get_metadata(), "layer");
}
