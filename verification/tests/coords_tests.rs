use voxel_terrain::coords::{
    AbsoluteBlockPos, ChunkBlockPos, ChunkNeighborDir, ChunkPos, CHUNK_SIZE,
};

#[test]
fn chunk_pos_from_global_coord_min_coord() {
    let pos = ChunkPos::from_global_coord(AbsoluteBlockPos::new(0, 0, 0));
    assert_eq!(pos.x, 0);
    assert_eq!(pos.y, 0);
    assert_eq!(pos.z, 0);
}

#[test]
fn chunk_pos_from_global_coord_inside_chunk_coord() {
    let pos = ChunkPos::from_global_coord(AbsoluteBlockPos::new(1, 2, 15));
    assert_eq!(pos.x, 0);
    assert_eq!(pos.y, 0);
    assert_eq!(pos.z, 0);
}

#[test]
fn chunk_pos_from_global_coord_second_chunk() {
    let pos = ChunkPos::from_global_coord(AbsoluteBlockPos::new(18, 19, 22));
    assert_eq!(pos.x, 1);
    assert_eq!(pos.y, 1);
    assert_eq!(pos.z, 1);
}

#[test]
fn chunk_pos_from_global_coord_negative_coord() {
    let pos = ChunkPos::from_global_coord(AbsoluteBlockPos::new(-1, -2, 2));
    assert_eq!(pos.x, -1);
    assert_eq!(pos.y, -1);
    assert_eq!(pos.z, 0);
}

#[test]
fn negative_one_lands_in_chunk_minus_one_local_fifteen() {
    // Euclidean floor division: global -1 is chunk -1, local 15, not chunk 0.
    let global = AbsoluteBlockPos::new(-1, 0, 0);
    let chunk = ChunkPos::from_global_coord(global);
    assert_eq!(chunk.x, -1);
    let local = chunk.try_global_pos_into_chunk_pos(global).unwrap();
    assert_eq!(local.x(), 15);
    assert_eq!(local.y(), 0);
    assert_eq!(local.z(), 0);
}

#[test]
fn get_absolute_coord_is_lowest_corner() {
    let origin = ChunkPos::new(3, -2, 0).get_absolute_coord();
    assert_eq!(origin.x, 48);
    assert_eq!(origin.y, -32);
    assert_eq!(origin.z, 0);
}

#[test]
fn local_global_round_trip() {
    for &(cx, cy, cz) in &[(0, 0, 0), (-1, -7, 2), (1000, -1000, 15)] {
        let c = ChunkPos::new(cx, cy, cz);
        for &(lx, ly, lz) in &[(0u32, 0u32, 0u32), (15, 15, 15), (1, 2, 3)] {
            let l = ChunkBlockPos::try_new(lx, ly, lz).unwrap();
            let g = c.global_of(&l);
            let back = c.try_global_pos_into_chunk_pos(g).unwrap();
            assert_eq!(back.x(), l.x());
            assert_eq!(back.y(), l.y());
            assert_eq!(back.z(), l.z());
            let c_back = ChunkPos::from_global_coord(g);
            assert_eq!(c_back, c);
        }
    }
}

#[test]
fn local_position_out_of_range_is_rejected() {
    assert!(ChunkBlockPos::try_new(CHUNK_SIZE as u32, 0, 0).is_err());
    assert!(ChunkBlockPos::try_new(0, 16, 0).is_err());
    assert!(ChunkBlockPos::try_new(0, 0, 255).is_err());
    assert!(ChunkBlockPos::try_new(15, 15, 15).is_ok());
    assert!(ChunkBlockPos::try_from_signed(-1, 0, 0).is_err());
    assert!(ChunkBlockPos::try_from_signed(0, 0, 16).is_err());
    assert!(ChunkBlockPos::try_from_signed(0, 15, 0).is_ok());
}

#[test]
fn global_pos_outside_chunk_is_rejected() {
    let c = ChunkPos::new(0, 0, 0);
    assert!(c.try_global_pos_into_chunk_pos(AbsoluteBlockPos::new(16, 0, 0)).is_err());
    assert!(c.try_global_pos_into_chunk_pos(AbsoluteBlockPos::new(0, -1, 0)).is_err());
    assert!(c.try_global_pos_into_chunk_pos(AbsoluteBlockPos::new(15, 15, 15)).is_ok());
}

#[test]
fn six_neighbors_in_fixed_order() {
    let c = ChunkPos::new(2, -3, 4);
    let n = c.get_neighbors();
    assert_eq!(n.len(), 6);
    assert_eq!(n[0], ChunkPos::new(3, -3, 4));
    assert_eq!(n[1], ChunkPos::new(1, -3, 4));
    assert_eq!(n[2], ChunkPos::new(2, -2, 4));
    assert_eq!(n[3], ChunkPos::new(2, -4, 4));
    assert_eq!(n[4], ChunkPos::new(2, -3, 5));
    assert_eq!(n[5], ChunkPos::new(2, -3, 3));
    assert_eq!(c.neighbor(ChunkNeighborDir::NegY), ChunkPos::new(2, -4, 4));
    assert_eq!(c.neighbor(ChunkNeighborDir::PosZ), ChunkPos::new(2, -3, 5));
}

#[test]
fn scan_index_round_trip() {
    for i in [0usize, 1, 15, 16, 255, 256, 4095] {
        let p = ChunkBlockPos::from_scan_index(i);
        assert_eq!(p.index(), i);
    }
    let p = ChunkBlockPos::from_scan_index(4095);
    assert_eq!((p.x(), p.y(), p.z()), (15, 15, 15));
    let p0 = ChunkBlockPos::from_scan_index(0);
    assert_eq!((p0.x(), p0.y(), p0.z()), (0, 0, 0));
    // z is the innermost axis of the scan order
    let p1 = ChunkBlockPos::from_scan_index(1);
    assert_eq!((p1.x(), p1.y(), p1.z()), (0, 0, 1));
    let p16 = ChunkBlockPos::from_scan_index(16);
    assert_eq!((p16.x(), p16.y(), p16.z()), (0, 1, 0));
}
