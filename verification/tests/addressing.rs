use vx_core::chunk::{ChunkBuffer, ChunkKey, WorldPoint};
use vx_core::shape::{
    coord_of, index_of, LocalCoord, CHUNK_LENGTH, PADDED_LENGTH, PADDED_VOLUME, SLICE_AREA,
};
use vx_core::voxel::{is_empty, Voxel, EMPTY_ID};

#[test]
fn constants_agree() {
    assert_eq!(PADDED_LENGTH, CHUNK_LENGTH + 2);
    assert_eq!(PADDED_VOLUME, (PADDED_LENGTH * PADDED_LENGTH * PADDED_LENGTH) as usize);
    assert_eq!(SLICE_AREA, (CHUNK_LENGTH * CHUNK_LENGTH) as usize);
    assert_eq!(vx_core::mesher::SWEEP_LAYERS, 6 * CHUNK_LENGTH as usize);
}

#[test]
fn index_of_is_row_major_with_x_fastest() {
    assert_eq!(index_of(LocalCoord::new(0, 0, 0)), 0);
    assert_eq!(index_of(LocalCoord::new(1, 0, 0)), 1);
    assert_eq!(index_of(LocalCoord::new(0, 1, 0)), 18);
    assert_eq!(index_of(LocalCoord::new(0, 0, 1)), 324);
    assert_eq!(index_of(LocalCoord::new(1, 2, 3)), 1009);
    assert_eq!(index_of(LocalCoord::new(17, 17, 17)), PADDED_VOLUME - 1);
}

#[test]
fn index_of_is_injective_and_onto() {
    let mut seen = vec![false; PADDED_VOLUME];
    for z in 0..PADDED_LENGTH {
        for y in 0..PADDED_LENGTH {
            for x in 0..PADDED_LENGTH {
                let i = index_of(LocalCoord::new(x, y, z));
                assert!(i < PADDED_VOLUME);
                assert!(!seen[i]);
                seen[i] = true;
            }
        }
    }
    assert!(seen.iter().all(|s| *s));
}

#[test]
fn coord_of_inverts_index_of() {
    for i in 0..PADDED_VOLUME {
        let c = coord_of(i);
        assert!(c.is_in_bounds());
        assert_eq!(index_of(c), i);
    }
    assert_eq!(coord_of(1009), LocalCoord::new(1, 2, 3));
}

#[test]
fn bounds_check_matches_padded_length() {
    assert!(LocalCoord::new(17, 0, 17).is_in_bounds());
    assert!(!LocalCoord::new(18, 0, 0).is_in_bounds());
    assert!(!LocalCoord::new(0, 18, 0).is_in_bounds());
    assert!(!LocalCoord::new(0, 0, 18).is_in_bounds());
}

#[test]
fn voxel_emptiness() {
    assert_eq!(EMPTY_ID, 0);
    assert!(Voxel::empty().is_empty());
    assert!(is_empty(Voxel::new(0)));
    assert!(!is_empty(Voxel::new(1)));
    assert!(!Voxel::new(255).is_empty());
    assert_eq!(Voxel::new(9).id(), 9);
    assert_eq!(Voxel::new(3), Voxel(3));
    assert_ne!(Voxel::new(3), Voxel::new(4));
}

#[test]
fn chunk_location_scales_by_chunk_length() {
    assert_eq!(ChunkKey::new(0, 0, 0).location(), WorldPoint { x: 0, y: 0, z: 0 });
    assert_eq!(ChunkKey::new(-1, 2, 3).location(), WorldPoint { x: -16, y: 32, z: 48 });
    assert_eq!(
        ChunkKey::new(i32::MIN, i32::MAX, 1).location(),
        WorldPoint { x: -34359738368, y: 34359738352, z: 16 }
    );
}

#[test]
fn buffer_starts_empty_and_keeps_what_is_set() {
    let mut b = ChunkBuffer::new();
    for i in 0..PADDED_VOLUME {
        assert!(b.at(i).is_empty());
    }
    b.set(LocalCoord::new(1, 2, 3), Voxel::new(5));
    assert_eq!(b.get(LocalCoord::new(1, 2, 3)), Voxel::new(5));
    assert_eq!(b.at(1009), Voxel::new(5));
    for i in 0..PADDED_VOLUME {
        if i != 1009 {
            assert!(b.at(i).is_empty());
        }
    }
    let copy = b.duplicate();
    b.set(LocalCoord::new(1, 2, 3), Voxel::empty());
    assert_eq!(copy.get(LocalCoord::new(1, 2, 3)), Voxel::new(5));
    assert!(b.get(LocalCoord::new(1, 2, 3)).is_empty());
}

#[test]
fn buffer_filled_and_from_cells() {
    let b = ChunkBuffer::filled(Voxel::new(4));
    for i in 0..PADDED_VOLUME {
        assert_eq!(b.at(i), Voxel::new(4));
    }
    assert!(ChunkBuffer::from_cells(vec![Voxel::new(1); PADDED_VOLUME]).is_some());
    assert!(ChunkBuffer::from_cells(vec![Voxel::new(1); PADDED_VOLUME - 1]).is_none());
    assert!(ChunkBuffer::from_cells(vec![Voxel::new(1); PADDED_VOLUME + 1]).is_none());
    assert!(ChunkBuffer::from_cells(Vec::new()).is_none());
    let mut cells = vec![Voxel::empty(); PADDED_VOLUME];
    cells[7] = Voxel::new(2);
    let b = ChunkBuffer::from_cells(cells).unwrap();
    assert_eq!(b.at(7), Voxel::new(2));
    assert_eq!(b.get(LocalCoord::new(7, 0, 0)), Voxel::new(2));
}
