use vx_core::chunk::{ChunkBuffer, ChunkKey};
use vx_core::shape::LocalCoord;
use vx_core::storage::VoxelMap;
use vx_core::voxel::Voxel;

#[test]
fn empty_map_has_no_chunks() {
    let m = VoxelMap::new();
    assert!(!m.is_loaded(ChunkKey::new(0, 0, 0)));
    assert!(m.buffer_at(ChunkKey::new(0, 0, 0)).is_none());
}

#[test]
fn insert_then_read_back() {
    let mut m = VoxelMap::new();
    let k = ChunkKey::new(1, -2, 3);
    assert!(m.insert(k, ChunkBuffer::filled(Voxel::new(6))).is_none());
    assert!(m.is_loaded(k));
    let b = m.buffer_at(k).unwrap();
    assert_eq!(b.get(LocalCoord::new(4, 5, 6)), Voxel::new(6));
    assert!(m.buffer_at(ChunkKey::new(1, -2, 4)).is_none());
    assert!(m.buffer_at(ChunkKey::new(-2, 1, 3)).is_none());
}

#[test]
fn insert_replaces_and_returns_previous() {
    let mut m = VoxelMap::new();
    let k = ChunkKey::new(0, 0, 0);
    m.insert(k, ChunkBuffer::filled(Voxel::new(1)));
    let prev = m.insert(k, ChunkBuffer::filled(Voxel::new(2))).unwrap();
    assert_eq!(prev.at(0), Voxel::new(1));
    assert_eq!(m.buffer_at(k).unwrap().at(0), Voxel::new(2));
}

#[test]
fn remove_unloads() {
    let mut m = VoxelMap::new();
    let a = ChunkKey::new(0, 0, 0);
    let b = ChunkKey::new(0, 0, 1);
    m.insert(a, ChunkBuffer::filled(Voxel::new(1)));
    m.insert(b, ChunkBuffer::filled(Voxel::new(2)));
    let gone = m.remove(a).unwrap();
    assert_eq!(gone.at(0), Voxel::new(1));
    assert!(!m.is_loaded(a));
    assert!(m.is_loaded(b));
    assert!(m.remove(a).is_none());
    assert_eq!(m.buffer_at(b).unwrap().at(0), Voxel::new(2));
}

#[test]
fn keys_with_extreme_components_stay_apart() {
    let mut m = VoxelMap::new();
    let keys = [
        ChunkKey::new(i32::MIN, i32::MIN, i32::MIN),
        ChunkKey::new(i32::MAX, i32::MAX, i32::MAX),
        ChunkKey::new(i32::MIN, 0, i32::MAX),
        ChunkKey::new(0, 0, -1),
        ChunkKey::new(0, -1, 0),
        ChunkKey::new(-1, 0, 0),
        ChunkKey::new(0, 0, 0),
    ];
    for (i, k) in keys.iter().enumerate() {
        assert!(m.insert(*k, ChunkBuffer::filled(Voxel::new(i as u8 + 1))).is_none());
    }
    for (i, k) in keys.iter().enumerate() {
        assert_eq!(m.buffer_at(*k).unwrap().at(0), Voxel::new(i as u8 + 1));
    }
}

#[test]
fn mutate_edits_a_loaded_chunk() {
    let mut m = VoxelMap::new();
    let k = ChunkKey::new(2, 2, 2);
    m.insert(k, ChunkBuffer::new());
    let found = m.mutate(k, |mut b: ChunkBuffer| {
        b.set(LocalCoord::new(3, 3, 3), Voxel::new(8));
        b
    });
    assert!(found);
    assert_eq!(m.buffer_at(k).unwrap().get(LocalCoord::new(3, 3, 3)), Voxel::new(8));
    assert!(m.buffer_at(k).unwrap().get(LocalCoord::new(3, 3, 4)).is_empty());
}

#[test]
fn mutate_skips_an_unloaded_chunk() {
    let mut m = VoxelMap::new();
    let mut called = false;
    let found = m.mutate(ChunkKey::new(9, 9, 9), |b: ChunkBuffer| {
        called = true;
        b
    });
    assert!(!found);
    assert!(!called);
    assert!(!m.is_loaded(ChunkKey::new(9, 9, 9)));
}
