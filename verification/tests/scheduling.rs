use vx_core::chunk::{ChunkBuffer, ChunkKey, WorldPoint};
use vx_core::render::{
    prepare_chunks, queue_meshing, ChunkRenderingSystem, ConfigError,
    WorldChunksMeshingFrameBudget, DEFAULT_MESHES_PER_FRAME,
};
use vx_core::scheduler::Scheduler;
use vx_core::scratch::ScratchPool;
use vx_core::shape::LocalCoord;
use vx_core::storage::VoxelMap;
use vx_core::voxel::Voxel;

fn scheduler(budget: usize, workers: usize) -> Scheduler {
    let pool = ScratchPool::new(workers).unwrap();
    Scheduler::new(WorldChunksMeshingFrameBudget::new(budget).unwrap(), pool).unwrap()
}

fn key(i: i32) -> ChunkKey {
    ChunkKey::new(i, 0, -i)
}

fn one_voxel_chunk(id: u8) -> ChunkBuffer {
    let mut b = ChunkBuffer::new();
    b.set(LocalCoord::new(1, 1, 1), Voxel::new(id));
    b
}

#[test]
fn default_budget_is_sixteen() {
    assert_eq!(DEFAULT_MESHES_PER_FRAME, 16);
    assert_eq!(WorldChunksMeshingFrameBudget::default().meshes_per_frame, 16);
    assert!(WorldChunksMeshingFrameBudget::default().validate().is_ok());
}

#[test]
fn zero_budget_is_refused() {
    assert_eq!(WorldChunksMeshingFrameBudget::new(0), Err(ConfigError::ZeroBudget));
    assert_eq!(
        WorldChunksMeshingFrameBudget { meshes_per_frame: 0 }.validate(),
        Err(ConfigError::ZeroBudget)
    );
    let pool = ScratchPool::new(1).unwrap();
    let r = Scheduler::new(WorldChunksMeshingFrameBudget { meshes_per_frame: 0 }, pool);
    assert!(matches!(r, Err(ConfigError::ZeroBudget)));
    assert_eq!(WorldChunksMeshingFrameBudget::new(3).unwrap().meshes_per_frame, 3);
}

#[test]
fn pool_without_workers_is_refused() {
    assert!(matches!(ScratchPool::new(0), Err(ConfigError::NoWorkers)));
    assert_eq!(ScratchPool::new(3).unwrap().worker_count(), 3);
}

#[test]
fn set_budget_rejects_zero_and_keeps_old() {
    let mut s = scheduler(4, 1);
    assert_eq!(s.budget().meshes_per_frame, 4);
    assert_eq!(
        s.set_budget(WorldChunksMeshingFrameBudget { meshes_per_frame: 0 }),
        Err(ConfigError::ZeroBudget)
    );
    assert_eq!(s.budget().meshes_per_frame, 4);
    assert_eq!(s.set_budget(WorldChunksMeshingFrameBudget { meshes_per_frame: 7 }), Ok(()));
    assert_eq!(s.budget().meshes_per_frame, 7);
}

#[test]
fn on_update_is_idempotent() {
    let mut s = scheduler(4, 1);
    assert!(s.on_update(key(1)));
    assert!(!s.on_update(key(1)));
    assert!(s.on_update(key(2)));
    assert!(!s.on_update(key(1)));
    assert_eq!(s.dirty_count(), 2);
    assert!(s.is_dirty(key(1)));
    assert!(s.is_dirty(key(2)));
    assert!(!s.is_dirty(key(3)));
}

#[test]
fn tick_applies_budget_and_leaves_the_rest_dirty() {
    let mut chunks = VoxelMap::new();
    let mut s = scheduler(3, 2);
    for i in 0..8 {
        chunks.insert(key(i), one_voxel_chunk(i as u8 + 1));
        s.on_update(key(i));
    }
    let done = s.tick(&chunks);
    assert_eq!(done.len(), 3);
    assert_eq!(s.dirty_count(), 5);
    for i in 0..3 {
        assert_eq!(done[i as usize].coord, key(i));
        assert_eq!(done[i as usize].mesh.vertex_count(), 24);
        assert!(!s.is_dirty(key(i)));
        assert!(!s.is_in_flight(key(i)));
    }
    for i in 3..8 {
        assert!(s.is_dirty(key(i)));
    }
    assert!(s.is_idle());
    let done = s.tick(&chunks);
    assert_eq!(done.len(), 3);
    assert_eq!(done[0].coord, key(3));
    assert_eq!(s.dirty_count(), 2);
    let done = s.tick(&chunks);
    assert_eq!(done.len(), 2);
    assert_eq!(s.dirty_count(), 0);
    let done = s.tick(&chunks);
    assert_eq!(done.len(), 0);
}

#[test]
fn tick_with_budget_above_dirty_count_takes_all() {
    let mut chunks = VoxelMap::new();
    let mut s = scheduler(16, 1);
    for i in 0..5 {
        chunks.insert(key(i), one_voxel_chunk(1));
        s.on_update(key(i));
    }
    assert_eq!(s.tick(&chunks).len(), 5);
    assert_eq!(s.dirty_count(), 0);
}

#[test]
fn unloaded_chunk_is_passed_over() {
    let mut chunks = VoxelMap::new();
    let mut s = scheduler(4, 1);
    chunks.insert(key(0), one_voxel_chunk(1));
    chunks.insert(key(2), one_voxel_chunk(1));
    s.on_update(key(0));
    s.on_update(key(1));
    s.on_update(key(2));
    let done = s.tick(&chunks);
    assert_eq!(done.len(), 2);
    assert_eq!(done[0].coord, key(0));
    assert_eq!(done[1].coord, key(2));
    assert_eq!(s.dirty_count(), 0);
    assert!(!s.is_in_flight(key(1)));
    chunks.insert(key(1), one_voxel_chunk(1));
    s.on_update(key(1));
    let done = s.tick(&chunks);
    assert_eq!(done.len(), 1);
    assert_eq!(done[0].coord, key(1));
}

#[test]
fn select_puts_chunks_in_flight_and_complete_clears_them() {
    let mut s = scheduler(2, 1);
    for i in 0..4 {
        s.on_update(key(i));
    }
    let sel = s.select();
    assert_eq!(sel, vec![key(0), key(1)]);
    assert!(s.is_in_flight(key(0)));
    assert!(s.is_in_flight(key(1)));
    assert!(!s.is_in_flight(key(2)));
    assert!(!s.is_dirty(key(0)));
    assert!(s.is_dirty(key(2)));
    assert!(!s.is_idle());
    assert!(s.select().is_empty());
    assert_eq!(s.dirty_count(), 2);
    assert!(s.complete(key(0)));
    assert!(!s.complete(key(0)));
    assert!(!s.is_idle());
    assert!(s.complete(key(1)));
    assert!(s.is_idle());
    assert_eq!(s.select(), vec![key(2), key(3)]);
}

#[test]
fn mark_while_in_flight_stays_dirty_after_completion() {
    let mut s = scheduler(1, 1);
    s.on_update(key(5));
    let sel = s.select();
    assert_eq!(sel, vec![key(5)]);
    assert!(!s.is_dirty(key(5)));
    assert!(s.on_update(key(5)));
    assert!(s.is_dirty(key(5)));
    assert!(s.is_in_flight(key(5)));
    assert!(s.complete(key(5)));
    assert!(s.is_dirty(key(5)));
    assert!(!s.is_in_flight(key(5)));
    assert_eq!(s.select(), vec![key(5)]);
}

#[test]
fn tick_meshes_what_the_map_holds() {
    let mut chunks = VoxelMap::new();
    let mut s = scheduler(2, 3);
    chunks.insert(key(0), ChunkBuffer::new());
    chunks.insert(key(1), one_voxel_chunk(9));
    s.on_update(key(0));
    s.on_update(key(1));
    let done = s.tick(&chunks);
    assert_eq!(done.len(), 2);
    assert!(done[0].mesh.is_empty());
    assert_eq!(done[1].mesh.vertex_count(), 24);
    assert_eq!(done[1].mesh.index_count(), 36);
    assert_eq!(done[1].mesh.triangle_count(), 12);
}

#[test]
fn prepare_chunks_places_and_marks() {
    let mut s = scheduler(4, 1);
    let added = vec![ChunkKey::new(1, 2, 3), ChunkKey::new(-1, 0, 0), ChunkKey::new(1, 2, 3)];
    let placed = prepare_chunks(&mut s, &added);
    assert_eq!(placed.len(), 3);
    assert_eq!(placed[0].coord, ChunkKey::new(1, 2, 3));
    assert_eq!(placed[0].translation, WorldPoint { x: 16, y: 32, z: 48 });
    assert_eq!(placed[0].extent, 16);
    assert_eq!(placed[1].translation, WorldPoint { x: -16, y: 0, z: 0 });
    assert_eq!(placed[2], placed[0]);
    assert_eq!(s.dirty_count(), 2);
    assert!(s.is_dirty(ChunkKey::new(1, 2, 3)));
    assert!(s.is_dirty(ChunkKey::new(-1, 0, 0)));
}

#[test]
fn queue_meshing_marks_each_update_once() {
    let mut s = scheduler(4, 1);
    s.on_update(key(1));
    queue_meshing(&mut s, &vec![key(2), key(1), key(2), key(3)]);
    assert_eq!(s.dirty_count(), 3);
    assert_eq!(s.select(), vec![key(1), key(2), key(3)]);
    queue_meshing(&mut s, &Vec::new());
    assert_eq!(s.dirty_count(), 0);
}

#[test]
fn rendering_steps_run_in_order() {
    assert_eq!(ChunkRenderingSystem::Prepare.runs_after(), None);
    assert_eq!(
        ChunkRenderingSystem::QueueMeshing.runs_after(),
        Some(ChunkRenderingSystem::Prepare)
    );
    assert_eq!(
        ChunkRenderingSystem::MeshChunks.runs_after(),
        Some(ChunkRenderingSystem::QueueMeshing)
    );
}
