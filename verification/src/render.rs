//! The rendering stage of a chunked world: its configuration, the order of
//! its steps, and the two steps that feed the scheduler.

use vstd::prelude::*;
use crate::shape::CHUNK_LENGTH;
use crate::chunk::{ChunkKey, WorldPoint};
use crate::scheduler::{Scheduler, SchedulerView};

verus! {

/// Number of chunks that are meshed per tick unless a host says otherwise.
pub const DEFAULT_MESHES_PER_FRAME: usize = 16;

/// A configuration that the rendering stage refuses.
#[derive(Clone, Copy, PartialEq, Eq, Structural, Debug, Hash)]
pub enum ConfigError {
    /// The budget allows no chunk per tick.
    ZeroBudget,
    /// The pool of working storage serves no worker.
    NoWorkers,
}

/// The largest number of chunks that one tick may mesh.
#[derive(Clone, Copy, PartialEq, Eq, Structural, Debug, Hash)]
pub struct WorldChunksMeshingFrameBudget {
    pub meshes_per_frame: usize,
}

impl WorldChunksMeshingFrameBudget {
    /// A budget is usable when it allows at least one chunk per tick.
    pub open spec fn valid(self) -> bool {
        self.meshes_per_frame >= 1
    }

    /// A budget of `meshes_per_frame` chunks per tick. A budget of zero is
    /// refused.
    pub fn new(meshes_per_frame: usize) -> (r: Result<WorldChunksMeshingFrameBudget, ConfigError>)
        ensures
            r is Ok <==> meshes_per_frame >= 1,
            r matches Ok(b) ==> b.meshes_per_frame == meshes_per_frame && b.valid(),
            r matches Err(e) ==> e == ConfigError::ZeroBudget,
    {
        if meshes_per_frame == 0 {
            Err(ConfigError::ZeroBudget)
        } else {
            Ok(WorldChunksMeshingFrameBudget { meshes_per_frame })
        }
    }

    /// Checks the budget: zero chunks per tick is refused.
    pub fn validate(&self) -> (r: Result<(), ConfigError>)
        ensures
            r is Ok <==> self.valid(),
            r matches Err(e) ==> e == ConfigError::ZeroBudget,
    {
        if self.meshes_per_frame == 0 {
            Err(ConfigError::ZeroBudget)
        } else {
            Ok(())
        }
    }
}

impl Default for WorldChunksMeshingFrameBudget {
    fn default() -> (b: WorldChunksMeshingFrameBudget)
        ensures
            b.meshes_per_frame == DEFAULT_MESHES_PER_FRAME,
            b.valid(),
    {
        WorldChunksMeshingFrameBudget { meshes_per_frame: DEFAULT_MESHES_PER_FRAME }
    }
}

/// The steps of the rendering stage.
#[derive(Clone, Copy, PartialEq, Eq, Structural, Debug, Hash)]
pub enum ChunkRenderingSystem {
    /// Gives newly loaded chunks what they need to be drawn.
    Prepare,
    /// Marks chunks whose content changed for meshing.
    QueueMeshing,
    /// Meshes marked chunks within the budget.
    MeshChunks,
}

impl ChunkRenderingSystem {
    /// Place of the step in the stage.
    pub open spec fn position(self) -> int {
        match self {
            ChunkRenderingSystem::Prepare => 0,
            ChunkRenderingSystem::QueueMeshing => 1,
            ChunkRenderingSystem::MeshChunks => 2,
        }
    }

    /// The step that must have run before this one, if there is any.
    pub fn runs_after(self) -> (r: Option<ChunkRenderingSystem>)
        ensures
            r is None <==> self == ChunkRenderingSystem::Prepare,
            r matches Some(p) ==> p.position() + 1 == self.position(),
    {
        match self {
            ChunkRenderingSystem::Prepare => None,
            ChunkRenderingSystem::QueueMeshing => Some(ChunkRenderingSystem::Prepare),
            ChunkRenderingSystem::MeshChunks => Some(ChunkRenderingSystem::QueueMeshing),
        }
    }
}

/// Where a chunk stands in the world: the position of its minimum corner and
/// the length of its edges, in cells.
#[derive(Clone, Copy, PartialEq, Eq, Structural, Debug, Hash)]
pub struct ChunkPlacement {
    pub coord: ChunkKey,
    pub translation: WorldPoint,
    pub extent: u32,
}

/// The placement of the chunk at `coord`.
pub open spec fn placement_of(coord: ChunkKey) -> ChunkPlacement {
    ChunkPlacement { coord, translation: coord.spec_location(), extent: CHUNK_LENGTH }
}

/// The state of a scheduler after each of `coords` was marked dirty, one
/// after another.
pub open spec fn mark_all(s: SchedulerView, coords: Seq<ChunkKey>) -> SchedulerView
    decreases coords.len(),
{
    if coords.len() == 0 {
        s
    } else {
        mark_all(s, coords.drop_last()).mark(coords.last())
    }
}

/// Marking a list of chunks leaves dirty what was dirty, makes every chunk
/// of the list dirty, and changes nothing else about the scheduler.
pub proof fn lemma_mark_all(s: SchedulerView, coords: Seq<ChunkKey>)
    ensures
        forall|c: ChunkKey| s.dirty.contains(c) ==> mark_all(s, coords).dirty.contains(c),
        forall|i: int| 0 <= i < coords.len() ==> mark_all(s, coords).dirty.contains(coords[i]),
        forall|c: ChunkKey|
            mark_all(s, coords).dirty.contains(c) ==> s.dirty.contains(c) || coords.contains(c),
        mark_all(s, coords).in_flight == s.in_flight,
        mark_all(s, coords).budget == s.budget,
        mark_all(s, coords).workers == s.workers,
    decreases coords.len(),
{
    if coords.len() > 0 {
        let init = coords.drop_last();
        let last = coords.last();
        let mid = mark_all(s, init);
        let end = mid.mark(last);
        lemma_mark_all(s, init);
        if !mid.dirty.contains(last) {
            assert(end.dirty[mid.dirty.len() as int] == last);
        }
        assert forall|c: ChunkKey| mid.dirty.contains(c) implies end.dirty.contains(c) by {
            let i = choose|i: int| 0 <= i < mid.dirty.len() && #[trigger] mid.dirty[i] == c;
            assert(end.dirty[i] == c);
        }
        assert forall|i: int| 0 <= i < coords.len() implies end.dirty.contains(coords[i]) by {
            if i < init.len() {
                assert(init[i] == coords[i]);
            }
        }
        assert forall|c: ChunkKey| end.dirty.contains(c) implies s.dirty.contains(c)
            || coords.contains(c) by {
            let i = choose|i: int| 0 <= i < end.dirty.len() && #[trigger] end.dirty[i] == c;
            if i < mid.dirty.len() {
                assert(mid.dirty[i] == c);
                assert(mid.dirty.contains(c));
                if init.contains(c) {
                    let j = choose|j: int| 0 <= j < init.len() && #[trigger] init[j] == c;
                    assert(coords[j] == c);
                }
            } else {
                assert(coords[coords.len() - 1] == c);
            }
        }
    }
}

/// Gives newly loaded chunks what they need to be drawn: for each chunk its
/// placement in the world, in the order given, and a mark that it needs
/// meshing.
pub fn prepare_chunks(scheduler: &mut Scheduler, added: &Vec<ChunkKey>) -> (placed: Vec<
    ChunkPlacement,
>)
    requires
        old(scheduler).wf(),
    ensures
        final(scheduler).wf(),
        final(scheduler)@ == mark_all(old(scheduler)@, added@),
        placed@.len() == added@.len(),
        forall|i: int| 0 <= i < added@.len() ==> placed@[i] == placement_of(added@[i]),
        forall|i: int| 0 <= i < added@.len() ==> final(scheduler)@.dirty.contains(added@[i]),
{
    let mut placed: Vec<ChunkPlacement> = Vec::with_capacity(added.len());
    let mut i: usize = 0;
    proof {
        assert(added@.take(0) =~= Seq::<ChunkKey>::empty());
    }
    while i < added.len()
        invariant
            i <= added@.len(),
            scheduler.wf(),
            scheduler@ == mark_all(old(scheduler)@, added@.take(i as int)),
            placed@.len() == i,
            forall|j: int| 0 <= j < i ==> placed@[j] == placement_of(added@[j]),
        decreases added@.len() - i,
    {
        let coord = added[i];
        proof {
            assert(added@.take(i + 1).drop_last() =~= added@.take(i as int));
            assert(added@.take(i + 1).last() == coord);
        }
        scheduler.on_update(coord);
        placed.push(ChunkPlacement { coord, translation: coord.location(), extent: CHUNK_LENGTH });
        i = i + 1;
    }
    proof {
        assert(added@.take(i as int) =~= added@);
        lemma_mark_all(old(scheduler)@, added@);
    }
    placed
}

/// Marks every chunk of `updates` for meshing. A chunk that is named twice,
/// or that is dirty already, is marked once.
pub fn queue_meshing(scheduler: &mut Scheduler, updates: &Vec<ChunkKey>)
    requires
        old(scheduler).wf(),
    ensures
        final(scheduler).wf(),
        final(scheduler)@ == mark_all(old(scheduler)@, updates@),
        forall|i: int| 0 <= i < updates@.len() ==> final(scheduler)@.dirty.contains(updates@[i]),
{
    let mut i: usize = 0;
    proof {
        assert(updates@.take(0) =~= Seq::<ChunkKey>::empty());
    }
    while i < updates.len()
        invariant
            i <= updates@.len(),
            scheduler.wf(),
            scheduler@ == mark_all(old(scheduler)@, updates@.take(i as int)),
        decreases updates@.len() - i,
    {
        let coord = updates[i];
        proof {
            assert(updates@.take(i + 1).drop_last() =~= updates@.take(i as int));
            assert(updates@.take(i + 1).last() == coord);
        }
        scheduler.on_update(coord);
        i = i + 1;
    }
    proof {
        assert(updates@.take(i as int) =~= updates@);
        lemma_mark_all(old(scheduler)@, updates@);
    }
}

} // verus!
