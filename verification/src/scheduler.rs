//! Dirty tracking and the per-tick meshing budget.
//!
//! With respect to meshing a chunk is clean, dirty or in flight. A change of
//! its content, or its first appearance, makes it dirty. A tick selects the
//! dirty chunks that have waited longest, up to the budget, and puts them in
//! flight; the others stay dirty for a later tick. A chunk leaves flight
//! when its mesh has been handed over, or when it turns out to be unloaded.
//! A chunk that is marked again while it is in flight is dirty again, and
//! stays so when it leaves flight.

use vstd::prelude::*;
use crate::voxel::Voxel;
use crate::chunk::ChunkKey;
use crate::mesh::{Mesh, MeshView};
use crate::mesher::chunk_mesh;
use crate::storage::VoxelMap;
use crate::scratch::ScratchPool;
use crate::render::{ConfigError, WorldChunksMeshingFrameBudget};

verus! {

/// Mathematical content of a scheduler.
pub struct SchedulerView {
    /// The dirty chunks, longest waiting first.
    pub dirty: Seq<ChunkKey>,
    /// The chunks in flight.
    pub in_flight: Set<ChunkKey>,
    /// The largest number of chunks that one tick selects.
    pub budget: nat,
    /// The number of workers whose working storage the scheduler holds.
    pub workers: nat,
}

impl SchedulerView {
    /// No chunk is listed as dirty twice, and budget and worker count are
    /// positive.
    pub open spec fn wf(self) -> bool {
        &&& self.dirty.no_duplicates()
        &&& self.in_flight.finite()
        &&& self.budget >= 1
        &&& self.workers >= 1
    }

    /// No tick is under way.
    pub open spec fn idle(self) -> bool {
        self.in_flight == Set::<ChunkKey>::empty()
    }

    /// The state after `coord` was marked dirty. Marking a dirty chunk
    /// again changes nothing.
    pub open spec fn mark(self, coord: ChunkKey) -> SchedulerView {
        if self.dirty.contains(coord) {
            self
        } else {
            SchedulerView { dirty: self.dirty.push(coord), ..self }
        }
    }

    /// Number of chunks that the next tick selects.
    pub open spec fn quota(self) -> int {
        if !self.idle() {
            0
        } else if self.budget <= self.dirty.len() {
            self.budget as int
        } else {
            self.dirty.len() as int
        }
    }

    /// The chunks that the next tick selects: the longest waiting dirty
    /// chunks, up to the budget. While a tick is under way none is selected.
    pub open spec fn selection(self) -> Seq<ChunkKey> {
        self.dirty.take(self.quota())
    }

    /// The state after the selection was put in flight.
    pub open spec fn after_select(self) -> SchedulerView {
        SchedulerView {
            dirty: self.dirty.skip(self.quota()),
            in_flight: self.in_flight.union(self.selection().to_set()),
            ..self
        }
    }

    /// The state after `coord` left flight.
    pub open spec fn after_complete(self, coord: ChunkKey) -> SchedulerView {
        SchedulerView { in_flight: self.in_flight.remove(coord), ..self }
    }

    /// The state after a whole tick: the selection is no longer dirty, and
    /// nothing new is in flight.
    pub open spec fn after_tick(self) -> SchedulerView {
        SchedulerView { dirty: self.dirty.skip(self.quota()), ..self }
    }
}

/// The mesh of one chunk, as a tick hands it over.
pub struct MeshedChunk {
    pub coord: ChunkKey,
    pub mesh: Mesh,
}

/// Coordinates and mesh contents of a list of results.
pub open spec fn results_view(done: Seq<MeshedChunk>) -> Seq<(ChunkKey, MeshView)> {
    Seq::new(done.len(), |i: int| (done[i].coord, done[i].mesh@))
}

/// What a tick hands over for a selection: for each selected chunk that is
/// loaded, in the order of the selection, its coordinate and its mesh. A
/// selected chunk that is not loaded is passed over.
pub open spec fn tick_results(selection: Seq<ChunkKey>, chunks: Map<ChunkKey, Seq<Voxel>>) -> Seq<
    (ChunkKey, MeshView),
>
    decreases selection.len(),
{
    if selection.len() == 0 {
        Seq::empty()
    } else if chunks.contains_key(selection.last()) {
        tick_results(selection.drop_last(), chunks).push(
            (selection.last(), chunk_mesh(chunks[selection.last()])),
        )
    } else {
        tick_results(selection.drop_last(), chunks)
    }
}

/// Tracks the chunks that need meshing and meshes them tick by tick.
pub struct Scheduler {
    dirty: Vec<ChunkKey>,
    in_flight: Vec<ChunkKey>,
    budget: usize,
    pool: ScratchPool,
}

impl View for Scheduler {
    type V = SchedulerView;

    closed spec fn view(&self) -> SchedulerView {
        SchedulerView {
            dirty: self.dirty@,
            in_flight: self.in_flight@.to_set(),
            budget: self.budget as nat,
            workers: self.pool.workers(),
        }
    }
}

/// Finds the place of `coord` in `keys`.
fn position_of(keys: &Vec<ChunkKey>, coord: ChunkKey) -> (r: Option<usize>)
    ensures
        r matches Some(i) ==> i < keys@.len() && keys@[i as int] == coord,
        r is None ==> !keys@.contains(coord),
{
    let mut i: usize = 0;
    while i < keys.len()
        invariant
            i <= keys@.len(),
            forall|j: int| 0 <= j < i ==> keys@[j] != coord,
        decreases keys@.len() - i,
    {
        if keys[i] == coord {
            return Some(i);
        }
        i = i + 1;
    }
    None
}

/// Copies the keys from place `from` up to place `to`.
fn copy_keys(keys: &Vec<ChunkKey>, from: usize, to: usize) -> (r: Vec<ChunkKey>)
    requires
        from <= to <= keys@.len(),
    ensures
        r@ == keys@.subrange(from as int, to as int),
{
    let mut r: Vec<ChunkKey> = Vec::with_capacity(to - from);
    let mut i: usize = from;
    while i < to
        invariant
            from <= i <= to <= keys@.len(),
            r@ == keys@.subrange(from as int, i as int),
        decreases to - i,
    {
        r.push(keys[i]);
        i = i + 1;
        assert(r@ =~= keys@.subrange(from as int, i as int));
    }
    r
}

/// In a list without repetitions, the elements from place `j` onwards,
/// without the one at place `j`, are the elements from place `j + 1` onwards.
proof fn lemma_skip_to_set(s: Seq<ChunkKey>, j: int)
    requires
        s.no_duplicates(),
        0 <= j < s.len(),
    ensures
        s.skip(j).to_set().remove(s[j]) == s.skip(j + 1).to_set(),
{
    let from_j = s.skip(j);
    let from_next = s.skip(j + 1);
    let a = from_j.to_set().remove(s[j]);
    let b = from_next.to_set();
    assert forall|k: ChunkKey| a.contains(k) <==> b.contains(k) by {
        if a.contains(k) {
            let i = choose|i: int| 0 <= i < from_j.len() && #[trigger] from_j[i] == k;
            assert(i != 0);
            assert(from_next[i - 1] == k);
        }
        if b.contains(k) {
            let i = choose|i: int| 0 <= i < from_next.len() && #[trigger] from_next[i] == k;
            assert(from_j[i + 1] == k);
            assert(s[j + 1 + i] == k);
        }
    }
    assert(a =~= b);
}

impl Scheduler {
    /// The scheduler's lists are consistent and its working storage is ready.
    pub closed spec fn wf(&self) -> bool {
        &&& self.dirty@.no_duplicates()
        &&& self.in_flight@.no_duplicates()
        &&& self.budget >= 1
        &&& self.pool.wf()
    }

    /// The content of a well-formed scheduler is well-formed.
    pub proof fn lemma_view_wf(&self)
        requires
            self.wf(),
        ensures
            self@.wf(),
    {
        vstd::seq_lib::seq_to_set_is_finite(self.in_flight@);
        self.pool.lemma_workers_positive();
    }

    /// A scheduler without dirty chunks. A budget of zero chunks per tick is
    /// refused.
    pub fn new(budget: WorldChunksMeshingFrameBudget, pool: ScratchPool) -> (r: Result<
        Scheduler,
        ConfigError,
    >)
        requires
            pool.wf(),
        ensures
            r is Ok <==> budget.meshes_per_frame >= 1,
            r matches Ok(s) ==> s.wf() && s@.wf() && s@.dirty.len() == 0 && s@.idle() && s@.budget
                == budget.meshes_per_frame && s@.workers == pool.workers(),
            r matches Err(e) ==> e == ConfigError::ZeroBudget,
    {
        if budget.meshes_per_frame == 0 {
            return Err(ConfigError::ZeroBudget);
        }
        let s = Scheduler {
            dirty: Vec::new(),
            in_flight: Vec::new(),
            budget: budget.meshes_per_frame,
            pool,
        };
        proof {
            assert(s@.in_flight =~= Set::<ChunkKey>::empty());
            s.lemma_view_wf();
        }
        Ok(s)
    }

    /// The budget in force.
    pub fn budget(&self) -> (b: WorldChunksMeshingFrameBudget)
        ensures
            b.meshes_per_frame == self@.budget,
    {
        WorldChunksMeshingFrameBudget { meshes_per_frame: self.budget }
    }

    /// Puts a new budget in force. A budget of zero chunks per tick is
    /// refused and leaves the old one in force.
    pub fn set_budget(&mut self, budget: WorldChunksMeshingFrameBudget) -> (r: Result<
        (),
        ConfigError,
    >)
        requires
            old(self).wf(),
        ensures
            final(self).wf(),
            r is Ok <==> budget.meshes_per_frame >= 1,
            r is Ok ==> final(self)@ == (SchedulerView {
                budget: budget.meshes_per_frame as nat,
                ..old(self)@
            }),
            r is Err ==> final(self)@ == old(self)@,
            r matches Err(e) ==> e == ConfigError::ZeroBudget,
    {
        if budget.meshes_per_frame == 0 {
            return Err(ConfigError::ZeroBudget);
        }
        self.budget = budget.meshes_per_frame;
        Ok(())
    }

    /// Number of dirty chunks.
    pub fn dirty_count(&self) -> (n: usize)
        ensures
            n == self@.dirty.len(),
    {
        self.dirty.len()
    }

    /// Whether `coord` is dirty.
    pub fn is_dirty(&self, coord: ChunkKey) -> (b: bool)
        ensures
            b == self@.dirty.contains(coord),
    {
        position_of(&self.dirty, coord).is_some()
    }

    /// Whether `coord` is in flight.
    pub fn is_in_flight(&self, coord: ChunkKey) -> (b: bool)
        ensures
            b == self@.in_flight.contains(coord),
    {
        position_of(&self.in_flight, coord).is_some()
    }

    /// Whether no tick is under way.
    pub fn is_idle(&self) -> (b: bool)
        ensures
            b == self@.idle(),
    {
        proof {
            if self.in_flight@.len() > 0 {
                assert(self.in_flight@.contains(self.in_flight@[0]));
                assert(self@.in_flight.contains(self.in_flight@[0]));
            } else {
                assert(self@.in_flight =~= Set::<ChunkKey>::empty());
            }
        }
        self.in_flight.len() == 0
    }

    /// Marks `coord` dirty. Returns whether it was not dirty before;
    /// marking a dirty chunk again changes nothing.
    pub fn on_update(&mut self, coord: ChunkKey) -> (fresh: bool)
        requires
            old(self).wf(),
        ensures
            final(self).wf(),
            final(self)@ == old(self)@.mark(coord),
            fresh == !old(self)@.dirty.contains(coord),
            final(self)@.dirty.contains(coord),
    {
        match position_of(&self.dirty, coord) {
            Some(_) => false,
            None => {
                self.dirty.push(coord);
                proof {
                    assert(self.dirty@[self.dirty@.len() - 1] == coord);
                }
                true
            },
        }
    }

    /// Starts a tick: takes the longest waiting dirty chunks, up to the
    /// budget, out of the dirty list and puts them in flight. While an
    /// earlier tick is under way nothing is selected.
    pub fn select(&mut self) -> (selected: Vec<ChunkKey>)
        requires
            old(self).wf(),
        ensures
            final(self).wf(),
            selected@ == old(self)@.selection(),
            final(self)@ == old(self)@.after_select(),
            selected@.no_duplicates(),
            selected@.len() <= old(self)@.budget,
            selected@.len() > 0 ==> old(self)@.idle() && final(self)@.in_flight == selected@.to_set(),
    {
        if !self.is_idle() {
            let none: Vec<ChunkKey> = Vec::new();
            proof {
                assert(self@.selection() =~= Seq::<ChunkKey>::empty());
                assert(self@.after_select().dirty =~= self@.dirty);
                assert(self@.after_select().in_flight =~= self@.in_flight);
            }
            return none;
        }
        let n: usize = self.dirty.len();
        let k: usize = if self.budget <= n { self.budget } else { n };
        let selected = copy_keys(&self.dirty, 0, k);
        let rest = copy_keys(&self.dirty, k, n);
        let flying = copy_keys(&selected, 0, k);
        proof {
            assert(selected@ =~= old(self)@.selection());
            assert(rest@ =~= old(self)@.dirty.skip(k as int));
            assert(flying@ =~= selected@);
            assert(old(self)@.in_flight.union(selected@.to_set()) =~= selected@.to_set());
        }
        self.dirty = rest;
        self.in_flight = flying;
        selected
    }

    /// Ends the flight of `coord`: its mesh was handed over, or it turned
    /// out to be unloaded. Returns whether it was in flight. Whether the
    /// chunk is dirty does not change.
    pub fn complete(&mut self, coord: ChunkKey) -> (was: bool)
        requires
            old(self).wf(),
        ensures
            final(self).wf(),
            final(self)@ == old(self)@.after_complete(coord),
            was == old(self)@.in_flight.contains(coord),
    {
        match position_of(&self.in_flight, coord) {
            Some(i) => {
                self.in_flight.remove(i);
                proof {
                    let before = old(self).in_flight@;
                    let after = self.in_flight@;
                    assert(after =~= before.remove(i as int));
                    assert forall|k: ChunkKey|
                        after.to_set().contains(k) <==> before.to_set().remove(coord).contains(
                            k,
                        ) by {
                        if after.to_set().contains(k) {
                            let j = choose|j: int| 0 <= j < after.len() && #[trigger] after[j] == k;
                            if j < i {
                                assert(before[j] == k);
                            } else {
                                assert(before[j + 1] == k);
                            }
                        }
                        if before.to_set().remove(coord).contains(k) {
                            let j = choose|j: int| 0 <= j < before.len() && #[trigger] before[j] == k;
                            if j < i {
                                assert(after[j] == k);
                            } else {
                                assert(after[j - 1] == k);
                            }
                        }
                    }
                    assert(after.to_set() =~= before.to_set().remove(coord));
                }
                true
            },
            None => {
                proof {
                    assert(self@.in_flight.remove(coord) =~= self@.in_flight);
                }
                false
            },
        }
    }

    /// Runs one tick: selects dirty chunks within the budget, meshes each
    /// selected chunk that is loaded in `chunks`, and hands the meshes over
    /// in the order of the selection. A selected chunk that is not loaded is
    /// passed over without a result. Every selected chunk has left flight
    /// when the tick ends, and the chunks beyond the budget are still dirty.
    pub fn tick(&mut self, chunks: &VoxelMap) -> (done: Vec<MeshedChunk>)
        requires
            old(self).wf(),
            chunks.wf(),
        ensures
            final(self).wf(),
            final(self)@ == old(self)@.after_tick(),
            results_view(done@) == tick_results(old(self)@.selection(), chunks@),
            done@.len() <= old(self)@.selection().len() <= old(self)@.budget,
            forall|i: int| 0 <= i < done@.len() ==> (#[trigger] done@[i]).mesh@.wf(),
    {
        let selected = self.select();
        let mut done: Vec<MeshedChunk> = Vec::new();
        if selected.len() == 0 {
            proof {
                assert(self@.dirty =~= old(self)@.dirty);
                assert(self@.in_flight =~= old(self)@.in_flight);
                assert(results_view(done@) =~= tick_results(selected@, chunks@));
            }
            return done;
        }
        let workers: usize = self.pool.worker_count();
        let mut j: usize = 0;
        proof {
            self.pool.lemma_workers_positive();
            assert(selected@.skip(0) =~= selected@);
            assert(results_view(done@) =~= tick_results(selected@.take(0), chunks@));
        }
        while j < selected.len()
            invariant
                self.wf(),
                chunks.wf(),
                workers == self.pool.workers(),
                workers >= 1,
                j <= selected@.len(),
                selected@.no_duplicates(),
                self@.dirty == old(self)@.after_tick().dirty,
                self@.budget == old(self)@.budget,
                self@.workers == old(self)@.workers,
                self@.in_flight == selected@.skip(j as int).to_set(),
                done@.len() <= j,
                results_view(done@) == tick_results(selected@.take(j as int), chunks@),
                forall|i: int| 0 <= i < done@.len() ==> (#[trigger] done@[i]).mesh@.wf(),
            decreases selected@.len() - j,
        {
            let coord = selected[j];
            let ghost before = done@;
            proof {
                assert(selected@.take(j + 1).drop_last() =~= selected@.take(j as int));
                assert(selected@.take(j + 1).last() == coord);
                lemma_skip_to_set(selected@, j as int);
            }
            match chunks.buffer_at(coord) {
                Some(buffer) => {
                    let mesh = self.pool.mesh_on(j % workers, buffer);
                    done.push(MeshedChunk { coord, mesh });
                    proof {
                        assert(results_view(done@) =~= results_view(before).push(
                            (coord, chunk_mesh(chunks@[coord])),
                        ));
                    }
                },
                None => {},
            }
            self.complete(coord);
            j = j + 1;
        }
        proof {
            assert(selected@.take(j as int) =~= selected@);
            assert(selected@.skip(j as int).to_set() =~= Set::<ChunkKey>::empty());
            assert(old(self)@.idle());
        }
        done
    }
}

/// One tick hands over at most as many meshes as it selects, and it selects
/// no more than the budget and no more than there are dirty chunks.
pub proof fn lemma_tick_within_budget(s: SchedulerView, chunks: Map<ChunkKey, Seq<Voxel>>)
    requires
        s.wf(),
    ensures
        tick_results(s.selection(), chunks).len() <= s.selection().len(),
        s.selection().len() <= s.budget,
        s.selection().len() <= s.dirty.len(),
        s.after_tick().dirty.len() == s.dirty.len() - s.selection().len(),
{
    lemma_tick_results_len(s.selection(), chunks);
}

/// A tick hands over one mesh for each selected chunk that is loaded.
pub proof fn lemma_tick_results_len(selection: Seq<ChunkKey>, chunks: Map<ChunkKey, Seq<Voxel>>)
    ensures
        tick_results(selection, chunks).len() <= selection.len(),
        (forall|i: int| 0 <= i < selection.len() ==> chunks.contains_key(selection[i]))
            ==> tick_results(selection, chunks).len() == selection.len(),
    decreases selection.len(),
{
    if selection.len() > 0 {
        lemma_tick_results_len(selection.drop_last(), chunks);
        if forall|i: int| 0 <= i < selection.len() ==> chunks.contains_key(selection[i]) {
            assert(chunks.contains_key(selection[selection.len() - 1]));
            assert forall|i: int| 0 <= i < selection.drop_last().len() implies chunks.contains_key(
                selection.drop_last()[i],
            ) by {
                assert(selection.drop_last()[i] == selection[i]);
            }
        }
    }
}

/// With more dirty chunks than the budget allows, all of them loaded and
/// no tick under way, one tick hands over exactly as many meshes as the
/// budget allows, and the chunks beyond the budget stay dirty in their
/// order: as many as there were, less the budget.
pub proof fn lemma_budget_conservation(s: SchedulerView, chunks: Map<ChunkKey, Seq<Voxel>>)
    requires
        s.wf(),
        s.idle(),
        s.budget < s.dirty.len(),
        forall|i: int| 0 <= i < s.dirty.len() ==> chunks.contains_key(s.dirty[i]),
    ensures
        tick_results(s.selection(), chunks).len() == s.budget,
        s.after_tick().dirty.len() == s.dirty.len() - s.budget,
        s.after_tick().dirty == s.dirty.skip(s.budget as int),
        forall|i: int|
            s.budget <= i < s.dirty.len() ==> s.after_tick().dirty.contains(#[trigger] s.dirty[i]),
        s.after_tick().idle(),
{
    lemma_tick_results_len(s.selection(), chunks);
    assert forall|i: int| s.budget <= i < s.dirty.len() implies s.after_tick().dirty.contains(
        #[trigger] s.dirty[i],
    ) by {
        assert(s.dirty.skip(s.budget as int)[i - s.budget] == s.dirty[i]);
    }
}

/// A chunk that is marked dirty while it is in flight is dirty when its
/// flight has ended: handing over a mesh never clears a newer mark.
pub proof fn lemma_mark_in_flight_survives(s: SchedulerView, coord: ChunkKey)
    requires
        s.wf(),
        s.in_flight.contains(coord),
    ensures
        s.mark(coord).after_complete(coord).dirty.contains(coord),
        !s.mark(coord).after_complete(coord).in_flight.contains(coord),
        s.mark(coord).after_complete(coord).wf(),
{
    if !s.dirty.contains(coord) {
        assert(s.dirty.push(coord)[s.dirty.len() as int] == coord);
        assert forall|i: int, j: int|
            0 <= i < s.dirty.push(coord).len() && 0 <= j < s.dirty.push(coord).len() && i
                != j implies s.dirty.push(coord)[i] != s.dirty.push(coord)[j] by {
            if i < s.dirty.len() {
                assert(s.dirty.contains(s.dirty[i]));
            }
            if j < s.dirty.len() {
                assert(s.dirty.contains(s.dirty[j]));
            }
        }
    }
}

/// Marking is idempotent: marking a chunk twice is marking it once.
pub proof fn lemma_mark_idempotent(s: SchedulerView, coord: ChunkKey)
    ensures
        s.mark(coord).mark(coord) == s.mark(coord),
        s.mark(coord).dirty.contains(coord),
{
    if !s.dirty.contains(coord) {
        assert(s.dirty.push(coord)[s.dirty.len() as int] == coord);
    }
}

} // verus!
