//! Working storage for several workers.
//!
//! Each worker has working storage of its own, found by the worker's
//! number, so that meshing passes that run side by side never share any.

use vstd::prelude::*;
use crate::chunk::ChunkBuffer;
use crate::mesh::Mesh;
use crate::mesher::{MeshBuffers, mesh, chunk_mesh};
use crate::render::ConfigError;

verus! {

/// One set of working storage for each worker of a pool.
pub struct ScratchPool {
    slots: Vec<MeshBuffers>,
}

impl ScratchPool {
    /// Number of workers that the pool serves.
    pub closed spec fn workers(&self) -> nat {
        self.slots@.len()
    }

    /// The pool serves at least one worker, and each worker's storage is
    /// ready for use.
    pub closed spec fn wf(&self) -> bool {
        &&& self.slots@.len() >= 1
        &&& forall|i: int| 0 <= i < self.slots@.len() ==> (#[trigger] self.slots@[i]).wf()
    }

    /// A pool that is ready for use serves at least one worker.
    pub proof fn lemma_workers_positive(&self)
        requires
            self.wf(),
        ensures
            self.workers() >= 1,
    {
    }

    /// A pool for `workers` workers. A pool for no worker is refused.
    pub fn new(workers: usize) -> (r: Result<ScratchPool, ConfigError>)
        ensures
            r is Ok <==> workers >= 1,
            r matches Ok(p) ==> p.wf() && p.workers() == workers,
            r matches Err(e) ==> e == ConfigError::NoWorkers,
    {
        if workers == 0 {
            return Err(ConfigError::NoWorkers);
        }
        let mut slots: Vec<MeshBuffers> = Vec::new();
        let mut i: usize = 0;
        while i < workers
            invariant
                i <= workers,
                slots@.len() == i,
                forall|j: int| 0 <= j < slots@.len() ==> (#[trigger] slots@[j]).wf(),
            decreases workers - i,
        {
            slots.push(MeshBuffers::new());
            i = i + 1;
        }
        Ok(ScratchPool { slots })
    }

    /// Number of workers that the pool serves.
    pub fn worker_count(&self) -> (n: usize)
        ensures
            n == self.workers(),
    {
        self.slots.len()
    }

    /// Meshes one chunk with the working storage of the given worker.
    pub fn mesh_on(&mut self, worker: usize, buffer: &ChunkBuffer) -> (m: Mesh)
        requires
            old(self).wf(),
            worker < old(self).workers(),
            buffer.wf(),
        ensures
            final(self).wf(),
            final(self).workers() == old(self).workers(),
            m@ == chunk_mesh(buffer@),
            m@.wf(),
    {
        let slot = &mut self.slots[worker];
        mesh(buffer, slot)
    }
}

} // verus!
