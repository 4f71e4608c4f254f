//! Chunk coordinates and chunk voxel buffers.

use vstd::prelude::*;
use crate::voxel::Voxel;
use crate::shape::{LocalCoord, CHUNK_LENGTH, PADDED_VOLUME, index_of, spec_index_of};

verus! {

/// Position of a chunk in the world grid, in units of chunks.
#[derive(Clone, Copy, PartialEq, Eq, Structural, Debug, Hash)]
pub struct ChunkKey {
    pub x: i32,
    pub y: i32,
    pub z: i32,
}

/// A point of the world grid, in units of cells.
#[derive(Clone, Copy, PartialEq, Eq, Structural, Debug, Hash)]
pub struct WorldPoint {
    pub x: i64,
    pub y: i64,
    pub z: i64,
}

impl ChunkKey {
    pub fn new(x: i32, y: i32, z: i32) -> (k: ChunkKey)
        ensures
            k == (ChunkKey { x, y, z }),
    {
        ChunkKey { x, y, z }
    }

    /// World position of the chunk's minimum corner.
    pub open spec fn spec_location(self) -> WorldPoint {
        WorldPoint {
            x: (self.x * CHUNK_LENGTH) as i64,
            y: (self.y * CHUNK_LENGTH) as i64,
            z: (self.z * CHUNK_LENGTH) as i64,
        }
    }

    /// World position of the chunk's minimum corner, in cells.
    pub fn location(&self) -> (p: WorldPoint)
        ensures
            p == self.spec_location(),
            p.x == self.x * CHUNK_LENGTH,
            p.y == self.y * CHUNK_LENGTH,
            p.z == self.z * CHUNK_LENGTH,
    {
        let n: i64 = CHUNK_LENGTH as i64;
        WorldPoint { x: self.x as i64 * n, y: self.y as i64 * n, z: self.z as i64 * n }
    }
}

/// The voxels of one chunk together with its one-cell border, stored densely.
pub struct ChunkBuffer {
    cells: Vec<Voxel>,
}

impl View for ChunkBuffer {
    type V = Seq<Voxel>;

    closed spec fn view(&self) -> Seq<Voxel> {
        self.cells@
    }
}

impl ChunkBuffer {
    /// A buffer is fully populated: it holds every cell of the padded volume.
    pub open spec fn wf(&self) -> bool {
        self@.len() == PADDED_VOLUME
    }

    /// A buffer in which every cell holds `voxel`.
    pub fn filled(voxel: Voxel) -> (b: ChunkBuffer)
        ensures
            b.wf(),
            forall|i: int| 0 <= i < PADDED_VOLUME ==> b@[i] == voxel,
    {
        let mut cells: Vec<Voxel> = Vec::with_capacity(PADDED_VOLUME);
        let mut i: usize = 0;
        while i < PADDED_VOLUME
            invariant
                i <= PADDED_VOLUME,
                cells@.len() == i,
                forall|j: int| 0 <= j < i ==> cells@[j] == voxel,
            decreases PADDED_VOLUME - i,
        {
            cells.push(voxel);
            i = i + 1;
        }
        ChunkBuffer { cells }
    }

    /// A buffer in which every cell is empty.
    pub fn new() -> (b: ChunkBuffer)
        ensures
            b.wf(),
            forall|i: int| 0 <= i < PADDED_VOLUME ==> b@[i] == Voxel(0),
    {
        ChunkBuffer::filled(Voxel(0))
    }

    /// Takes ownership of densely stored cells. The cells are accepted exactly
    /// when there is one for every cell of the padded volume.
    pub fn from_cells(cells: Vec<Voxel>) -> (r: Option<ChunkBuffer>)
        ensures
            r is Some <==> cells@.len() == PADDED_VOLUME,
            r matches Some(b) ==> b.wf() && b@ == cells@,
    {
        if cells.len() == PADDED_VOLUME {
            Some(ChunkBuffer { cells })
        } else {
            None
        }
    }

    /// The voxel stored at a coordinate of the padded volume.
    pub fn get(&self, c: LocalCoord) -> (v: Voxel)
        requires
            self.wf(),
            c.in_bounds(),
        ensures
            v == self@[spec_index_of(c)],
    {
        self.cells[index_of(c)]
    }

    /// The voxel stored at a storage index.
    pub fn at(&self, i: usize) -> (v: Voxel)
        requires
            self.wf(),
            i < PADDED_VOLUME,
        ensures
            v == self@[i as int],
    {
        self.cells[i]
    }

    /// Stores `voxel` at a coordinate of the padded volume and leaves every
    /// other cell as it was.
    pub fn set(&mut self, c: LocalCoord, voxel: Voxel)
        requires
            old(self).wf(),
            c.in_bounds(),
        ensures
            final(self).wf(),
            final(self)@ == old(self)@.update(spec_index_of(c), voxel),
    {
        let i: usize = index_of(c);
        self.cells.set(i, voxel);
    }

    /// A copy of this buffer.
    pub fn duplicate(&self) -> (b: ChunkBuffer)
        requires
            self.wf(),
        ensures
            b.wf(),
            b@ == self@,
    {
        let mut cells: Vec<Voxel> = Vec::with_capacity(PADDED_VOLUME);
        let mut i: usize = 0;
        while i < PADDED_VOLUME
            invariant
                i <= PADDED_VOLUME,
                self.wf(),
                cells@.len() == i,
                forall|j: int| 0 <= j < i ==> cells@[j] == self@[j],
            decreases PADDED_VOLUME - i,
        {
            cells.push(self.cells[i]);
            i = i + 1;
        }
        assert(cells@ =~= self@);
        ChunkBuffer { cells }
    }
}

} // verus!
