//! Addressing inside one padded chunk.
//!
//! A chunk holds `CHUNK_LENGTH` cells along each axis, surrounded by a border
//! one cell thick. Padded coordinates therefore run from `0` to
//! `PADDED_LENGTH - 1`; the cells of the chunk proper have all three
//! coordinates in `1 ..= CHUNK_LENGTH`.

use vstd::prelude::*;

verus! {

/// Number of cells along one edge of a chunk.
pub const CHUNK_LENGTH: u32 = 16;

/// Edge length of the stored volume: the chunk and its border.
pub const PADDED_LENGTH: u32 = 18;

/// Number of cells in the stored volume.
pub const PADDED_VOLUME: usize = 5832;

/// Number of cells in one slice of the chunk proper.
pub const SLICE_AREA: usize = 256;

/// Coordinate of one cell in the padded volume.
#[derive(Clone, Copy, PartialEq, Eq, Structural, Debug, Hash)]
pub struct LocalCoord {
    pub x: u32,
    pub y: u32,
    pub z: u32,
}

impl LocalCoord {
    /// The coordinate lies inside the padded volume.
    pub open spec fn in_bounds(self) -> bool {
        self.x < PADDED_LENGTH && self.y < PADDED_LENGTH && self.z < PADDED_LENGTH
    }

    /// The coordinate lies inside the chunk proper, off the border.
    pub open spec fn in_interior(self) -> bool {
        &&& 1 <= self.x <= CHUNK_LENGTH
        &&& 1 <= self.y <= CHUNK_LENGTH
        &&& 1 <= self.z <= CHUNK_LENGTH
    }

    pub fn new(x: u32, y: u32, z: u32) -> (c: LocalCoord)
        ensures
            c == (LocalCoord { x, y, z }),
    {
        LocalCoord { x, y, z }
    }

    /// Runtime form of [`LocalCoord::in_bounds`].
    pub fn is_in_bounds(&self) -> (b: bool)
        ensures
            b == self.in_bounds(),
    {
        self.x < PADDED_LENGTH && self.y < PADDED_LENGTH && self.z < PADDED_LENGTH
    }
}

/// Storage index of the padded cell `(x, y, z)`: `x` runs fastest, `z` slowest.
pub open spec fn cell_index(x: int, y: int, z: int) -> int {
    x + PADDED_LENGTH * (y + PADDED_LENGTH * z)
}

/// Storage index of a coordinate.
pub open spec fn spec_index_of(c: LocalCoord) -> int {
    cell_index(c.x as int, c.y as int, c.z as int)
}

/// Coordinate stored at an index.
pub open spec fn spec_coord_of(i: int) -> LocalCoord {
    LocalCoord {
        x: (i % (PADDED_LENGTH as int)) as u32,
        y: ((i / (PADDED_LENGTH as int)) % (PADDED_LENGTH as int)) as u32,
        z: (i / (PADDED_LENGTH as int * PADDED_LENGTH as int)) as u32,
    }
}

/// Every in-range cell has an index inside the stored volume.
pub proof fn lemma_cell_index_bounds(x: int, y: int, z: int)
    requires
        0 <= x < PADDED_LENGTH,
        0 <= y < PADDED_LENGTH,
        0 <= z < PADDED_LENGTH,
    ensures
        0 <= cell_index(x, y, z) < PADDED_VOLUME,
{
}

/// Maps a coordinate of the padded volume to its storage index.
pub fn index_of(c: LocalCoord) -> (i: usize)
    requires
        c.in_bounds(),
    ensures
        i == spec_index_of(c),
        i < PADDED_VOLUME,
{
    let p: usize = PADDED_LENGTH as usize;
    c.x as usize + p * (c.y as usize + p * c.z as usize)
}

/// Maps a storage index back to its coordinate.
pub fn coord_of(i: usize) -> (c: LocalCoord)
    requires
        i < PADDED_VOLUME,
    ensures
        c == spec_coord_of(i as int),
        c.in_bounds(),
        spec_index_of(c) == i,
{
    let p: usize = PADDED_LENGTH as usize;
    let x: usize = i % p;
    let y: usize = (i / p) % p;
    let z: usize = i / (p * p);
    LocalCoord { x: x as u32, y: y as u32, z: z as u32 }
}

/// Distinct coordinates of the padded volume never share an index.
pub proof fn lemma_index_of_injective(a: LocalCoord, b: LocalCoord)
    requires
        a.in_bounds(),
        b.in_bounds(),
        spec_index_of(a) == spec_index_of(b),
    ensures
        a == b,
{
}

/// Every index of the stored volume belongs to exactly one coordinate:
/// `spec_coord_of` inverts `spec_index_of` in both directions.
pub proof fn lemma_index_of_bijective(c: LocalCoord, i: int)
    requires
        c.in_bounds(),
        0 <= i < PADDED_VOLUME,
    ensures
        0 <= spec_index_of(c) < PADDED_VOLUME,
        spec_coord_of(spec_index_of(c)) == c,
        spec_coord_of(i).in_bounds(),
        spec_index_of(spec_coord_of(i)) == i,
{
}

} // verus!
