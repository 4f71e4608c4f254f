//! The cell type of the world.

use vstd::prelude::*;

verus! {

/// Identity that is reserved for empty space.
pub const EMPTY_ID: u8 = 0;

/// Material occupying one cell. Two voxels are the same material exactly when
/// their identities are equal; the identity `0` means that the cell is empty.
#[derive(Clone, Copy, PartialEq, Eq, Structural, Debug, Hash)]
pub struct Voxel(pub u8);

impl Voxel {
    /// An empty cell produces no geometry and does not hide its neighbours.
    pub open spec fn spec_is_empty(self) -> bool {
        self.0 == EMPTY_ID
    }

    /// The empty voxel.
    pub fn empty() -> (v: Voxel)
        ensures
            v == Voxel(EMPTY_ID),
            v.spec_is_empty(),
    {
        Voxel(EMPTY_ID)
    }

    /// A voxel of the given material identity.
    pub fn new(id: u8) -> (v: Voxel)
        ensures
            v == Voxel(id),
    {
        Voxel(id)
    }

    /// The material identity.
    pub fn id(self) -> (id: u8)
        ensures
            id == self.0,
    {
        self.0
    }

    /// Whether this voxel is the reserved empty value.
    #[verifier::when_used_as_spec(spec_is_empty)]
    pub fn is_empty(self) -> (b: bool)
        ensures
            b == self.spec_is_empty(),
    {
        self.0 == EMPTY_ID
    }
}

/// Whether `voxel` is the reserved empty value.
pub fn is_empty(voxel: Voxel) -> (b: bool)
    ensures
        b == (voxel.0 == EMPTY_ID),
{
    voxel.0 == EMPTY_ID
}

} // verus!
