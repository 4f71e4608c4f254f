//! Sparse storage of the loaded chunks.

use vstd::prelude::*;
use std::collections::HashMap;
use crate::voxel::Voxel;
use crate::shape::PADDED_VOLUME;
use crate::chunk::{ChunkKey, ChunkBuffer};

verus! {

broadcast use vstd::std_specs::hash::group_hash_axioms;

/// The number under which a chunk coordinate is stored: its three
/// components, each shifted to be non-negative, side by side in 32 bits each.
pub open spec fn key_code(k: ChunkKey) -> int {
    (k.x + 0x8000_0000) * 0x1_0000_0000_0000_0000 + (k.y + 0x8000_0000) * 0x1_0000_0000 + (k.z
        + 0x8000_0000)
}

/// Different chunk coordinates are stored under different numbers.
pub proof fn lemma_key_code_injective(a: ChunkKey, b: ChunkKey)
    requires
        key_code(a) == key_code(b),
    ensures
        a == b,
{
}

fn encode(k: ChunkKey) -> (c: u128)
    ensures
        c == key_code(k),
{
    let x: u128 = (k.x as i64 + 0x8000_0000) as u128;
    let y: u128 = (k.y as i64 + 0x8000_0000) as u128;
    let z: u128 = (k.z as i64 + 0x8000_0000) as u128;
    x * 0x1_0000_0000_0000_0000 + y * 0x1_0000_0000 + z
}

/// The loaded chunks of a world, by chunk coordinate. The map owns its
/// buffers, and every buffer in it is fully populated.
pub struct VoxelMap {
    chunks: HashMap<u128, ChunkBuffer>,
}

impl View for VoxelMap {
    type V = Map<ChunkKey, Seq<Voxel>>;

    closed spec fn view(&self) -> Map<ChunkKey, Seq<Voxel>> {
        Map::new(
            |k: ChunkKey| self.chunks@.contains_key(key_code(k) as u128),
            |k: ChunkKey| self.chunks@[key_code(k) as u128]@,
        )
    }
}

impl VoxelMap {
    /// Every stored buffer is fully populated.
    pub closed spec fn wf(&self) -> bool {
        forall|c: u128| #[trigger] self.chunks@.contains_key(c) ==> self.chunks@[c].wf()
    }

    /// Every buffer of a well-formed map holds the whole padded volume.
    pub proof fn lemma_buffers_populated(&self, coord: ChunkKey)
        requires
            self.wf(),
            self@.contains_key(coord),
        ensures
            self@[coord].len() == PADDED_VOLUME,
    {
    }

    /// A world without chunks.
    pub fn new() -> (m: VoxelMap)
        ensures
            m.wf(),
            m@ == Map::<ChunkKey, Seq<Voxel>>::empty(),
    {
        let m = VoxelMap { chunks: HashMap::new() };
        assert(m@ =~= Map::<ChunkKey, Seq<Voxel>>::empty());
        m
    }

    /// Whether the chunk at `coord` is loaded.
    pub fn is_loaded(&self, coord: ChunkKey) -> (b: bool)
        requires
            self.wf(),
        ensures
            b == self@.contains_key(coord),
    {
        let code: u128 = encode(coord);
        self.chunks.contains_key(&code)
    }

    /// Read access to the buffer of the chunk at `coord`, or nothing where
    /// that chunk is not loaded.
    pub fn buffer_at(&self, coord: ChunkKey) -> (r: Option<&ChunkBuffer>)
        requires
            self.wf(),
        ensures
            r is Some <==> self@.contains_key(coord),
            r matches Some(b) ==> b.wf() && b@ == self@[coord],
    {
        let code: u128 = encode(coord);
        self.chunks.get(&code)
    }

    /// Loads a chunk, or replaces the one loaded at `coord`. Returns the
    /// buffer that was replaced.
    pub fn insert(&mut self, coord: ChunkKey, buffer: ChunkBuffer) -> (prev: Option<ChunkBuffer>)
        requires
            old(self).wf(),
            buffer.wf(),
        ensures
            final(self).wf(),
            final(self)@ == old(self)@.insert(coord, buffer@),
            prev is Some <==> old(self)@.contains_key(coord),
            prev matches Some(b) ==> b.wf() && b@ == old(self)@[coord],
    {
        let code: u128 = encode(coord);
        let prev = self.chunks.insert(code, buffer);
        proof {
            assert forall|k: ChunkKey| k != coord implies key_code(k) != key_code(coord) by {
                if key_code(k) == key_code(coord) {
                    lemma_key_code_injective(k, coord);
                }
            }
            assert(self@ =~= old(self)@.insert(coord, buffer@));
        }
        prev
    }

    /// Unloads the chunk at `coord` and returns its buffer, or nothing where
    /// that chunk is not loaded.
    pub fn remove(&mut self, coord: ChunkKey) -> (r: Option<ChunkBuffer>)
        requires
            old(self).wf(),
        ensures
            final(self).wf(),
            final(self)@ == old(self)@.remove(coord),
            r is Some <==> old(self)@.contains_key(coord),
            r matches Some(b) ==> b.wf() && b@ == old(self)@[coord],
    {
        let code: u128 = encode(coord);
        let r = self.chunks.remove(&code);
        proof {
            assert forall|k: ChunkKey| k != coord implies key_code(k) != key_code(coord) by {
                if key_code(k) == key_code(coord) {
                    lemma_key_code_injective(k, coord);
                }
            }
            assert(self@ =~= old(self)@.remove(coord));
        }
        r
    }

    /// Edits the chunk at `coord` with `f`, which receives the chunk's
    /// buffer and hands back the edited one. Returns whether the chunk was
    /// loaded; where it was not, nothing changes and `f` is not called.
    pub fn mutate<F: FnOnce(ChunkBuffer) -> ChunkBuffer>(&mut self, coord: ChunkKey, f: F) -> (found:
        bool)
        requires
            old(self).wf(),
            forall|b: ChunkBuffer| b.wf() ==> f.requires((b,)),
            forall|b: ChunkBuffer, e: ChunkBuffer| b.wf() && f.ensures((b,), e) ==> e.wf(),
        ensures
            final(self).wf(),
            found == old(self)@.contains_key(coord),
            !found ==> final(self)@ == old(self)@,
            found ==> exists|b: ChunkBuffer, e: ChunkBuffer|
                b.wf() && b@ == old(self)@[coord] && #[trigger] f.ensures((b,), e) && final(self)@
                    == old(self)@.insert(coord, e@),
    {
        let code: u128 = encode(coord);
        match self.chunks.remove(&code) {
            Some(b) => {
                let e = f(b);
                self.chunks.insert(code, e);
                proof {
                    assert forall|k: ChunkKey| k != coord implies key_code(k) != key_code(
                        coord,
                    ) by {
                        if key_code(k) == key_code(coord) {
                            lemma_key_code_injective(k, coord);
                        }
                    }
                    assert(self@ =~= old(self)@.insert(coord, e@));
                    assert(f.ensures((b,), e));
                }
                true
            },
            None => {
                assert(self@ =~= old(self)@);
                false
            },
        }
    }
}

} // verus!
