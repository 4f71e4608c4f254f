//! Greedy meshing of one chunk.
//!
//! The chunk is swept once for each of the six face directions, one layer of
//! cells at a time. In a layer, a cell shows a face when it is not empty and
//! the cell next to it in the face direction is empty; the border of the
//! padded volume answers for neighbours outside of the chunk. The visible
//! faces of a layer are merged into rectangles of equal voxel identity, and
//! each rectangle becomes one quad of the mesh.

use vstd::prelude::*;
use crate::voxel::Voxel;
use crate::shape::{
    CHUNK_LENGTH, PADDED_LENGTH, PADDED_VOLUME, SLICE_AREA, LocalCoord, cell_index,
};
use crate::chunk::ChunkBuffer;
use crate::greedy::{
    Rect, col, row, in_rect, merge_slice, merge_mask, rect_uniform, lemma_merge_slice_partitions,
};
use crate::mesh::{GridPoint, TexCoord, QuadVertex, QuadCorners, MeshView, Mesh, lemma_with_quad};

verus! {

/// Number of layers that one meshing pass sweeps: one per face direction and
/// cell along the direction's axis.
pub const SWEEP_LAYERS: usize = 96;

/// One of the six directions in which a face of a cell can point.
#[derive(Clone, Copy, PartialEq, Eq, Structural, Debug, Hash)]
pub enum Face {
    NegX,
    PosX,
    NegY,
    PosY,
    NegZ,
    PosZ,
}

impl Face {
    /// The axis along which the face points: `0` for x, `1` for y, `2` for z.
    pub open spec fn axis(self) -> int {
        match self {
            Face::NegX | Face::PosX => 0,
            Face::NegY | Face::PosY => 1,
            Face::NegZ | Face::PosZ => 2,
        }
    }

    /// Whether the face points towards growing coordinates.
    pub open spec fn positive(self) -> bool {
        self == Face::PosX || self == Face::PosY || self == Face::PosZ
    }

    /// Place of the face in the order of the sweep.
    pub open spec fn ordinal(self) -> int {
        match self {
            Face::NegX => 0,
            Face::PosX => 1,
            Face::NegY => 2,
            Face::PosY => 3,
            Face::NegZ => 4,
            Face::PosZ => 5,
        }
    }

    /// The face at a place in the order of the sweep.
    pub open spec fn of_ordinal(i: int) -> Face {
        if i == 0 {
            Face::NegX
        } else if i == 1 {
            Face::PosX
        } else if i == 2 {
            Face::NegY
        } else if i == 3 {
            Face::PosY
        } else if i == 4 {
            Face::NegZ
        } else {
            Face::PosZ
        }
    }

    /// The unit vector along which the face points.
    pub open spec fn spec_normal(self) -> GridPoint {
        match self {
            Face::NegX => GridPoint { x: -1i32, y: 0, z: 0 },
            Face::PosX => GridPoint { x: 1, y: 0, z: 0 },
            Face::NegY => GridPoint { x: 0, y: -1i32, z: 0 },
            Face::PosY => GridPoint { x: 0, y: 1, z: 0 },
            Face::NegZ => GridPoint { x: 0, y: 0, z: -1i32 },
            Face::PosZ => GridPoint { x: 0, y: 0, z: 1 },
        }
    }

    /// The face at a place in the order of the sweep.
    pub fn from_ordinal(i: usize) -> (f: Face)
        requires
            i < 6,
        ensures
            f == Face::of_ordinal(i as int),
            f.ordinal() == i,
    {
        if i == 0 {
            Face::NegX
        } else if i == 1 {
            Face::PosX
        } else if i == 2 {
            Face::NegY
        } else if i == 3 {
            Face::PosY
        } else if i == 4 {
            Face::NegZ
        } else {
            Face::PosZ
        }
    }

    /// The axis along which the face points: `0` for x, `1` for y, `2` for z.
    pub fn axis_index(&self) -> (a: u32)
        ensures
            a == self.axis(),
    {
        match self {
            Face::NegX | Face::PosX => 0,
            Face::NegY | Face::PosY => 1,
            Face::NegZ | Face::PosZ => 2,
        }
    }

    /// Whether the face points towards growing coordinates.
    pub fn is_positive(&self) -> (b: bool)
        ensures
            b == self.positive(),
    {
        match self {
            Face::PosX | Face::PosY | Face::PosZ => true,
            _ => false,
        }
    }

    /// The unit vector along which the face points.
    pub fn normal(&self) -> (n: GridPoint)
        ensures
            n == self.spec_normal(),
    {
        match self {
            Face::NegX => GridPoint { x: -1, y: 0, z: 0 },
            Face::PosX => GridPoint { x: 1, y: 0, z: 0 },
            Face::NegY => GridPoint { x: 0, y: -1, z: 0 },
            Face::PosY => GridPoint { x: 0, y: 1, z: 0 },
            Face::NegZ => GridPoint { x: 0, y: 0, z: -1 },
            Face::PosZ => GridPoint { x: 0, y: 0, z: 1 },
        }
    }
}

/// The constants of the sweep agree with the shape of a chunk: a slice has
/// one cell for each pair of in-layer coordinates, and the sweep has one
/// layer for each face direction and cell along its axis.
pub proof fn lemma_sweep_constants()
    ensures
        PADDED_LENGTH == CHUNK_LENGTH + 2,
        PADDED_VOLUME == PADDED_LENGTH * PADDED_LENGTH * PADDED_LENGTH,
        SLICE_AREA == CHUNK_LENGTH * CHUNK_LENGTH,
        SWEEP_LAYERS == 6 * CHUNK_LENGTH,
{
}

/// The point with coordinate `a` along `axis` and coordinates `u` and `v`
/// along the two axes that follow it in the cycle x, y, z.
pub open spec fn place(axis: int, a: int, u: int, v: int) -> (int, int, int) {
    if axis == 0 {
        (a, u, v)
    } else if axis == 1 {
        (v, a, u)
    } else {
        (u, v, a)
    }
}

/// Storage index of the cell in column `u` and row `v` of a layer.
pub open spec fn layer_cell(face: Face, layer: int, u: int, v: int) -> int {
    let p = place(face.axis(), layer + 1, u + 1, v + 1);
    cell_index(p.0, p.1, p.2)
}

/// Storage index of the cell that the face of a layer's cell looks at.
pub open spec fn layer_neighbour(face: Face, layer: int, u: int, v: int) -> int {
    let step: int = if face.positive() { 1 } else { -1 };
    let p = place(face.axis(), layer + 1 + step, u + 1, v + 1);
    cell_index(p.0, p.1, p.2)
}

/// The cell shows a face in the given direction: it is not empty and the
/// cell it looks at is empty.
pub open spec fn face_visible(cells: Seq<Voxel>, face: Face, layer: int, u: int, v: int) -> bool {
    !cells[layer_cell(face, layer, u, v)].is_empty() && cells[layer_neighbour(
        face,
        layer,
        u,
        v,
    )].is_empty()
}

/// The identity of the cell's voxel where the cell shows a face, else `0`.
pub open spec fn face_tag(cells: Seq<Voxel>, face: Face, layer: int, u: int, v: int) -> u8 {
    if face_visible(cells, face, layer, u, v) {
        cells[layer_cell(face, layer, u, v)].0
    } else {
        0
    }
}

/// The tags of one layer, row by row.
pub open spec fn slice_mask(cells: Seq<Voxel>, face: Face, layer: int) -> Seq<u8> {
    Seq::new(SLICE_AREA as nat, |i: int| face_tag(cells, face, layer, col(i), row(i)))
}

/// A merged rectangle of visible faces in one layer of one direction.
#[derive(Clone, Copy, PartialEq, Eq, Structural, Debug, Hash)]
pub struct Quad {
    pub face: Face,
    pub layer: u32,
    pub rect: Rect,
}

impl Quad {
    /// The quad lies inside the chunk and is not degenerate.
    pub open spec fn wf(self) -> bool {
        &&& self.layer < CHUNK_LENGTH
        &&& self.rect.w >= 1
        &&& self.rect.h >= 1
        &&& self.rect.u + self.rect.w <= CHUNK_LENGTH
        &&& self.rect.v + self.rect.h <= CHUNK_LENGTH
    }

    /// The quad belongs to the given layer and covers its cell `(u, v)`.
    pub open spec fn covers(self, face: Face, layer: int, u: int, v: int) -> bool {
        self.face == face && self.layer == layer && in_rect(self.rect, u, v)
    }

    /// Position of the quad's plane along its axis. The near side of layer
    /// `n` lies at `n`, its far side at `n + 1`.
    pub open spec fn plane(self) -> int {
        if self.face.positive() {
            self.layer + 1
        } else {
            self.layer as int
        }
    }

    /// The point of the quad's plane at in-layer coordinates `(cu, cv)`.
    pub open spec fn point(self, cu: int, cv: int) -> GridPoint {
        let p = place(self.face.axis(), self.plane(), cu, cv);
        GridPoint { x: p.0 as i32, y: p.1 as i32, z: p.2 as i32 }
    }

    /// The four corners of the quad. They run counter-clockwise for an
    /// observer towards whom a positive face points. Texture coordinates
    /// count cells from the first corner.
    pub open spec fn corners(self) -> QuadCorners {
        let r = self.rect;
        QuadCorners {
            a: QuadVertex { position: self.point(r.u as int, r.v as int), uv: TexCoord { u: 0, v: 0 } },
            b: QuadVertex { position: self.point(r.u + r.w, r.v as int), uv: TexCoord { u: r.w, v: 0 } },
            c: QuadVertex { position: self.point(r.u + r.w, r.v + r.h), uv: TexCoord { u: r.w, v: r.h } },
            d: QuadVertex { position: self.point(r.u as int, r.v + r.h), uv: TexCoord { u: 0, v: r.h } },
        }
    }

    /// Computes the point of the quad's plane at in-layer coordinates
    /// `(cu, cv)`.
    fn point_at(&self, cu: u32, cv: u32) -> (p: GridPoint)
        requires
            self.layer < CHUNK_LENGTH,
            cu <= CHUNK_LENGTH,
            cv <= CHUNK_LENGTH,
        ensures
            p == self.point(cu as int, cv as int),
    {
        let a: u32 = if self.face.is_positive() { self.layer + 1 } else { self.layer };
        let axis: u32 = self.face.axis_index();
        if axis == 0 {
            GridPoint { x: a as i32, y: cu as i32, z: cv as i32 }
        } else if axis == 1 {
            GridPoint { x: cv as i32, y: a as i32, z: cu as i32 }
        } else {
            GridPoint { x: cu as i32, y: cv as i32, z: a as i32 }
        }
    }

    /// Computes the four corners of the quad.
    pub fn geometry(&self) -> (c: QuadCorners)
        requires
            self.wf(),
        ensures
            c == self.corners(),
    {
        let r = self.rect;
        QuadCorners {
            a: QuadVertex { position: self.point_at(r.u, r.v), uv: TexCoord { u: 0, v: 0 } },
            b: QuadVertex { position: self.point_at(r.u + r.w, r.v), uv: TexCoord { u: r.w, v: 0 } },
            c: QuadVertex {
                position: self.point_at(r.u + r.w, r.v + r.h),
                uv: TexCoord { u: r.w, v: r.h },
            },
            d: QuadVertex { position: self.point_at(r.u, r.v + r.h), uv: TexCoord { u: 0, v: r.h } },
        }
    }
}

/// The quads of one layer, in the order in which merging finds them.
pub open spec fn slice_quads(cells: Seq<Voxel>, face: Face, layer: int) -> Seq<Quad> {
    let rects = merge_slice(slice_mask(cells, face, layer));
    Seq::new(rects.len(), |k: int| Quad { face, layer: layer as u32, rect: rects[k] })
}

/// The face direction to which the `s`-th layer of the sweep belongs.
pub open spec fn sweep_face(s: int) -> Face {
    Face::of_ordinal(s / (CHUNK_LENGTH as int))
}

/// The layer, along its face direction, of the `s`-th layer of the sweep.
pub open spec fn sweep_layer(s: int) -> int {
    s % (CHUNK_LENGTH as int)
}

/// The quads of the first `s` layers of the sweep.
pub open spec fn quads_upto(cells: Seq<Voxel>, s: int) -> Seq<Quad>
    decreases s,
{
    if s <= 0 {
        Seq::empty()
    } else {
        quads_upto(cells, s - 1) + slice_quads(cells, sweep_face(s - 1), sweep_layer(s - 1))
    }
}

/// All quads of a chunk in their canonical order: by face direction, then by
/// layer, then in the order in which merging finds them.
pub open spec fn chunk_quads(cells: Seq<Voxel>) -> Seq<Quad> {
    quads_upto(cells, SWEEP_LAYERS as int)
}

/// The mesh that holds the given quads, one after another.
pub open spec fn mesh_of(quads: Seq<Quad>) -> MeshView
    decreases quads.len(),
{
    if quads.len() == 0 {
        MeshView::empty()
    } else {
        mesh_of(quads.drop_last()).with_quad(
            quads.last().corners(),
            quads.last().face.spec_normal(),
            !quads.last().face.positive(),
        )
    }
}

/// The mesh of a chunk. It is a function of the chunk's cells alone.
pub open spec fn chunk_mesh(cells: Seq<Voxel>) -> MeshView {
    mesh_of(chunk_quads(cells))
}

/// A mesh of quads holds four vertices and six triangle corners for each
/// quad, and every triangle corner names one of its vertices.
pub proof fn lemma_mesh_of(quads: Seq<Quad>)
    requires
        4 * quads.len() <= u32::MAX,
    ensures
        mesh_of(quads).wf(),
        mesh_of(quads).positions.len() == 4 * quads.len(),
        mesh_of(quads).indices.len() == 6 * quads.len(),
    decreases quads.len(),
{
    if quads.len() > 0 {
        lemma_mesh_of(quads.drop_last());
        lemma_with_quad(
            mesh_of(quads.drop_last()),
            quads.last().corners(),
            quads.last().face.spec_normal(),
            !quads.last().face.positive(),
        );
    }
}

/// A layer holds at most one quad for each of its cells, and each quad lies
/// inside the chunk.
pub proof fn lemma_slice_quads(cells: Seq<Voxel>, face: Face, layer: int)
    requires
        0 <= layer < CHUNK_LENGTH,
    ensures
        slice_quads(cells, face, layer).len() <= SLICE_AREA,
        forall|k: int|
            0 <= k < slice_quads(cells, face, layer).len() ==> (#[trigger] slice_quads(
                cells,
                face,
                layer,
            )[k]).wf(),
{
    lemma_merge_slice_partitions(slice_mask(cells, face, layer));
    let rects = merge_slice(slice_mask(cells, face, layer));
    assert forall|k: int| 0 <= k < slice_quads(cells, face, layer).len() implies (
    #[trigger] slice_quads(cells, face, layer)[k]).wf() by {
        assert(rect_uniform(slice_mask(cells, face, layer), rects[k]));
    }
}

/// The first `s` layers of the sweep hold at most one quad for each of
/// their cells.
pub proof fn lemma_quads_upto_len(cells: Seq<Voxel>, s: int)
    requires
        0 <= s,
    ensures
        quads_upto(cells, s).len() <= SLICE_AREA * s,
    decreases s,
{
    if s > 0 {
        lemma_quads_upto_len(cells, s - 1);
        lemma_slice_quads(cells, sweep_face(s - 1), sweep_layer(s - 1));
    }
}

/// Reusable working storage of the mesher: the tags of the layer at hand,
/// the rectangles merged from it, and the mesh under construction. Nothing
/// that a meshing pass leaves behind here affects a later pass.
pub struct MeshBuffers {
    mask: Vec<u8>,
    rects: Vec<Rect>,
    accum: Mesh,
}

impl MeshBuffers {
    /// The storage is sized for one layer.
    pub closed spec fn wf(&self) -> bool {
        self.mask@.len() == SLICE_AREA
    }

    /// Fresh working storage.
    pub fn new() -> (s: MeshBuffers)
        ensures
            s.wf(),
    {
        let mut mask: Vec<u8> = Vec::with_capacity(SLICE_AREA);
        let mut i: usize = 0;
        while i < SLICE_AREA
            invariant
                i <= SLICE_AREA,
                mask@.len() == i,
            decreases SLICE_AREA - i,
        {
            mask.push(0);
            i = i + 1;
        }
        MeshBuffers { mask, rects: Vec::new(), accum: Mesh::new() }
    }
}

/// Computes the padded coordinate with value `a` along `axis` and values
/// `u` and `v` along the two axes that follow it.
fn place_coord(axis: u32, a: u32, u: u32, v: u32) -> (c: LocalCoord)
    ensures
        (c.x as int, c.y as int, c.z as int) == place(axis as int, a as int, u as int, v as int),
{
    if axis == 0 {
        LocalCoord { x: a, y: u, z: v }
    } else if axis == 1 {
        LocalCoord { x: v, y: a, z: u }
    } else {
        LocalCoord { x: u, y: v, z: a }
    }
}

/// Computes the tag of one cell of a layer.
pub fn tag_of(cells: &ChunkBuffer, face: Face, layer: u32, u: u32, v: u32) -> (t: u8)
    requires
        cells.wf(),
        layer < CHUNK_LENGTH,
        u < CHUNK_LENGTH,
        v < CHUNK_LENGTH,
    ensures
        t == face_tag(cells@, face, layer as int, u as int, v as int),
{
    let axis: u32 = face.axis_index();
    let beyond: u32 = if face.is_positive() { layer + 2 } else { layer };
    let here = cells.get(place_coord(axis, layer + 1, u + 1, v + 1));
    let there = cells.get(place_coord(axis, beyond, u + 1, v + 1));
    if !here.is_empty() && there.is_empty() {
        here.id()
    } else {
        0
    }
}

/// Writes the tags of one layer into `mask`.
pub fn fill_mask(cells: &ChunkBuffer, face: Face, layer: u32, mask: &mut Vec<u8>)
    requires
        cells.wf(),
        layer < CHUNK_LENGTH,
        old(mask)@.len() == SLICE_AREA,
    ensures
        final(mask)@ == slice_mask(cells@, face, layer as int),
{
    let n: usize = CHUNK_LENGTH as usize;
    let mut i: usize = 0;
    while i < SLICE_AREA
        invariant
            n == CHUNK_LENGTH,
            cells.wf(),
            layer < CHUNK_LENGTH,
            i <= SLICE_AREA,
            mask@.len() == SLICE_AREA,
            forall|j: int|
                0 <= j < i ==> #[trigger] mask@[j] == face_tag(
                    cells@,
                    face,
                    layer as int,
                    col(j),
                    row(j),
                ),
        decreases SLICE_AREA - i,
    {
        let u: u32 = (i % n) as u32;
        let v: u32 = (i / n) as u32;
        let t: u8 = tag_of(cells, face, layer, u, v);
        mask.set(i, t);
        i = i + 1;
    }
    assert(mask@ =~= slice_mask(cells@, face, layer as int));
}

/// Meshes one chunk.
///
/// The result holds one quad for each rectangle of merged visible faces, in
/// the canonical order of [`chunk_quads`]. It depends on the chunk's cells
/// only: whatever an earlier pass left in `scratch` has no effect, and two
/// passes over equal cells give equal meshes.
pub fn mesh(buffer: &ChunkBuffer, scratch: &mut MeshBuffers) -> (m: Mesh)
    requires
        buffer.wf(),
        old(scratch).wf(),
    ensures
        m@ == chunk_mesh(buffer@),
        m@.wf(),
        m@.positions.len() == 4 * chunk_quads(buffer@).len(),
        m@.indices.len() == 6 * chunk_quads(buffer@).len(),
        final(scratch).wf(),
{
    let n: usize = CHUNK_LENGTH as usize;
    scratch.accum.clear();
    let mut s: usize = 0;
    while s < SWEEP_LAYERS
        invariant
            n == CHUNK_LENGTH,
            buffer.wf(),
            s <= SWEEP_LAYERS,
            scratch.mask@.len() == SLICE_AREA,
            scratch.accum@ == mesh_of(quads_upto(buffer@, s as int)),
        decreases SWEEP_LAYERS - s,
    {
        let face = Face::from_ordinal(s / n);
        let layer: u32 = (s % n) as u32;
        fill_mask(buffer, face, layer, &mut scratch.mask);
        scratch.rects.clear();
        merge_mask(&mut scratch.mask, &mut scratch.rects);
        let ghost before = quads_upto(buffer@, s as int);
        let ghost found = slice_quads(buffer@, face, layer as int);
        proof {
            assert(face == sweep_face(s as int));
            assert(layer == sweep_layer(s as int));
            assert(scratch.rects@ =~= merge_slice(slice_mask(buffer@, face, layer as int)));
            lemma_slice_quads(buffer@, face, layer as int);
            lemma_quads_upto_len(buffer@, s as int);
            assert(before + found.take(0) =~= before);
        }
        let mut j: usize = 0;
        while j < scratch.rects.len()
            invariant
                buffer.wf(),
                layer < CHUNK_LENGTH,
                s < SWEEP_LAYERS,
                j <= scratch.rects@.len(),
                scratch.rects@ == merge_slice(slice_mask(buffer@, face, layer as int)),
                found == slice_quads(buffer@, face, layer as int),
                found.len() == scratch.rects@.len(),
                found.len() <= SLICE_AREA,
                forall|k: int| 0 <= k < found.len() ==> (#[trigger] found[k]).wf(),
                before.len() <= SLICE_AREA * s,
                scratch.mask@.len() == SLICE_AREA,
                scratch.accum@ == mesh_of(before + found.take(j as int)),
            decreases scratch.rects@.len() - j,
        {
            let q = Quad { face, layer, rect: scratch.rects[j] };
            proof {
                assert(q == found[j as int]);
                let sofar = before + found.take(j as int);
                let next = before + found.take(j + 1);
                assert(next.drop_last() =~= sofar);
                assert(next.last() == q);
                lemma_mesh_of(sofar);
            }
            let corners = q.geometry();
            scratch.accum.push_quad(corners, face.normal(), !face.is_positive());
            j = j + 1;
        }
        proof {
            assert(found.take(j as int) =~= found);
            assert(before + found == quads_upto(buffer@, s + 1));
        }
        s = s + 1;
    }
    proof {
        lemma_quads_upto_len(buffer@, SWEEP_LAYERS as int);
        lemma_mesh_of(chunk_quads(buffer@));
    }
    scratch.accum.duplicate()
}

} // verus!
