//! What the quads of a chunk cover.
//!
//! The quads of a chunk are exactly its visible faces: every visible face of
//! a cell lies in one quad and in one only, a quad holds nothing but visible
//! faces, and all faces in a quad belong to voxels of one identity.

use vstd::prelude::*;
use crate::voxel::Voxel;
use crate::shape::{CHUNK_LENGTH, PADDED_LENGTH, PADDED_VOLUME, SLICE_AREA, cell_index};
use crate::greedy::{
    Rect, col, row, slot, in_rect, in_slice, merge_slice, rect_uniform, row_strip, column_strip,
    rows_striped, columns_striped, lemma_merge_slice_partitions, lemma_merge_blank,
    lemma_merge_uniform, lemma_merge_row_stripes, lemma_merge_column_stripes,
};
use crate::mesh::MeshView;
use crate::mesher::{
    Face, Quad, SWEEP_LAYERS, place, layer_cell, face_visible, face_tag, slice_mask, slice_quads,
    sweep_face, sweep_layer, quads_upto, chunk_quads, chunk_mesh, lemma_mesh_of,
    lemma_quads_upto_len,
};

verus! {

/// Place in the sweep of a layer of a face direction.
pub open spec fn sweep_index(face: Face, layer: int) -> int {
    face.ordinal() * CHUNK_LENGTH + layer
}

/// The quads of the `s`-th layer of the sweep.
pub open spec fn sweep_quads(cells: Seq<Voxel>, s: int) -> Seq<Quad> {
    slice_quads(cells, sweep_face(s), sweep_layer(s))
}

/// The quads of a layer are its visible faces, merged by voxel identity:
/// each quad lies in the layer and inside the chunk, each of its cells shows
/// a face of the quad's identity, no two quads share a cell, and every cell
/// that shows a face lies in a quad.
pub proof fn lemma_slice_quads_exact(cells: Seq<Voxel>, face: Face, layer: int)
    requires
        0 <= layer < CHUNK_LENGTH,
    ensures
        forall|k: int|
            0 <= k < slice_quads(cells, face, layer).len() ==> {
                let q = #[trigger] slice_quads(cells, face, layer)[k];
                q.wf() && q.face == face && q.layer == layer && q.rect.tag != 0
            },
        forall|k: int, u: int, v: int|
            0 <= k < slice_quads(cells, face, layer).len() && #[trigger] in_rect(
                slice_quads(cells, face, layer)[k].rect,
                u,
                v,
            ) ==> in_slice(u, v) && face_visible(cells, face, layer, u, v) && cells[layer_cell(
                face,
                layer,
                u,
                v,
            )].0 == slice_quads(cells, face, layer)[k].rect.tag,
        forall|k: int, l: int, u: int, v: int|
            0 <= k < slice_quads(cells, face, layer).len() && 0 <= l < slice_quads(
                cells,
                face,
                layer,
            ).len() && k != l && #[trigger] in_rect(slice_quads(cells, face, layer)[k].rect, u, v)
                ==> !#[trigger] in_rect(slice_quads(cells, face, layer)[l].rect, u, v),
        forall|u: int, v: int|
            in_slice(u, v) && #[trigger] face_visible(cells, face, layer, u, v) ==> exists|k: int|
                0 <= k < slice_quads(cells, face, layer).len() && #[trigger] in_rect(
                    slice_quads(cells, face, layer)[k].rect,
                    u,
                    v,
                ),
{
    let mask = slice_mask(cells, face, layer);
    let rects = merge_slice(mask);
    let q = slice_quads(cells, face, layer);
    lemma_merge_slice_partitions(mask);
    assert forall|u: int, v: int| in_slice(u, v) implies #[trigger] mask[slot(u, v)] == face_tag(
        cells,
        face,
        layer,
        u,
        v,
    ) by {
        assert(col(slot(u, v)) == u && row(slot(u, v)) == v);
    }
    assert forall|k: int| 0 <= k < q.len() implies {
        let x = #[trigger] q[k];
        x.wf() && x.face == face && x.layer == layer && x.rect.tag != 0
    } by {
        assert(rect_uniform(mask, rects[k]));
    }
    assert forall|k: int, u: int, v: int|
        0 <= k < q.len() && #[trigger] in_rect(q[k].rect, u, v) implies in_slice(u, v)
        && face_visible(cells, face, layer, u, v) && cells[layer_cell(face, layer, u, v)].0
        == q[k].rect.tag by {
        assert(rect_uniform(mask, rects[k]));
        assert(in_rect(rects[k], u, v));
        assert(mask[slot(u, v)] == rects[k].tag);
    }
    assert forall|k: int, l: int, u: int, v: int|
        0 <= k < q.len() && 0 <= l < q.len() && k != l && #[trigger] in_rect(
            q[k].rect,
            u,
            v,
        ) implies !#[trigger] in_rect(q[l].rect, u, v) by {
        assert(in_rect(rects[k], u, v));
    }
    assert forall|u: int, v: int|
        in_slice(u, v) && #[trigger] face_visible(cells, face, layer, u, v) implies exists|k: int|
        0 <= k < q.len() && #[trigger] in_rect(q[k].rect, u, v) by {
        assert(mask[slot(u, v)] != 0);
        let k = choose|k: int| 0 <= k < rects.len() && #[trigger] in_rect(rects[k], u, v);
        assert(in_rect(q[k].rect, u, v));
    }
}

/// The quads of an earlier layer of the sweep stand, in their order, at a
/// fixed place in the list of every longer sweep.
pub proof fn lemma_sweep_prefix(cells: Seq<Voxel>, s: int, t: int)
    requires
        0 <= s < t,
    ensures
        quads_upto(cells, s).len() + sweep_quads(cells, s).len() <= quads_upto(cells, t).len(),
        forall|i: int|
            0 <= i < sweep_quads(cells, s).len() ==> quads_upto(cells, t)[quads_upto(
                cells,
                s,
            ).len() + i] == #[trigger] sweep_quads(cells, s)[i],
    decreases t,
{
    if t - 1 > s {
        lemma_sweep_prefix(cells, s, t - 1);
    }
}

/// Finds the layer of the sweep from which a quad of the list comes, and
/// its place among the quads of that layer.
pub proof fn lemma_sweep_locate(cells: Seq<Voxel>, t: int, k: int) -> (r: (int, int))
    requires
        0 <= k < quads_upto(cells, t).len(),
    ensures
        0 <= r.0 < t,
        0 <= r.1 < sweep_quads(cells, r.0).len(),
        k == quads_upto(cells, r.0).len() + r.1,
        quads_upto(cells, t)[k] == sweep_quads(cells, r.0)[r.1],
    decreases t,
{
    if t <= 0 {
        (0, 0)
    } else if k < quads_upto(cells, t - 1).len() {
        lemma_sweep_locate(cells, t - 1, k)
    } else {
        (t - 1, k - quads_upto(cells, t - 1).len())
    }
}

/// Every quad of a chunk lies inside the chunk, and each cell that it covers
/// shows a face in the quad's direction whose voxel has the quad's identity.
/// So no quad holds a hidden face, and no quad spans two identities.
pub proof fn lemma_quads_are_uniform_visible_faces(cells: Seq<Voxel>, k: int, u: int, v: int)
    requires
        0 <= k < chunk_quads(cells).len(),
        in_rect(chunk_quads(cells)[k].rect, u, v),
    ensures
        chunk_quads(cells)[k].wf(),
        chunk_quads(cells)[k].rect.tag != 0,
        in_slice(u, v),
        face_visible(cells, chunk_quads(cells)[k].face, chunk_quads(cells)[k].layer as int, u, v),
        cells[layer_cell(
            chunk_quads(cells)[k].face,
            chunk_quads(cells)[k].layer as int,
            u,
            v,
        )].0 == chunk_quads(cells)[k].rect.tag,
{
    let r = lemma_sweep_locate(cells, SWEEP_LAYERS as int, k);
    lemma_slice_quads_exact(cells, sweep_face(r.0), sweep_layer(r.0));
    let q = sweep_quads(cells, r.0)[r.1];
    assert(in_rect(sweep_quads(cells, r.0)[r.1].rect, u, v));
}

/// Every visible face of a chunk lies in one of its quads, and a cell that
/// shows no face in a direction lies in no quad of that direction.
pub proof fn lemma_quads_cover_visible_faces(
    cells: Seq<Voxel>,
    face: Face,
    layer: int,
    u: int,
    v: int,
)
    requires
        0 <= layer < CHUNK_LENGTH,
        in_slice(u, v),
    ensures
        face_visible(cells, face, layer, u, v) <==> exists|k: int|
            0 <= k < chunk_quads(cells).len() && (#[trigger] chunk_quads(cells)[k]).covers(
                face,
                layer,
                u,
                v,
            ),
{
    let all = chunk_quads(cells);
    if face_visible(cells, face, layer, u, v) {
        let s = sweep_index(face, layer);
        assert(sweep_face(s) == face && sweep_layer(s) == layer);
        lemma_slice_quads_exact(cells, face, layer);
        let i = choose|i: int|
            0 <= i < slice_quads(cells, face, layer).len() && #[trigger] in_rect(
                slice_quads(cells, face, layer)[i].rect,
                u,
                v,
            );
        lemma_sweep_prefix(cells, s, SWEEP_LAYERS as int);
        let k = quads_upto(cells, s).len() + i;
        assert(all[k] == sweep_quads(cells, s)[i]);
        assert(all[k].covers(face, layer, u, v));
    }
    if exists|k: int| 0 <= k < all.len() && (#[trigger] all[k]).covers(face, layer, u, v) {
        let k = choose|k: int| 0 <= k < all.len() && (#[trigger] all[k]).covers(face, layer, u, v);
        lemma_quads_are_uniform_visible_faces(cells, k, u, v);
    }
}

/// No face of a chunk lies in two of its quads.
pub proof fn lemma_quads_are_disjoint(
    cells: Seq<Voxel>,
    k: int,
    l: int,
    face: Face,
    layer: int,
    u: int,
    v: int,
)
    requires
        0 <= k < chunk_quads(cells).len(),
        0 <= l < chunk_quads(cells).len(),
        chunk_quads(cells)[k].covers(face, layer, u, v),
        chunk_quads(cells)[l].covers(face, layer, u, v),
    ensures
        k == l,
{
    let a = lemma_sweep_locate(cells, SWEEP_LAYERS as int, k);
    let b = lemma_sweep_locate(cells, SWEEP_LAYERS as int, l);
    lemma_slice_quads_exact(cells, sweep_face(a.0), sweep_layer(a.0));
    lemma_slice_quads_exact(cells, sweep_face(b.0), sweep_layer(b.0));
    let qa = sweep_quads(cells, a.0)[a.1];
    let qb = sweep_quads(cells, b.0)[b.1];
    assert(qa.face == sweep_face(a.0) && qa.layer == sweep_layer(a.0));
    assert(qb.face == sweep_face(b.0) && qb.layer == sweep_layer(b.0));
    assert(sweep_index(sweep_face(a.0), sweep_layer(a.0)) == a.0);
    assert(sweep_index(sweep_face(b.0), sweep_layer(b.0)) == b.0);
    assert(a.0 == b.0);
    if a.1 != b.1 {
        assert(in_rect(sweep_quads(cells, a.0)[a.1].rect, u, v));
        assert(in_rect(sweep_quads(cells, a.0)[b.1].rect, u, v));
    }
}

/// A chunk in which no cell shows a face has no quads, and its mesh has no
/// vertices and no triangles.
pub proof fn lemma_no_visible_face_no_mesh(cells: Seq<Voxel>)
    requires
        forall|face: Face, layer: int, u: int, v: int|
            0 <= layer < CHUNK_LENGTH && in_slice(u, v) ==> !#[trigger] face_visible(
                cells,
                face,
                layer,
                u,
                v,
            ),
    ensures
        chunk_quads(cells).len() == 0,
        chunk_mesh(cells) == MeshView::empty(),
{
    lemma_blank_sweep(cells, SWEEP_LAYERS as int);
    assert(chunk_quads(cells) =~= Seq::<Quad>::empty());
}

/// Layers in which no cell shows a face add no quads to the sweep.
proof fn lemma_blank_sweep(cells: Seq<Voxel>, s: int)
    requires
        0 <= s <= SWEEP_LAYERS,
        forall|face: Face, layer: int, u: int, v: int|
            0 <= layer < CHUNK_LENGTH && in_slice(u, v) ==> !#[trigger] face_visible(
                cells,
                face,
                layer,
                u,
                v,
            ),
    ensures
        quads_upto(cells, s).len() == 0,
    decreases s,
{
    if s > 0 {
        lemma_blank_sweep(cells, s - 1);
        let face = sweep_face(s - 1);
        let layer = sweep_layer(s - 1);
        let mask = slice_mask(cells, face, layer);
        assert forall|j: int| 0 <= j < SLICE_AREA implies mask[j] == 0 by {
            assert(in_slice(col(j), row(j)));
            assert(!face_visible(cells, face, layer, col(j), row(j)));
        }
        lemma_merge_blank(mask, 0);
    }
}

/// A chunk whose cells are all empty, border included, has a mesh without
/// vertices and without triangles.
pub proof fn lemma_empty_chunk_empty_mesh(cells: Seq<Voxel>)
    requires
        cells.len() == PADDED_VOLUME,
        forall|i: int| 0 <= i < PADDED_VOLUME ==> (#[trigger] cells[i]).is_empty(),
    ensures
        chunk_quads(cells).len() == 0,
        chunk_mesh(cells).positions.len() == 0,
        chunk_mesh(cells).indices.len() == 0,
        chunk_mesh(cells) == MeshView::empty(),
{
    assert forall|face: Face, layer: int, u: int, v: int|
        0 <= layer < CHUNK_LENGTH && in_slice(u, v) implies !#[trigger] face_visible(
        cells,
        face,
        layer,
        u,
        v,
    ) by {
        let i = layer_cell(face, layer, u, v);
        assert(0 <= i < PADDED_VOLUME);
        assert(cells[i].is_empty());
    }
    lemma_no_visible_face_no_mesh(cells);
}

/// The mesh of any chunk is valid: its lists are aligned, every triangle
/// corner names an existing vertex, and the corners come in threes. It
/// holds four vertices and two triangles for each quad.
pub proof fn lemma_chunk_mesh_valid(cells: Seq<Voxel>)
    ensures
        chunk_mesh(cells).wf(),
        chunk_mesh(cells).indices.len() % 3 == 0,
        forall|i: int|
            0 <= i < chunk_mesh(cells).indices.len() ==> (#[trigger] chunk_mesh(cells).indices[i])
                < chunk_mesh(cells).positions.len(),
        chunk_mesh(cells).positions.len() == 4 * chunk_quads(cells).len(),
        chunk_mesh(cells).indices.len() == 6 * chunk_quads(cells).len(),
{
    lemma_quads_upto_len(cells, SWEEP_LAYERS as int);
    lemma_mesh_of(chunk_quads(cells));
}

/// Every cell of the chunk proper holds a voxel of identity `tag`, which is
/// not empty, and every cell of the border is empty.
pub open spec fn solid_chunk(cells: Seq<Voxel>, tag: u8) -> bool {
    &&& cells.len() == PADDED_VOLUME
    &&& tag != 0
    &&& forall|x: int, y: int, z: int|
        0 <= x < PADDED_LENGTH && 0 <= y < PADDED_LENGTH && 0 <= z < PADDED_LENGTH
            ==> #[trigger] cells[cell_index(x, y, z)] == (if 1 <= x <= CHUNK_LENGTH && 1 <= y
            <= CHUNK_LENGTH && 1 <= z <= CHUNK_LENGTH {
            Voxel(tag)
        } else {
            Voxel(0)
        })
}

/// The layer of the chunk that lies outermost in a face direction.
pub open spec fn outer_layer(face: Face) -> int {
    if face.positive() {
        CHUNK_LENGTH - 1
    } else {
        0
    }
}

/// The quad that covers the whole outer side of the chunk in a direction.
pub open spec fn side_quad(face: Face, tag: u8) -> Quad {
    Quad {
        face,
        layer: outer_layer(face) as u32,
        rect: Rect { u: 0, v: 0, w: CHUNK_LENGTH, h: CHUNK_LENGTH, tag },
    }
}

/// Number of face directions whose outer layer lies among the first `s`
/// layers of the sweep.
pub open spec fn sides_within(s: int) -> int {
    (if sweep_index(Face::NegX, outer_layer(Face::NegX)) < s { 1int } else { 0 })
    + (if sweep_index(Face::PosX, outer_layer(Face::PosX)) < s { 1int } else { 0 })
    + (if sweep_index(Face::NegY, outer_layer(Face::NegY)) < s { 1int } else { 0 })
    + (if sweep_index(Face::PosY, outer_layer(Face::PosY)) < s { 1int } else { 0 })
    + (if sweep_index(Face::NegZ, outer_layer(Face::NegZ)) < s { 1int } else { 0 })
    + (if sweep_index(Face::PosZ, outer_layer(Face::PosZ)) < s { 1int } else { 0 })
}

/// In a solid chunk a layer shows faces in a direction only where it is the
/// outermost layer in that direction, and there every cell shows one.
proof fn lemma_solid_layer(cells: Seq<Voxel>, tag: u8, face: Face, layer: int)
    requires
        solid_chunk(cells, tag),
        0 <= layer < CHUNK_LENGTH,
    ensures
        slice_quads(cells, face, layer) == (if layer == outer_layer(face) {
            seq![side_quad(face, tag)]
        } else {
            Seq::<Quad>::empty()
        }),
{
    let mask = slice_mask(cells, face, layer);
    let want: u8 = if layer == outer_layer(face) { tag } else { 0 };
    assert forall|i: int| 0 <= i < SLICE_AREA implies mask[i] == want by {
        let u = col(i);
        let v = row(i);
        let step: int = if face.positive() { 1 } else { -1 };
        let here = place(face.axis(), layer + 1, u + 1, v + 1);
        let there = place(face.axis(), layer + 1 + step, u + 1, v + 1);
        assert(cells[cell_index(here.0, here.1, here.2)] == Voxel(tag));
        assert(cells[cell_index(there.0, there.1, there.2)] == (if layer == outer_layer(face) {
            Voxel(0)
        } else {
            Voxel(tag)
        }));
    }
    if layer == outer_layer(face) {
        lemma_merge_uniform(mask, tag);
        assert(slice_quads(cells, face, layer) =~= seq![side_quad(face, tag)]);
    } else {
        lemma_merge_blank(mask, 0);
        assert(slice_quads(cells, face, layer) =~= Seq::<Quad>::empty());
    }
}

/// The first `s` layers of the sweep over a solid chunk hold one quad for
/// each side whose outer layer is among them, in the order of the faces.
proof fn lemma_solid_sweep(cells: Seq<Voxel>, tag: u8, s: int)
    requires
        solid_chunk(cells, tag),
        0 <= s <= SWEEP_LAYERS,
    ensures
        quads_upto(cells, s) == Seq::new(
            sides_within(s) as nat,
            |j: int| side_quad(Face::of_ordinal(j), tag),
        ),
    decreases s,
{
    let want = Seq::new(sides_within(s) as nat, |j: int| side_quad(Face::of_ordinal(j), tag));
    if s > 0 {
        lemma_solid_sweep(cells, tag, s - 1);
        let face = sweep_face(s - 1);
        let layer = sweep_layer(s - 1);
        lemma_solid_layer(cells, tag, face, layer);
        assert(sweep_index(face, layer) == s - 1);
        if layer == outer_layer(face) {
            assert(sides_within(s - 1) == face.ordinal());
            assert(sides_within(s) == face.ordinal() + 1);
            assert(Face::of_ordinal(face.ordinal()) == face);
        } else {
            assert(sides_within(s) == sides_within(s - 1));
        }
        assert(quads_upto(cells, s) =~= want);
    } else {
        assert(quads_upto(cells, s) =~= want);
    }
}

/// A solid chunk with an empty border has exactly six quads, one for each of
/// its outer sides and each covering the whole side. No face inside the
/// chunk is meshed. The mesh holds 24 vertices and 12 triangles.
pub proof fn lemma_solid_chunk_six_quads(cells: Seq<Voxel>, tag: u8)
    requires
        solid_chunk(cells, tag),
    ensures
        chunk_quads(cells) == seq![
            side_quad(Face::NegX, tag),
            side_quad(Face::PosX, tag),
            side_quad(Face::NegY, tag),
            side_quad(Face::PosY, tag),
            side_quad(Face::NegZ, tag),
            side_quad(Face::PosZ, tag),
        ],
        chunk_mesh(cells).positions.len() == 24,
        chunk_mesh(cells).indices.len() == 36,
{
    lemma_solid_sweep(cells, tag, SWEEP_LAYERS as int);
    assert(sides_within(SWEEP_LAYERS as int) == 6);
    assert(chunk_quads(cells) =~= seq![
        side_quad(Face::NegX, tag),
        side_quad(Face::PosX, tag),
        side_quad(Face::NegY, tag),
        side_quad(Face::PosY, tag),
        side_quad(Face::NegZ, tag),
        side_quad(Face::PosZ, tag),
    ]);
    lemma_chunk_mesh_valid(cells);
}

/// The quads and the mesh of a chunk are a function of its cells: chunks
/// that agree cell by cell have the same quads in the same order, and the
/// same vertices, normals, texture coordinates and triangle corners.
pub proof fn lemma_equal_cells_equal_mesh(a: Seq<Voxel>, b: Seq<Voxel>)
    requires
        a.len() == b.len(),
        forall|i: int| 0 <= i < a.len() ==> a[i] == b[i],
    ensures
        chunk_quads(a) == chunk_quads(b),
        chunk_mesh(a) == chunk_mesh(b),
{
    assert(a =~= b);
}

/// Identity of the cells with padded coordinate `x` in a chunk whose
/// identity alternates along x between `a` and `b`.
pub open spec fn stripe_tag(a: u8, b: u8, x: int) -> u8 {
    if x % 2 == 1 {
        a
    } else {
        b
    }
}

/// The cells of the chunk proper alternate along x between two different
/// identities, neither of them empty, and every cell of the border is empty.
pub open spec fn striped_chunk(cells: Seq<Voxel>, a: u8, b: u8) -> bool {
    &&& cells.len() == PADDED_VOLUME
    &&& a != 0
    &&& b != 0
    &&& a != b
    &&& forall|x: int, y: int, z: int|
        0 <= x < PADDED_LENGTH && 0 <= y < PADDED_LENGTH && 0 <= z < PADDED_LENGTH
            ==> #[trigger] cells[cell_index(x, y, z)] == (if 1 <= x <= CHUNK_LENGTH && 1 <= y
            <= CHUNK_LENGTH && 1 <= z <= CHUNK_LENGTH {
            Voxel(stripe_tag(a, b, x))
        } else {
            Voxel(0)
        })
}

/// The quads of one layer of a chunk that is striped along x. Only the
/// outermost layer in a direction has any. Across x it has one quad over
/// the whole side. Along x it has one quad for each cell along x, as long
/// as the side and one cell wide: no quad spans two identities.
pub open spec fn striped_layer_quads(a: u8, b: u8, face: Face, layer: int) -> Seq<Quad> {
    if layer != outer_layer(face) {
        Seq::empty()
    } else if face.axis() == 0 {
        seq![side_quad(face, stripe_tag(a, b, layer + 1))]
    } else if face.axis() == 1 {
        Seq::new(
            CHUNK_LENGTH as nat,
            |k: int| Quad { face, layer: layer as u32, rect: row_strip(k, stripe_tag(a, b, k + 1)) },
        )
    } else {
        Seq::new(
            CHUNK_LENGTH as nat,
            |k: int|
                Quad { face, layer: layer as u32, rect: column_strip(k, stripe_tag(a, b, k + 1)) },
        )
    }
}

/// Number of quads that a chunk striped along x has in the first `s` layers
/// of the sweep.
pub open spec fn stripes_within(s: int) -> int {
    (if sweep_index(Face::NegX, outer_layer(Face::NegX)) < s { 1int } else { 0 })
    + (if sweep_index(Face::PosX, outer_layer(Face::PosX)) < s { 1int } else { 0 })
    + (if sweep_index(Face::NegY, outer_layer(Face::NegY)) < s { CHUNK_LENGTH as int } else { 0 })
    + (if sweep_index(Face::PosY, outer_layer(Face::PosY)) < s { CHUNK_LENGTH as int } else { 0 })
    + (if sweep_index(Face::NegZ, outer_layer(Face::NegZ)) < s { CHUNK_LENGTH as int } else { 0 })
    + (if sweep_index(Face::PosZ, outer_layer(Face::PosZ)) < s { CHUNK_LENGTH as int } else { 0 })
}

/// The quads of each layer of a chunk that is striped along x.
pub proof fn lemma_striped_layer(cells: Seq<Voxel>, a: u8, b: u8, face: Face, layer: int)
    requires
        striped_chunk(cells, a, b),
        0 <= layer < CHUNK_LENGTH,
    ensures
        slice_quads(cells, face, layer) == striped_layer_quads(a, b, face, layer),
{
    let mask = slice_mask(cells, face, layer);
    let outer = layer == outer_layer(face);
    assert forall|u: int, v: int| in_slice(u, v) implies #[trigger] mask[slot(u, v)] == (if !outer {
        0u8
    } else if face.axis() == 0 {
        stripe_tag(a, b, layer + 1)
    } else if face.axis() == 1 {
        stripe_tag(a, b, v + 1)
    } else {
        stripe_tag(a, b, u + 1)
    }) by {
        assert(col(slot(u, v)) == u && row(slot(u, v)) == v);
        let step: int = if face.positive() { 1 } else { -1 };
        let here = place(face.axis(), layer + 1, u + 1, v + 1);
        let there = place(face.axis(), layer + 1 + step, u + 1, v + 1);
        assert(cells[cell_index(here.0, here.1, here.2)] == Voxel(stripe_tag(a, b, here.0)));
        assert(outer ==> cells[cell_index(there.0, there.1, there.2)] == Voxel(0));
        assert(!outer ==> cells[cell_index(there.0, there.1, there.2)] == Voxel(
            stripe_tag(a, b, there.0),
        ));
    }
    assert forall|i: int| 0 <= i < SLICE_AREA implies mask[i] == mask[slot(col(i), row(i))] by {
        assert(slot(col(i), row(i)) == i);
    }
    if !outer {
        assert forall|i: int| 0 <= i < SLICE_AREA implies mask[i] == 0 by {
            assert(in_slice(col(i), row(i)));
        }
        lemma_merge_blank(mask, 0);
        assert(slice_quads(cells, face, layer) =~= striped_layer_quads(a, b, face, layer));
    } else if face.axis() == 0 {
        let tag = stripe_tag(a, b, layer + 1);
        assert forall|i: int| 0 <= i < SLICE_AREA implies mask[i] == tag by {
            assert(in_slice(col(i), row(i)));
        }
        lemma_merge_uniform(mask, tag);
        assert(slice_quads(cells, face, layer) =~= striped_layer_quads(a, b, face, layer));
    } else if face.axis() == 1 {
        let tags = |v: int| stripe_tag(a, b, v + 1);
        assert(rows_striped(mask, tags, 0)) by {
            assert forall|u: int, v: int|
                0 <= u < CHUNK_LENGTH && 0 <= v < CHUNK_LENGTH implies #[trigger] mask[slot(u, v)]
                == tags(v) by {
                assert(in_slice(u, v));
            }
        }
        lemma_merge_row_stripes(mask, tags, 0);
        assert(slice_quads(cells, face, layer) =~= striped_layer_quads(a, b, face, layer));
    } else {
        let tags = |u: int| stripe_tag(a, b, u + 1);
        assert(columns_striped(mask, tags, 0)) by {
            assert forall|u: int, v: int|
                0 <= u < CHUNK_LENGTH && 0 <= v < CHUNK_LENGTH implies #[trigger] mask[slot(u, v)]
                == (if u < 0 {
                0u8
            } else {
                tags(u)
            }) by {
                assert(in_slice(u, v));
            }
        }
        lemma_merge_column_stripes(mask, tags, 0);
        assert(slice_quads(cells, face, layer) =~= striped_layer_quads(a, b, face, layer));
    }
}

/// Counts the quads in the first `s` layers of the sweep over a chunk that
/// is striped along x.
proof fn lemma_striped_sweep(cells: Seq<Voxel>, a: u8, b: u8, s: int)
    requires
        striped_chunk(cells, a, b),
        0 <= s <= SWEEP_LAYERS,
    ensures
        quads_upto(cells, s).len() == stripes_within(s),
    decreases s,
{
    if s > 0 {
        lemma_striped_sweep(cells, a, b, s - 1);
        let face = sweep_face(s - 1);
        let layer = sweep_layer(s - 1);
        lemma_striped_layer(cells, a, b, face, layer);
        assert(sweep_index(face, layer) == s - 1);
    }
}

/// A chunk whose identity alternates along x has one quad on each of the
/// two sides across x, and on each of the four sides along x one quad for
/// each cell along x: merging never crosses from one identity to another.
pub proof fn lemma_striped_chunk_quads(cells: Seq<Voxel>, a: u8, b: u8)
    requires
        striped_chunk(cells, a, b),
    ensures
        forall|face: Face, layer: int|
            0 <= layer < CHUNK_LENGTH ==> #[trigger] slice_quads(cells, face, layer)
                == striped_layer_quads(a, b, face, layer),
        chunk_quads(cells).len() == 2 + 4 * CHUNK_LENGTH,
        chunk_mesh(cells).positions.len() == 4 * (2 + 4 * CHUNK_LENGTH),
        chunk_mesh(cells).indices.len() == 6 * (2 + 4 * CHUNK_LENGTH),
{
    assert forall|face: Face, layer: int| 0 <= layer < CHUNK_LENGTH implies #[trigger] slice_quads(
        cells,
        face,
        layer,
    ) == striped_layer_quads(a, b, face, layer) by {
        lemma_striped_layer(cells, a, b, face, layer);
    }
    lemma_striped_sweep(cells, a, b, SWEEP_LAYERS as int);
    lemma_chunk_mesh_valid(cells);
}

} // verus!
