//! Greedy merging of one slice into rectangles.
//!
//! A slice is a square grid of tags, one per cell, stored row by row. A tag
//! of `0` marks a cell that needs no face; any other tag is the identity of
//! the voxel whose face is visible there. Merging walks the grid in row
//! order. At the first cell that still carries a tag it grows a rectangle,
//! first along the row and then row by row, as long as every new cell
//! carries the same tag. The covered cells are cleared and the walk goes on.

use vstd::prelude::*;
use crate::shape::{CHUNK_LENGTH, SLICE_AREA};

verus! {

/// A rectangle of cells in a slice: `w` cells wide from column `u`, `h` rows
/// high from row `v`, all of them showing the voxel identity `tag`.
#[derive(Clone, Copy, PartialEq, Eq, Structural, Debug, Hash)]
pub struct Rect {
    pub u: u32,
    pub v: u32,
    pub w: u32,
    pub h: u32,
    pub tag: u8,
}

/// Position in a slice of the cell in column `u` of row `v`.
pub open spec fn slot(u: int, v: int) -> int {
    v * CHUNK_LENGTH + u
}

/// Column of the cell stored at position `i` of a slice.
pub open spec fn col(i: int) -> int {
    i % (CHUNK_LENGTH as int)
}

/// Row of the cell stored at position `i` of a slice.
pub open spec fn row(i: int) -> int {
    i / (CHUNK_LENGTH as int)
}

/// The cell `(u, v)` lies inside the slice.
pub open spec fn in_slice(u: int, v: int) -> bool {
    0 <= u < CHUNK_LENGTH && 0 <= v < CHUNK_LENGTH
}

/// The cell `(u, v)` is one of the cells of `r`.
pub open spec fn in_rect(r: Rect, u: int, v: int) -> bool {
    r.u <= u < r.u + r.w && r.v <= v < r.v + r.h
}

/// Number of cells, starting at column `u` of row `v` and going right, that
/// carry `tag` without interruption.
pub open spec fn run_width(mask: Seq<u8>, u: int, v: int, tag: u8) -> int
    decreases CHUNK_LENGTH - u,
{
    if 0 <= u < CHUNK_LENGTH && mask[slot(u, v)] == tag {
        1 + run_width(mask, u + 1, v, tag)
    } else {
        0
    }
}

/// The `w` cells of row `v` that start at column `u` all carry `tag`.
pub open spec fn row_matches(mask: Seq<u8>, u: int, v: int, w: int, tag: u8) -> bool {
    forall|k: int| u <= k < u + w ==> #[trigger] mask[slot(k, v)] == tag
}

/// Number of rows, starting at row `v` and going down, in which the `w` cells
/// from column `u` all carry `tag`, without interruption.
pub open spec fn run_height(mask: Seq<u8>, u: int, v: int, w: int, tag: u8) -> int
    decreases CHUNK_LENGTH - v,
{
    if 0 <= v < CHUNK_LENGTH && row_matches(mask, u, v, w, tag) {
        1 + run_height(mask, u, v + 1, w, tag)
    } else {
        0
    }
}

/// The rectangle that merging grows from the cell at position `i`.
pub open spec fn rect_at(mask: Seq<u8>, i: int) -> Rect {
    let tag = mask[i];
    let w = run_width(mask, col(i), row(i), tag);
    let h = run_height(mask, col(i), row(i), w, tag);
    Rect { u: col(i) as u32, v: row(i) as u32, w: w as u32, h: h as u32, tag }
}

/// The slice with every cell of `r` cleared.
pub open spec fn clear_rect(mask: Seq<u8>, r: Rect) -> Seq<u8> {
    Seq::new(mask.len(), |i: int| if in_rect(r, col(i), row(i)) { 0u8 } else { mask[i] })
}

/// The rectangles that merging produces from position `i` onwards.
pub open spec fn merge_from(mask: Seq<u8>, i: int) -> Seq<Rect>
    decreases SLICE_AREA - i,
{
    if i < 0 || i >= SLICE_AREA {
        Seq::empty()
    } else if mask[i] == 0 {
        merge_from(mask, i + 1)
    } else {
        seq![rect_at(mask, i)] + merge_from(clear_rect(mask, rect_at(mask, i)), i + 1)
    }
}

/// The rectangles that merging produces for a whole slice, in the order in
/// which the walk meets their first cells.
pub open spec fn merge_slice(mask: Seq<u8>) -> Seq<Rect> {
    merge_from(mask, 0)
}

/// `r` lies inside the slice, is not degenerate, and every one of its cells
/// carries the tag of `r`, which is not `0`.
pub open spec fn rect_uniform(mask: Seq<u8>, r: Rect) -> bool {
    &&& r.w >= 1
    &&& r.h >= 1
    &&& r.u + r.w <= CHUNK_LENGTH
    &&& r.v + r.h <= CHUNK_LENGTH
    &&& r.tag != 0
    &&& forall|u: int, v: int| #[trigger] in_rect(r, u, v) ==> mask[slot(u, v)] == r.tag
}

/// `r` cannot grow: the cell to the right of its first row, and some cell of
/// the row below it, is outside the slice or does not carry the tag of `r`.
pub open spec fn rect_maximal(mask: Seq<u8>, r: Rect) -> bool {
    &&& r.u + r.w == CHUNK_LENGTH || mask[slot(r.u + r.w, r.v as int)] != r.tag
    &&& r.v + r.h == CHUNK_LENGTH || !row_matches(
        mask,
        r.u as int,
        r.v + r.h,
        r.w as int,
        r.tag,
    )
}

/// A run ends inside the row, covers only cells that carry the tag, and stops
/// at the row's end or at a cell that carries another tag.
pub proof fn lemma_run_width(mask: Seq<u8>, u: int, v: int, tag: u8)
    requires
        0 <= u <= CHUNK_LENGTH,
    ensures
        0 <= run_width(mask, u, v, tag) <= CHUNK_LENGTH - u,
        row_matches(mask, u, v, run_width(mask, u, v, tag), tag),
        u + run_width(mask, u, v, tag) == CHUNK_LENGTH || mask[slot(
            u + run_width(mask, u, v, tag),
            v,
        )] != tag,
    decreases CHUNK_LENGTH - u,
{
    if u < CHUNK_LENGTH && mask[slot(u, v)] == tag {
        lemma_run_width(mask, u + 1, v, tag);
    }
}

/// A stack of rows ends inside the slice, holds only matching rows, and stops
/// at the slice's end or at a row that does not match.
pub proof fn lemma_run_height(mask: Seq<u8>, u: int, v: int, w: int, tag: u8)
    requires
        0 <= v <= CHUNK_LENGTH,
    ensures
        0 <= run_height(mask, u, v, w, tag) <= CHUNK_LENGTH - v,
        forall|r: int|
            v <= r < v + run_height(mask, u, v, w, tag) ==> #[trigger] row_matches(
                mask,
                u,
                r,
                w,
                tag,
            ),
        v + run_height(mask, u, v, w, tag) == CHUNK_LENGTH || !row_matches(
            mask,
            u,
            v + run_height(mask, u, v, w, tag),
            w,
            tag,
        ),
    decreases CHUNK_LENGTH - v,
{
    if v < CHUNK_LENGTH && row_matches(mask, u, v, w, tag) {
        lemma_run_height(mask, u, v + 1, w, tag);
    }
}

/// The rectangle grown from a cell that carries a tag starts at that cell,
/// is uniform and cannot grow.
pub proof fn lemma_rect_at(mask: Seq<u8>, i: int)
    requires
        mask.len() == SLICE_AREA,
        0 <= i < SLICE_AREA,
        mask[i] != 0,
    ensures
        rect_at(mask, i).u == col(i),
        rect_at(mask, i).v == row(i),
        rect_at(mask, i).tag == mask[i],
        rect_uniform(mask, rect_at(mask, i)),
        rect_maximal(mask, rect_at(mask, i)),
        in_rect(rect_at(mask, i), col(i), row(i)),
{
    let tag = mask[i];
    let u = col(i);
    let v = row(i);
    let w = run_width(mask, u, v, tag);
    let h = run_height(mask, u, v, w, tag);
    let r = rect_at(mask, i);
    assert(slot(u, v) == i);
    lemma_run_width(mask, u, v, tag);
    lemma_run_width(mask, u + 1, v, tag);
    lemma_run_height(mask, u, v, w, tag);
    lemma_run_height(mask, u, v + 1, w, tag);
    assert(w >= 1);
    assert(row_matches(mask, u, v, w, tag));
    assert(h >= 1);
    assert forall|a: int, b: int| #[trigger] in_rect(r, a, b) implies mask[slot(a, b)] == r.tag by {
        assert(row_matches(mask, u, b, w, tag));
    }
}

/// Clearing a rectangle keeps the slice's size, empties the rectangle's
/// cells and leaves every other cell of the slice as it was.
pub proof fn lemma_clear_rect(mask: Seq<u8>, r: Rect)
    requires
        mask.len() == SLICE_AREA,
    ensures
        clear_rect(mask, r).len() == SLICE_AREA,
        forall|u: int, v: int|
            in_slice(u, v) ==> #[trigger] clear_rect(mask, r)[slot(u, v)] == (if in_rect(r, u, v) {
                0u8
            } else {
                mask[slot(u, v)]
            }),
{
    assert forall|u: int, v: int| in_slice(u, v) implies #[trigger] clear_rect(mask, r)[slot(
        u,
        v,
    )] == (if in_rect(r, u, v) {
        0u8
    } else {
        mask[slot(u, v)]
    }) by {
        let i = slot(u, v);
        assert(0 <= i < SLICE_AREA);
        assert(col(i) == u && row(i) == v);
    }
}

/// What merging produces from position `i` onwards: uniform rectangles that
/// cannot grow in what is left of the slice, no two of which share a cell,
/// and which together cover every cell from `i` onwards that carries a tag.
pub proof fn lemma_merge_from(mask: Seq<u8>, i: int)
    requires
        mask.len() == SLICE_AREA,
        0 <= i <= SLICE_AREA,
    ensures
        merge_from(mask, i).len() <= SLICE_AREA - i,
        forall|k: int|
            0 <= k < merge_from(mask, i).len() ==> rect_uniform(mask, #[trigger] merge_from(
                mask,
                i,
            )[k]),
        forall|k: int, l: int, u: int, v: int|
            0 <= k < merge_from(mask, i).len() && 0 <= l < merge_from(mask, i).len() && k != l
                && #[trigger] in_rect(merge_from(mask, i)[k], u, v) ==> !#[trigger] in_rect(
                merge_from(mask, i)[l],
                u,
                v,
            ),
        forall|u: int, v: int|
            in_slice(u, v) && slot(u, v) >= i && mask[slot(u, v)] != 0 ==> exists|k: int|
                0 <= k < merge_from(mask, i).len() && #[trigger] in_rect(
                    merge_from(mask, i)[k],
                    u,
                    v,
                ),
    decreases SLICE_AREA - i,
{
    let q = merge_from(mask, i);
    if i >= SLICE_AREA {
        assert forall|u: int, v: int|
            in_slice(u, v) && slot(u, v) >= i && mask[slot(u, v)] != 0 implies exists|k: int|
            0 <= k < q.len() && #[trigger] in_rect(q[k], u, v) by {
            assert(slot(u, v) < SLICE_AREA);
        }
    } else if mask[i] == 0 {
        lemma_merge_from(mask, i + 1);
        assert(q == merge_from(mask, i + 1));
    } else {
        let r = rect_at(mask, i);
        let rest_mask = clear_rect(mask, r);
        let rest = merge_from(rest_mask, i + 1);
        lemma_rect_at(mask, i);
        lemma_clear_rect(mask, r);
        lemma_merge_from(rest_mask, i + 1);
        assert(q == seq![r] + rest);
        assert(q[0] == r);
        assert forall|k: int| 1 <= k < q.len() implies #[trigger] q[k] == rest[k - 1] by {}
        // A rectangle of the rest holds only cells that still carry a tag,
        // so it holds no cell of `r`, and its cells are unchanged.
        assert forall|k: int, u: int, v: int|
            0 <= k < rest.len() && #[trigger] in_rect(rest[k], u, v) implies !in_rect(r, u, v)
            && mask[slot(u, v)] == rest[k].tag by {
            assert(rect_uniform(rest_mask, rest[k]));
            assert(in_slice(u, v));
            assert(rest_mask[slot(u, v)] == rest[k].tag);
        }
        assert forall|k: int| 0 <= k < q.len() implies rect_uniform(mask, #[trigger] q[k]) by {
            if k > 0 {
                assert(q[k] == rest[k - 1]);
                assert(rect_uniform(rest_mask, rest[k - 1]));
                assert forall|u: int, v: int| #[trigger]
                    in_rect(rest[k - 1], u, v) implies mask[slot(u, v)] == rest[k - 1].tag by {}
            }
        }
        assert forall|k: int, l: int, u: int, v: int|
            0 <= k < q.len() && 0 <= l < q.len() && k != l && #[trigger] in_rect(
                q[k],
                u,
                v,
            ) implies !#[trigger] in_rect(q[l], u, v) by {
            if k == 0 {
                assert(q[l] == rest[l - 1]);
                if in_rect(rest[l - 1], u, v) {
                    assert(!in_rect(r, u, v));
                }
            } else if l == 0 {
                assert(q[k] == rest[k - 1]);
                assert(in_rect(rest[k - 1], u, v));
            } else {
                assert(q[k] == rest[k - 1]);
                assert(q[l] == rest[l - 1]);
                assert(in_rect(rest[k - 1], u, v));
            }
        }
        assert forall|u: int, v: int|
            in_slice(u, v) && slot(u, v) >= i && mask[slot(u, v)] != 0 implies exists|k: int|
            0 <= k < q.len() && #[trigger] in_rect(q[k], u, v) by {
            if in_rect(r, u, v) {
                assert(in_rect(q[0], u, v));
            } else {
                assert(slot(u, v) != i) by {
                    assert(col(slot(u, v)) == u && row(slot(u, v)) == v);
                }
                assert(rest_mask[slot(u, v)] == mask[slot(u, v)]);
                let k = choose|k: int| 0 <= k < rest.len() && #[trigger] in_rect(rest[k], u, v);
                assert(q[k + 1] == rest[k]);
                assert(in_rect(q[k + 1], u, v));
            }
        }
    }
}

/// Merging a slice partitions its tagged cells into uniform rectangles: every
/// rectangle covers only cells that show its own tag, no two rectangles share
/// a cell, and a cell is covered exactly when it carries a tag. There are at
/// most as many rectangles as cells.
pub proof fn lemma_merge_slice_partitions(mask: Seq<u8>)
    requires
        mask.len() == SLICE_AREA,
    ensures
        merge_slice(mask).len() <= SLICE_AREA,
        forall|k: int|
            0 <= k < merge_slice(mask).len() ==> rect_uniform(mask, #[trigger] merge_slice(
                mask,
            )[k]),
        forall|k: int, l: int, u: int, v: int|
            0 <= k < merge_slice(mask).len() && 0 <= l < merge_slice(mask).len() && k != l
                && #[trigger] in_rect(merge_slice(mask)[k], u, v) ==> !#[trigger] in_rect(
                merge_slice(mask)[l],
                u,
                v,
            ),
        forall|u: int, v: int|
            in_slice(u, v) ==> (mask[slot(u, v)] != 0 <==> exists|k: int|
                0 <= k < merge_slice(mask).len() && #[trigger] in_rect(merge_slice(mask)[k], u, v)),
{
    lemma_merge_from(mask, 0);
    let q = merge_slice(mask);
    assert forall|u: int, v: int| in_slice(u, v) implies (mask[slot(u, v)] != 0 <==> exists|
        k: int,
    |
        0 <= k < q.len() && #[trigger] in_rect(q[k], u, v)) by {
        if exists|k: int| 0 <= k < q.len() && #[trigger] in_rect(q[k], u, v) {
            let k = choose|k: int| 0 <= k < q.len() && #[trigger] in_rect(q[k], u, v);
            assert(rect_uniform(mask, q[k]));
        }
    }
}

/// A slice without tags merges into no rectangle at all.
pub proof fn lemma_merge_blank(mask: Seq<u8>, i: int)
    requires
        mask.len() == SLICE_AREA,
        0 <= i <= SLICE_AREA,
        forall|j: int| i <= j < SLICE_AREA ==> mask[j] == 0,
    ensures
        merge_from(mask, i) == Seq::<Rect>::empty(),
    decreases SLICE_AREA - i,
{
    if i < SLICE_AREA {
        lemma_merge_blank(mask, i + 1);
    }
}

/// Measures the run of cells that carry `tag`, from column `u` of row `v`.
pub fn measure_width(mask: &Vec<u8>, u: usize, v: usize, tag: u8) -> (w: usize)
    requires
        mask@.len() == SLICE_AREA,
        u <= CHUNK_LENGTH,
        v < CHUNK_LENGTH,
    ensures
        w == run_width(mask@, u as int, v as int, tag),
        u + w <= CHUNK_LENGTH,
{
    let n: usize = CHUNK_LENGTH as usize;
    let mut w: usize = 0;
    while u + w < n && mask[v * n + u + w] == tag
        invariant
            n == CHUNK_LENGTH,
            mask@.len() == SLICE_AREA,
            v < CHUNK_LENGTH,
            u + w <= CHUNK_LENGTH,
            run_width(mask@, u as int, v as int, tag) == w + run_width(
                mask@,
                u + w,
                v as int,
                tag,
            ),
        decreases CHUNK_LENGTH - u - w,
    {
        assert(slot(u + w, v as int) == v * n + u + w);
        w = w + 1;
    }
    assert(slot(u + w, v as int) == v * n + u + w);
    w
}

/// Tests whether the `w` cells of row `v` from column `u` all carry `tag`.
pub fn row_carries(mask: &Vec<u8>, u: usize, v: usize, w: usize, tag: u8) -> (b: bool)
    requires
        mask@.len() == SLICE_AREA,
        u + w <= CHUNK_LENGTH,
        v < CHUNK_LENGTH,
    ensures
        b == row_matches(mask@, u as int, v as int, w as int, tag),
{
    let n: usize = CHUNK_LENGTH as usize;
    let mut k: usize = 0;
    while k < w
        invariant
            n == CHUNK_LENGTH,
            mask@.len() == SLICE_AREA,
            u + w <= CHUNK_LENGTH,
            v < CHUNK_LENGTH,
            k <= w,
            row_matches(mask@, u as int, v as int, k as int, tag),
        decreases w - k,
    {
        assert(slot(u + k, v as int) == v * n + u + k);
        if mask[v * n + u + k] != tag {
            return false;
        }
        k = k + 1;
    }
    true
}

/// Measures the stack of rows, from row `v` down, in which the `w` cells from
/// column `u` all carry `tag`.
pub fn measure_height(mask: &Vec<u8>, u: usize, v: usize, w: usize, tag: u8) -> (h: usize)
    requires
        mask@.len() == SLICE_AREA,
        u + w <= CHUNK_LENGTH,
        v <= CHUNK_LENGTH,
    ensures
        h == run_height(mask@, u as int, v as int, w as int, tag),
        v + h <= CHUNK_LENGTH,
{
    let n: usize = CHUNK_LENGTH as usize;
    let mut h: usize = 0;
    while v + h < n
        invariant
            n == CHUNK_LENGTH,
            mask@.len() == SLICE_AREA,
            u + w <= CHUNK_LENGTH,
            v + h <= CHUNK_LENGTH,
            run_height(mask@, u as int, v as int, w as int, tag) == h + run_height(
                mask@,
                u as int,
                v + h,
                w as int,
                tag,
            ),
        decreases CHUNK_LENGTH - v - h,
    {
        if !row_carries(mask, u, v + h, w, tag) {
            return h;
        }
        h = h + 1;
    }
    h
}

/// Clears every cell of `r` and leaves the other cells as they were.
pub fn erase_rect(mask: &mut Vec<u8>, r: Rect)
    requires
        old(mask)@.len() == SLICE_AREA,
        r.u + r.w <= CHUNK_LENGTH,
        r.v + r.h <= CHUNK_LENGTH,
    ensures
        final(mask)@ == clear_rect(old(mask)@, r),
{
    let n: usize = CHUNK_LENGTH as usize;
    let u0: usize = r.u as usize;
    let v0: usize = r.v as usize;
    let w: usize = r.w as usize;
    let h: usize = r.h as usize;
    let mut b: usize = 0;
    while b < h
        invariant
            n == CHUNK_LENGTH,
            u0 == r.u,
            v0 == r.v,
            w == r.w,
            h == r.h,
            u0 + w <= CHUNK_LENGTH,
            v0 + h <= CHUNK_LENGTH,
            b <= h,
            mask@.len() == SLICE_AREA,
            forall|i: int|
                0 <= i < SLICE_AREA ==> #[trigger] mask@[i] == (if in_rect(r, col(i), row(i))
                    && row(i) < v0 + b {
                    0u8
                } else {
                    old(mask)@[i]
                }),
        decreases h - b,
    {
        let mut a: usize = 0;
        while a < w
            invariant
                n == CHUNK_LENGTH,
                u0 == r.u,
                v0 == r.v,
                w == r.w,
                h == r.h,
                u0 + w <= CHUNK_LENGTH,
                v0 + h <= CHUNK_LENGTH,
                b < h,
                a <= w,
                mask@.len() == SLICE_AREA,
                forall|i: int|
                    0 <= i < SLICE_AREA ==> #[trigger] mask@[i] == (if in_rect(r, col(i), row(i))
                        && (row(i) < v0 + b || (row(i) == v0 + b && col(i) < u0 + a)) {
                        0u8
                    } else {
                        old(mask)@[i]
                    }),
            decreases w - a,
        {
            let i: usize = (v0 + b) * n + u0 + a;
            assert(col(i as int) == u0 + a && row(i as int) == v0 + b);
            mask.set(i, 0);
            a = a + 1;
        }
        b = b + 1;
    }
    assert(mask@ =~= clear_rect(old(mask)@, r));
}

/// Merges a slice of tags into rectangles and appends them to `out`, in the
/// order in which a row-by-row walk meets their first cells. The slice is
/// left without tags.
pub fn merge_mask(mask: &mut Vec<u8>, out: &mut Vec<Rect>)
    requires
        old(mask)@.len() == SLICE_AREA,
    ensures
        final(out)@ == old(out)@ + merge_slice(old(mask)@),
        final(mask)@.len() == SLICE_AREA,
        forall|i: int| 0 <= i < SLICE_AREA ==> final(mask)@[i] == 0,
{
    let n: usize = CHUNK_LENGTH as usize;
    let mut i: usize = 0;
    while i < SLICE_AREA
        invariant
            n == CHUNK_LENGTH,
            i <= SLICE_AREA,
            mask@.len() == SLICE_AREA,
            forall|j: int| 0 <= j < i ==> mask@[j] == 0,
            out@ + merge_from(mask@, i as int) == old(out)@ + merge_slice(old(mask)@),
        decreases SLICE_AREA - i,
    {
        let tag: u8 = mask[i];
        if tag != 0 {
            let u: usize = i % n;
            let v: usize = i / n;
            let w: usize = measure_width(mask, u, v, tag);
            let h: usize = measure_height(mask, u, v, w, tag);
            let r = Rect { u: u as u32, v: v as u32, w: w as u32, h: h as u32, tag };
            proof {
                assert(r == rect_at(mask@, i as int));
                lemma_rect_at(mask@, i as int);
                lemma_clear_rect(mask@, r);
                assert(out@.push(r) + merge_from(clear_rect(mask@, r), i + 1) =~= out@
                    + merge_from(mask@, i as int));
                assert forall|j: int| 0 <= j < i + 1 implies clear_rect(mask@, r)[j] == 0 by {
                    assert(slot(col(j), row(j)) == j);
                    assert(in_slice(col(j), row(j)));
                }
            }
            erase_rect(mask, r);
            out.push(r);
        }
        i = i + 1;
    }
    proof {
        assert(merge_from(mask@, i as int) =~= Seq::<Rect>::empty());
        assert(out@ + Seq::<Rect>::empty() =~= out@);
    }
}

/// A run over cells that all carry the tag reaches the end of the row.
pub proof fn lemma_run_width_to_end(mask: Seq<u8>, u: int, v: int, tag: u8)
    requires
        0 <= u <= CHUNK_LENGTH,
        row_matches(mask, u, v, CHUNK_LENGTH - u, tag),
    ensures
        run_width(mask, u, v, tag) == CHUNK_LENGTH - u,
    decreases CHUNK_LENGTH - u,
{
    if u < CHUNK_LENGTH {
        assert(mask[slot(u, v)] == tag);
        lemma_run_width_to_end(mask, u + 1, v, tag);
    }
}

/// A stack over rows that all match reaches the end of the slice.
pub proof fn lemma_run_height_to_end(mask: Seq<u8>, u: int, v: int, w: int, tag: u8)
    requires
        0 <= v <= CHUNK_LENGTH,
        forall|r: int| v <= r < CHUNK_LENGTH ==> #[trigger] row_matches(mask, u, r, w, tag),
    ensures
        run_height(mask, u, v, w, tag) == CHUNK_LENGTH - v,
    decreases CHUNK_LENGTH - v,
{
    if v < CHUNK_LENGTH {
        assert(row_matches(mask, u, v, w, tag));
        lemma_run_height_to_end(mask, u, v + 1, w, tag);
    }
}

/// The rectangle that covers a whole slice.
pub open spec fn whole_slice(tag: u8) -> Rect {
    Rect { u: 0, v: 0, w: CHUNK_LENGTH, h: CHUNK_LENGTH, tag }
}

/// A slice in which every cell carries the same tag merges into the one
/// rectangle that covers it.
pub proof fn lemma_merge_uniform(mask: Seq<u8>, tag: u8)
    requires
        mask.len() == SLICE_AREA,
        tag != 0,
        forall|i: int| 0 <= i < SLICE_AREA ==> mask[i] == tag,
    ensures
        merge_slice(mask) == seq![whole_slice(tag)],
{
    assert forall|r: int| 0 <= r < CHUNK_LENGTH implies #[trigger] row_matches(
        mask,
        0,
        r,
        CHUNK_LENGTH as int,
        tag,
    ) by {
        assert forall|k: int| 0 <= k < 0 + CHUNK_LENGTH implies #[trigger] mask[slot(k, r)]
            == tag by {
            assert(0 <= slot(k, r) < SLICE_AREA);
        }
    }
    lemma_run_width_to_end(mask, 0, 0, tag);
    lemma_run_height_to_end(mask, 0, 0, CHUNK_LENGTH as int, tag);
    let r = rect_at(mask, 0);
    assert(r == whole_slice(tag));
    let rest = clear_rect(mask, r);
    assert forall|j: int| 1 <= j < SLICE_AREA implies rest[j] == 0 by {
        assert(in_rect(r, col(j), row(j)));
    }
    lemma_merge_blank(rest, 1);
    assert(merge_slice(mask) =~= seq![whole_slice(tag)]);
}

/// One of the first `k` rectangles of `q` covers the cell `(u, v)`.
pub open spec fn covered_before(q: Seq<Rect>, k: int, u: int, v: int) -> bool {
    exists|l: int| 0 <= l < k && #[trigger] in_rect(q[l], u, v)
}

/// The cell `(u, v)` stops a rectangle of identity `tag` from growing over
/// it: it carries another tag, or an earlier rectangle has taken it.
pub open spec fn blocks(mask: Seq<u8>, q: Seq<Rect>, k: int, u: int, v: int, tag: u8) -> bool {
    mask[slot(u, v)] != tag || covered_before(q, k, u, v)
}

/// The `k`-th rectangle of `q` is as wide and as high as greedy growth makes
/// it: going right it stops only at the end of the row or at a blocking
/// cell, and going down only at the end of the slice or at a row, of its
/// own width, that holds a blocking cell.
pub open spec fn grown_fully(mask: Seq<u8>, q: Seq<Rect>, k: int) -> bool {
    let r = q[k];
    &&& r.u + r.w == CHUNK_LENGTH || blocks(mask, q, k, r.u + r.w, r.v as int, r.tag)
    &&& r.v + r.h == CHUNK_LENGTH || exists|a: int|
        r.u <= a < r.u + r.w && #[trigger] blocks(mask, q, k, a, r.v + r.h, r.tag)
}

/// Merging is greedy and walks in row order: every rectangle is grown
/// fully, and the first cells of the rectangles come in the order of the
/// walk, none before position `i`.
pub proof fn lemma_merge_is_greedy(mask: Seq<u8>, i: int)
    requires
        mask.len() == SLICE_AREA,
        0 <= i <= SLICE_AREA,
    ensures
        forall|k: int|
            0 <= k < merge_from(mask, i).len() ==> #[trigger] grown_fully(
                mask,
                merge_from(mask, i),
                k,
            ),
        forall|k: int|
            0 <= k < merge_from(mask, i).len() ==> i <= slot(
                (#[trigger] merge_from(mask, i)[k]).u as int,
                merge_from(mask, i)[k].v as int,
            ),
        forall|k: int, l: int|
            0 <= k < l < merge_from(mask, i).len() ==> slot(
                (#[trigger] merge_from(mask, i)[k]).u as int,
                merge_from(mask, i)[k].v as int,
            ) < slot(
                (#[trigger] merge_from(mask, i)[l]).u as int,
                merge_from(mask, i)[l].v as int,
            ),
    decreases SLICE_AREA - i,
{
    let q = merge_from(mask, i);
    if i >= SLICE_AREA {
    } else if mask[i] == 0 {
        lemma_merge_is_greedy(mask, i + 1);
        assert(q == merge_from(mask, i + 1));
    } else {
        let r = rect_at(mask, i);
        let rest_mask = clear_rect(mask, r);
        let rest = merge_from(rest_mask, i + 1);
        lemma_rect_at(mask, i);
        lemma_clear_rect(mask, r);
        lemma_merge_from(rest_mask, i + 1);
        lemma_merge_is_greedy(rest_mask, i + 1);
        assert(q == seq![r] + rest);
        assert(q[0] == r);
        assert(slot(r.u as int, r.v as int) == i);
        assert forall|k: int| 1 <= k < q.len() implies #[trigger] q[k] == rest[k - 1] by {}
        assert forall|k: int| 0 <= k < q.len() implies #[trigger] grown_fully(mask, q, k) by {
            if k == 0 {
                if r.v + r.h < CHUNK_LENGTH {
                    let a = choose|a: int|
                        r.u <= a < r.u + r.w && #[trigger] mask[slot(a, r.v + r.h)] != r.tag;
                    assert(blocks(mask, q, 0, a, r.v + r.h, r.tag));
                }
            } else {
                let x = rest[k - 1];
                assert(q[k] == x);
                assert(grown_fully(rest_mask, rest, k - 1));
                assert(rect_uniform(rest_mask, x));
                // A cell that blocked growth in the rest of the slice
                // blocks it in the slice: it lies in `r`, or carries
                // another tag, or an earlier rectangle of the rest took it.
                assert forall|a: int, b: int|
                    in_slice(a, b) && blocks(rest_mask, rest, k - 1, a, b, x.tag) implies blocks(
                    mask,
                    q,
                    k,
                    a,
                    b,
                    x.tag,
                ) by {
                    if covered_before(rest, k - 1, a, b) {
                        let l = choose|l: int| 0 <= l < k - 1 && #[trigger] in_rect(rest[l], a, b);
                        assert(in_rect(q[l + 1], a, b));
                    } else if in_rect(r, a, b) {
                        assert(in_rect(q[0], a, b));
                    }
                }
                if x.u + x.w < CHUNK_LENGTH {
                    assert(in_slice(x.u + x.w, x.v as int));
                }
                if x.v + x.h < CHUNK_LENGTH {
                    let a = choose|a: int|
                        x.u <= a < x.u + x.w && #[trigger] blocks(
                            rest_mask,
                            rest,
                            k - 1,
                            a,
                            x.v + x.h,
                            x.tag,
                        );
                    assert(in_slice(a, x.v + x.h));
                    assert(blocks(mask, q, k, a, x.v + x.h, x.tag));
                }
            }
        }
        assert forall|k: int| 0 <= k < q.len() implies i <= slot(
            (#[trigger] q[k]).u as int,
            q[k].v as int,
        ) by {
            if k > 0 {
                assert(q[k] == rest[k - 1]);
            }
        }
        assert forall|k: int, l: int| 0 <= k < l < q.len() implies slot(
            (#[trigger] q[k]).u as int,
            q[k].v as int,
        ) < slot((#[trigger] q[l]).u as int, q[l].v as int) by {
            assert(q[l] == rest[l - 1]);
            if k > 0 {
                assert(q[k] == rest[k - 1]);
            }
        }
    }
}

/// Merging passes over cells without tags.
pub proof fn lemma_merge_skip_blank(mask: Seq<u8>, i: int, j: int)
    requires
        mask.len() == SLICE_AREA,
        0 <= i <= j <= SLICE_AREA,
        forall|k: int| i <= k < j ==> mask[k] == 0,
    ensures
        merge_from(mask, i) == merge_from(mask, j),
    decreases j - i,
{
    if i < j {
        lemma_merge_skip_blank(mask, i + 1, j);
    }
}

/// The rectangle that covers row `v` and nothing else.
pub open spec fn row_strip(v: int, tag: u8) -> Rect {
    Rect { u: 0, v: v as u32, w: CHUNK_LENGTH, h: 1, tag }
}

/// The rectangle that covers column `u` and nothing else.
pub open spec fn column_strip(u: int, tag: u8) -> Rect {
    Rect { u: u as u32, v: 0, w: 1, h: CHUNK_LENGTH, tag }
}

/// From row `k` on, every row carries one tag throughout, and no two rows
/// that touch carry the same.
pub open spec fn rows_striped(mask: Seq<u8>, tags: spec_fn(int) -> u8, k: int) -> bool {
    &&& mask.len() == SLICE_AREA
    &&& forall|u: int, v: int|
        0 <= u < CHUNK_LENGTH && k <= v < CHUNK_LENGTH ==> #[trigger] mask[slot(u, v)] == tags(v)
    &&& forall|v: int| k <= v < CHUNK_LENGTH ==> #[trigger] tags(v) != 0
    &&& forall|v: int| k <= v < CHUNK_LENGTH - 1 ==> #[trigger] tags(v) != tags(v + 1)
}

/// From column `k` on, every column carries one tag throughout, and no two
/// columns that touch carry the same; the columns before `k` carry no tag.
pub open spec fn columns_striped(mask: Seq<u8>, tags: spec_fn(int) -> u8, k: int) -> bool {
    &&& mask.len() == SLICE_AREA
    &&& forall|u: int, v: int|
        0 <= u < CHUNK_LENGTH && 0 <= v < CHUNK_LENGTH ==> #[trigger] mask[slot(u, v)] == (if u
            < k {
            0u8
        } else {
            tags(u)
        })
    &&& forall|u: int| k <= u < CHUNK_LENGTH ==> #[trigger] tags(u) != 0
    &&& forall|u: int| k <= u < CHUNK_LENGTH - 1 ==> #[trigger] tags(u) != tags(u + 1)
}

/// Rows of alternating identity are never merged with one another: each
/// row becomes one rectangle of its own.
pub proof fn lemma_merge_row_stripes(mask: Seq<u8>, tags: spec_fn(int) -> u8, k: int)
    requires
        0 <= k <= CHUNK_LENGTH,
        rows_striped(mask, tags, k),
    ensures
        merge_from(mask, k * CHUNK_LENGTH) == Seq::new(
            (CHUNK_LENGTH - k) as nat,
            |j: int| row_strip(k + j, tags(k + j)),
        ),
    decreases CHUNK_LENGTH - k,
{
    let i = k * CHUNK_LENGTH;
    let want = Seq::new((CHUNK_LENGTH - k) as nat, |j: int| row_strip(k + j, tags(k + j)));
    if k == CHUNK_LENGTH {
        assert(merge_from(mask, i) =~= want);
    } else {
        let tag = tags(k);
        assert(slot(0, k) == i && col(i) == 0 && row(i) == k);
        assert(mask[slot(0, k)] == tag);
        assert(row_matches(mask, 0, k, CHUNK_LENGTH as int, tag));
        lemma_run_width_to_end(mask, 0, k, tag);
        if k + 1 < CHUNK_LENGTH {
            assert(mask[slot(0, k + 1)] == tags(k + 1));
            assert(!row_matches(mask, 0, k + 1, CHUNK_LENGTH as int, tag));
        }
        assert(run_height(mask, 0, k + 1, CHUNK_LENGTH as int, tag) == 0);
        assert(run_height(mask, 0, k, CHUNK_LENGTH as int, tag) == 1);
        let r = rect_at(mask, i);
        assert(r == row_strip(k, tag));
        let rest = clear_rect(mask, r);
        lemma_clear_rect(mask, r);
        assert forall|j: int| i + 1 <= j < (k + 1) * CHUNK_LENGTH implies rest[j] == 0 by {
            assert(in_rect(r, col(j), row(j)));
        }
        lemma_merge_skip_blank(rest, i + 1, (k + 1) * CHUNK_LENGTH);
        assert(rows_striped(rest, tags, k + 1)) by {
            assert forall|u: int, v: int|
                0 <= u < CHUNK_LENGTH && k + 1 <= v < CHUNK_LENGTH implies #[trigger] rest[slot(
                u,
                v,
            )] == tags(v) by {
                assert(in_slice(u, v));
                assert(mask[slot(u, v)] == tags(v));
            }
        }
        lemma_merge_row_stripes(rest, tags, k + 1);
        assert(merge_from(mask, i) =~= want);
    }
}

/// Columns of alternating identity are never merged with one another: each
/// column becomes one rectangle of its own.
pub proof fn lemma_merge_column_stripes(mask: Seq<u8>, tags: spec_fn(int) -> u8, k: int)
    requires
        0 <= k <= CHUNK_LENGTH,
        columns_striped(mask, tags, k),
    ensures
        merge_from(mask, k) == Seq::new(
            (CHUNK_LENGTH - k) as nat,
            |j: int| column_strip(k + j, tags(k + j)),
        ),
    decreases CHUNK_LENGTH - k,
{
    let want = Seq::new((CHUNK_LENGTH - k) as nat, |j: int| column_strip(k + j, tags(k + j)));
    if k == CHUNK_LENGTH {
        assert forall|j: int| k <= j < SLICE_AREA implies mask[j] == 0 by {
            assert(slot(col(j), row(j)) == j);
            assert(mask[slot(col(j), row(j))] == 0);
        }
        lemma_merge_blank(mask, k);
        assert(merge_from(mask, k) =~= want);
    } else {
        let tag = tags(k);
        assert(slot(k, 0) == k && col(k) == k && row(k) == 0);
        assert(mask[slot(k, 0)] == tag);
        if k + 1 < CHUNK_LENGTH {
            assert(mask[slot(k + 1, 0)] == tags(k + 1));
        }
        assert(run_width(mask, k + 1, 0, tag) == 0);
        assert(run_width(mask, k, 0, tag) == 1);
        assert forall|r: int| 0 <= r < CHUNK_LENGTH implies #[trigger] row_matches(
            mask,
            k,
            r,
            1,
            tag,
        ) by {
            assert(mask[slot(k, r)] == tag);
        }
        lemma_run_height_to_end(mask, k, 0, 1, tag);
        let r = rect_at(mask, k);
        assert(r == column_strip(k, tag));
        let rest = clear_rect(mask, r);
        lemma_clear_rect(mask, r);
        assert(columns_striped(rest, tags, k + 1)) by {
            assert forall|u: int, v: int|
                0 <= u < CHUNK_LENGTH && 0 <= v < CHUNK_LENGTH implies #[trigger] rest[slot(u, v)]
                == (if u < k + 1 {
                0u8
            } else {
                tags(u)
            }) by {
                assert(in_slice(u, v));
                assert(mask[slot(u, v)] == (if u < k { 0u8 } else { tags(u) }));
            }
        }
        lemma_merge_column_stripes(rest, tags, k + 1);
        assert(merge_from(mask, k) =~= want);
    }
}

} // verus!
