//! Triangle meshes on the integer grid.
//!
//! A mesh is four index-aligned lists: vertex positions, one normal and one
//! texture coordinate per vertex, and triangle corners that name vertices by
//! their place in the position list. Positions and texture coordinates are
//! counted in cells; a host scales them to its own units.

use vstd::prelude::*;

verus! {

/// A point or direction on the integer grid.
#[derive(Clone, Copy, PartialEq, Eq, Structural, Debug, Hash)]
pub struct GridPoint {
    pub x: i32,
    pub y: i32,
    pub z: i32,
}

/// A texture coordinate, in cells.
#[derive(Clone, Copy, PartialEq, Eq, Structural, Debug, Hash)]
pub struct TexCoord {
    pub u: u32,
    pub v: u32,
}

/// One corner of a quad.
#[derive(Clone, Copy, PartialEq, Eq, Structural, Debug, Hash)]
pub struct QuadVertex {
    pub position: GridPoint,
    pub uv: TexCoord,
}

/// The four corners of a quad, in the order in which they are stored.
#[derive(Clone, Copy, PartialEq, Eq, Structural, Debug, Hash)]
pub struct QuadCorners {
    pub a: QuadVertex,
    pub b: QuadVertex,
    pub c: QuadVertex,
    pub d: QuadVertex,
}

/// Mathematical content of a mesh.
pub struct MeshView {
    pub positions: Seq<GridPoint>,
    pub normals: Seq<GridPoint>,
    pub uvs: Seq<TexCoord>,
    pub indices: Seq<u32>,
}

/// The six triangle corners of a quad whose first vertex is stored at `base`.
/// The two triangles share the diagonal from the first to the third corner;
/// `reversed` turns both of them over.
pub open spec fn quad_indices(base: int, reversed: bool) -> Seq<u32> {
    if reversed {
        seq![
            base as u32,
            (base + 2) as u32,
            (base + 1) as u32,
            base as u32,
            (base + 3) as u32,
            (base + 2) as u32,
        ]
    } else {
        seq![
            base as u32,
            (base + 1) as u32,
            (base + 2) as u32,
            base as u32,
            (base + 2) as u32,
            (base + 3) as u32,
        ]
    }
}

impl MeshView {
    /// The mesh without vertices and triangles.
    pub open spec fn empty() -> MeshView {
        MeshView {
            positions: Seq::empty(),
            normals: Seq::empty(),
            uvs: Seq::empty(),
            indices: Seq::empty(),
        }
    }

    /// The lists are aligned, the triangle corners come in threes, and each
    /// of them names a vertex that exists.
    pub open spec fn wf(self) -> bool {
        &&& self.normals.len() == self.positions.len()
        &&& self.uvs.len() == self.positions.len()
        &&& self.positions.len() <= u32::MAX
        &&& self.indices.len() % 3 == 0
        &&& forall|i: int|
            0 <= i < self.indices.len() ==> (#[trigger] self.indices[i]) < self.positions.len()
    }

    /// This mesh followed by one quad: four vertices that share `normal`, and
    /// two triangles over them.
    pub open spec fn with_quad(self, q: QuadCorners, normal: GridPoint, reversed: bool) -> MeshView {
        MeshView {
            positions: self.positions + seq![
                q.a.position,
                q.b.position,
                q.c.position,
                q.d.position,
            ],
            normals: self.normals + seq![normal, normal, normal, normal],
            uvs: self.uvs + seq![q.a.uv, q.b.uv, q.c.uv, q.d.uv],
            indices: self.indices + quad_indices(self.positions.len() as int, reversed),
        }
    }
}

/// Adding a quad to a valid mesh that has room for four more vertices gives
/// a valid mesh with four more vertices and six more triangle corners.
pub proof fn lemma_with_quad(m: MeshView, q: QuadCorners, normal: GridPoint, reversed: bool)
    requires
        m.wf(),
        m.positions.len() + 4 <= u32::MAX,
    ensures
        m.with_quad(q, normal, reversed).wf(),
        m.with_quad(q, normal, reversed).positions.len() == m.positions.len() + 4,
        m.with_quad(q, normal, reversed).indices.len() == m.indices.len() + 6,
{
    let r = m.with_quad(q, normal, reversed);
    let tail = quad_indices(m.positions.len() as int, reversed);
    assert(tail.len() == 6);
    assert forall|i: int| 0 <= i < r.indices.len() implies (#[trigger] r.indices[i])
        < r.positions.len() by {
        if i >= m.indices.len() {
            let j = i - m.indices.len();
            assert(r.indices[i] == tail[j]);
            assert(j == 0 || j == 1 || j == 2 || j == 3 || j == 4 || j == 5);
        } else {
            assert(r.indices[i] == m.indices[i]);
        }
    }
}

/// A triangle mesh. Each operation keeps the mesh valid: every triangle
/// corner names an existing vertex and the corners come in threes.
pub struct Mesh {
    positions: Vec<GridPoint>,
    normals: Vec<GridPoint>,
    uvs: Vec<TexCoord>,
    indices: Vec<u32>,
}

impl View for Mesh {
    type V = MeshView;

    closed spec fn view(&self) -> MeshView {
        MeshView {
            positions: self.positions@,
            normals: self.normals@,
            uvs: self.uvs@,
            indices: self.indices@,
        }
    }
}

impl Mesh {
    /// The mesh without vertices and triangles.
    pub fn new() -> (m: Mesh)
        ensures
            m@ == MeshView::empty(),
            m@.wf(),
    {
        Mesh { positions: Vec::new(), normals: Vec::new(), uvs: Vec::new(), indices: Vec::new() }
    }

    /// Removes all vertices and triangles. Allocated storage is kept.
    pub fn clear(&mut self)
        ensures
            final(self)@ == MeshView::empty(),
            final(self)@.wf(),
    {
        self.positions.clear();
        self.normals.clear();
        self.uvs.clear();
        self.indices.clear();
    }

    /// Vertex positions, in cells.
    pub fn positions(&self) -> (r: &Vec<GridPoint>)
        ensures
            r@ == self@.positions,
    {
        &self.positions
    }

    /// One normal per vertex.
    pub fn normals(&self) -> (r: &Vec<GridPoint>)
        ensures
            r@ == self@.normals,
    {
        &self.normals
    }

    /// One texture coordinate per vertex, in cells.
    pub fn uvs(&self) -> (r: &Vec<TexCoord>)
        ensures
            r@ == self@.uvs,
    {
        &self.uvs
    }

    /// Triangle corners, three per triangle.
    pub fn indices(&self) -> (r: &Vec<u32>)
        ensures
            r@ == self@.indices,
    {
        &self.indices
    }

    /// Number of vertices.
    pub fn vertex_count(&self) -> (n: usize)
        ensures
            n == self@.positions.len(),
    {
        self.positions.len()
    }

    /// Number of triangle corners.
    pub fn index_count(&self) -> (n: usize)
        ensures
            n == self@.indices.len(),
    {
        self.indices.len()
    }

    /// Number of triangles.
    pub fn triangle_count(&self) -> (n: usize)
        ensures
            n == self@.indices.len() / 3,
    {
        self.indices.len() / 3
    }

    /// Whether the mesh has no vertices and no triangles.
    pub fn is_empty(&self) -> (b: bool)
        ensures
            b == (self@.positions.len() == 0 && self@.indices.len() == 0),
    {
        self.positions.len() == 0 && self.indices.len() == 0
    }

    /// Appends one quad: four vertices that share `normal`, and two triangles
    /// over them.
    pub fn push_quad(&mut self, q: QuadCorners, normal: GridPoint, reversed: bool)
        requires
            old(self)@.wf(),
            old(self)@.positions.len() + 4 <= u32::MAX,
        ensures
            final(self)@ == old(self)@.with_quad(q, normal, reversed),
            final(self)@.wf(),
    {
        let base: u32 = self.positions.len() as u32;
        self.positions.push(q.a.position);
        self.positions.push(q.b.position);
        self.positions.push(q.c.position);
        self.positions.push(q.d.position);
        self.normals.push(normal);
        self.normals.push(normal);
        self.normals.push(normal);
        self.normals.push(normal);
        self.uvs.push(q.a.uv);
        self.uvs.push(q.b.uv);
        self.uvs.push(q.c.uv);
        self.uvs.push(q.d.uv);
        if reversed {
            self.indices.push(base);
            self.indices.push(base + 2);
            self.indices.push(base + 1);
            self.indices.push(base);
            self.indices.push(base + 3);
            self.indices.push(base + 2);
        } else {
            self.indices.push(base);
            self.indices.push(base + 1);
            self.indices.push(base + 2);
            self.indices.push(base);
            self.indices.push(base + 2);
            self.indices.push(base + 3);
        }
        proof {
            let want = old(self)@.with_quad(q, normal, reversed);
            lemma_with_quad(old(self)@, q, normal, reversed);
            assert(self@.positions =~= want.positions);
            assert(self@.normals =~= want.normals);
            assert(self@.uvs =~= want.uvs);
            assert(self@.indices =~= want.indices);
        }
    }

    /// A copy of this mesh.
    pub fn duplicate(&self) -> (m: Mesh)
        ensures
            m@ == self@,
    {
        let mut positions: Vec<GridPoint> = Vec::with_capacity(self.positions.len());
        let mut normals: Vec<GridPoint> = Vec::with_capacity(self.normals.len());
        let mut uvs: Vec<TexCoord> = Vec::with_capacity(self.uvs.len());
        let mut indices: Vec<u32> = Vec::with_capacity(self.indices.len());
        let mut i: usize = 0;
        while i < self.positions.len()
            invariant
                i <= self.positions@.len(),
                positions@ == self.positions@.take(i as int),
            decreases self.positions@.len() - i,
        {
            positions.push(self.positions[i]);
            i = i + 1;
            assert(positions@ =~= self.positions@.take(i as int));
        }
        assert(positions@ =~= self.positions@);
        i = 0;
        while i < self.normals.len()
            invariant
                i <= self.normals@.len(),
                normals@ == self.normals@.take(i as int),
            decreases self.normals@.len() - i,
        {
            normals.push(self.normals[i]);
            i = i + 1;
            assert(normals@ =~= self.normals@.take(i as int));
        }
        assert(normals@ =~= self.normals@);
        i = 0;
        while i < self.uvs.len()
            invariant
                i <= self.uvs@.len(),
                uvs@ == self.uvs@.take(i as int),
            decreases self.uvs@.len() - i,
        {
            uvs.push(self.uvs[i]);
            i = i + 1;
            assert(uvs@ =~= self.uvs@.take(i as int));
        }
        assert(uvs@ =~= self.uvs@);
        i = 0;
        while i < self.indices.len()
            invariant
                i <= self.indices@.len(),
                indices@ == self.indices@.take(i as int),
            decreases self.indices@.len() - i,
        {
            indices.push(self.indices[i]);
            i = i + 1;
            assert(indices@ =~= self.indices@.take(i as int));
        }
        assert(indices@ =~= self.indices@);
        Mesh { positions, normals, uvs, indices }
    }
}

} // verus!
