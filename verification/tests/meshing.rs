use vx_core::chunk::ChunkBuffer;
use vx_core::greedy::{merge_mask, Rect};
use vx_core::mesh::{GridPoint, Mesh, TexCoord};
use vx_core::mesher::{fill_mask, mesh, tag_of, Face, MeshBuffers, Quad};
use vx_core::scratch::ScratchPool;
use vx_core::shape::{LocalCoord, CHUNK_LENGTH, PADDED_LENGTH, SLICE_AREA};
use vx_core::voxel::Voxel;

const N: u32 = CHUNK_LENGTH;

fn p(x: i32, y: i32, z: i32) -> GridPoint {
    GridPoint { x, y, z }
}

fn uv(u: u32, v: u32) -> TexCoord {
    TexCoord { u, v }
}

fn solid(id: u8) -> ChunkBuffer {
    let mut b = ChunkBuffer::new();
    for z in 1..=N {
        for y in 1..=N {
            for x in 1..=N {
                b.set(LocalCoord::new(x, y, z), Voxel::new(id));
            }
        }
    }
    b
}

/// A chunk with cells, border included, drawn from a small set of
/// identities by a fixed pseudo-random sequence.
fn scattered(seed: u64, ids: u64) -> ChunkBuffer {
    let mut state = seed;
    let mut b = ChunkBuffer::new();
    for z in 0..PADDED_LENGTH {
        for y in 0..PADDED_LENGTH {
            for x in 0..PADDED_LENGTH {
                state = state.wrapping_mul(6364136223846793005).wrapping_add(1442695040888963407);
                let id = ((state >> 33) % ids) as u8;
                b.set(LocalCoord::new(x, y, z), Voxel::new(id));
            }
        }
    }
    b
}

fn same_mesh(a: &Mesh, b: &Mesh) -> bool {
    a.positions() == b.positions()
        && a.normals() == b.normals()
        && a.uvs() == b.uvs()
        && a.indices() == b.indices()
}

fn axis_of(n: GridPoint) -> (usize, i32) {
    if n.x != 0 {
        (0, n.x)
    } else if n.y != 0 {
        (1, n.y)
    } else {
        (2, n.z)
    }
}

fn comp(q: GridPoint, axis: usize) -> i32 {
    match axis {
        0 => q.x,
        1 => q.y,
        _ => q.z,
    }
}

/// The padded cells whose faces a quad of the mesh covers, with the quad's
/// direction as axis and sign.
fn quad_cells(m: &Mesh, q: usize) -> (usize, i32, Vec<(u32, u32, u32)>) {
    let a = m.positions()[4 * q];
    let c = m.positions()[4 * q + 2];
    let (axis, sign) = axis_of(m.normals()[4 * q]);
    let ua = (axis + 1) % 3;
    let va = (axis + 2) % 3;
    let plane = comp(a, axis);
    let layer = if sign > 0 { plane } else { plane + 1 };
    let mut cells = Vec::new();
    for cv in comp(a, va)..comp(c, va) {
        for cu in comp(a, ua)..comp(c, ua) {
            let mut xyz = [0u32; 3];
            xyz[axis] = layer as u32;
            xyz[ua] = cu as u32 + 1;
            xyz[va] = cv as u32 + 1;
            cells.push((xyz[0], xyz[1], xyz[2]));
        }
    }
    (axis, sign, cells)
}

fn neighbour(c: (u32, u32, u32), axis: usize, sign: i32) -> LocalCoord {
    let mut xyz = [c.0 as i32, c.1 as i32, c.2 as i32];
    xyz[axis] += sign;
    LocalCoord::new(xyz[0] as u32, xyz[1] as u32, xyz[2] as u32)
}

fn count_quads_facing(m: &Mesh, n: GridPoint) -> usize {
    (0..m.vertex_count() / 4).filter(|q| m.normals()[4 * q] == n).count()
}

#[test]
fn empty_chunk_gives_empty_mesh() {
    let mut scratch = MeshBuffers::new();
    let m = mesh(&ChunkBuffer::new(), &mut scratch);
    assert_eq!(m.vertex_count(), 0);
    assert_eq!(m.index_count(), 0);
    assert_eq!(m.triangle_count(), 0);
    assert!(m.is_empty());
    assert!(m.normals().is_empty());
    assert!(m.uvs().is_empty());
}

#[test]
fn chunk_with_only_border_cells_gives_empty_mesh() {
    let mut b = ChunkBuffer::new();
    b.set(LocalCoord::new(0, 5, 5), Voxel::new(3));
    b.set(LocalCoord::new(17, 17, 17), Voxel::new(3));
    b.set(LocalCoord::new(4, 0, 9), Voxel::new(3));
    let mut scratch = MeshBuffers::new();
    assert!(mesh(&b, &mut scratch).is_empty());
}

#[test]
fn single_voxel_gives_six_unit_quads() {
    let mut b = ChunkBuffer::new();
    b.set(LocalCoord::new(1, 1, 1), Voxel::new(7));
    let mut scratch = MeshBuffers::new();
    let m = mesh(&b, &mut scratch);
    assert_eq!(m.vertex_count(), 24);
    assert_eq!(m.index_count(), 36);
    let want = vec![
        p(0, 0, 0), p(0, 1, 0), p(0, 1, 1), p(0, 0, 1),
        p(1, 0, 0), p(1, 1, 0), p(1, 1, 1), p(1, 0, 1),
        p(0, 0, 0), p(0, 0, 1), p(1, 0, 1), p(1, 0, 0),
        p(0, 1, 0), p(0, 1, 1), p(1, 1, 1), p(1, 1, 0),
        p(0, 0, 0), p(1, 0, 0), p(1, 1, 0), p(0, 1, 0),
        p(0, 0, 1), p(1, 0, 1), p(1, 1, 1), p(0, 1, 1),
    ];
    assert_eq!(m.positions(), &want);
    let normals = [p(-1, 0, 0), p(1, 0, 0), p(0, -1, 0), p(0, 1, 0), p(0, 0, -1), p(0, 0, 1)];
    for q in 0..6 {
        for k in 0..4 {
            assert_eq!(m.normals()[4 * q + k], normals[q]);
        }
        assert_eq!(m.uvs()[4 * q], uv(0, 0));
        assert_eq!(m.uvs()[4 * q + 1], uv(1, 0));
        assert_eq!(m.uvs()[4 * q + 2], uv(1, 1));
        assert_eq!(m.uvs()[4 * q + 3], uv(0, 1));
    }
    let want_indices: Vec<u32> = vec![
        0, 2, 1, 0, 3, 2,
        4, 5, 6, 4, 6, 7,
        8, 10, 9, 8, 11, 10,
        12, 13, 14, 12, 14, 15,
        16, 18, 17, 16, 19, 18,
        20, 21, 22, 20, 22, 23,
    ];
    assert_eq!(m.indices(), &want_indices);
}

#[test]
fn solid_chunk_gives_the_six_outer_sides() {
    let mut scratch = MeshBuffers::new();
    let m = mesh(&solid(3), &mut scratch);
    assert_eq!(m.vertex_count(), 24);
    assert_eq!(m.index_count(), 36);
    assert_eq!(m.triangle_count(), 12);
    let s = N as i32;
    let want = vec![
        p(0, 0, 0), p(0, s, 0), p(0, s, s), p(0, 0, s),
        p(s, 0, 0), p(s, s, 0), p(s, s, s), p(s, 0, s),
        p(0, 0, 0), p(0, 0, s), p(s, 0, s), p(s, 0, 0),
        p(0, s, 0), p(0, s, s), p(s, s, s), p(s, s, 0),
        p(0, 0, 0), p(s, 0, 0), p(s, s, 0), p(0, s, 0),
        p(0, 0, s), p(s, 0, s), p(s, s, s), p(0, s, s),
    ];
    assert_eq!(m.positions(), &want);
    for q in 0..6 {
        assert_eq!(m.uvs()[4 * q], uv(0, 0));
        assert_eq!(m.uvs()[4 * q + 1], uv(N, 0));
        assert_eq!(m.uvs()[4 * q + 2], uv(N, N));
        assert_eq!(m.uvs()[4 * q + 3], uv(0, N));
    }
}

#[test]
fn solid_chunk_next_to_filled_border_hides_that_side() {
    let mut b = solid(3);
    for z in 1..=N {
        for y in 1..=N {
            b.set(LocalCoord::new(N + 1, y, z), Voxel::new(9));
        }
    }
    let mut scratch = MeshBuffers::new();
    let m = mesh(&b, &mut scratch);
    assert_eq!(m.vertex_count(), 20);
    assert_eq!(count_quads_facing(&m, p(1, 0, 0)), 0);
    assert_eq!(count_quads_facing(&m, p(-1, 0, 0)), 1);
}

#[test]
fn two_equal_neighbours_merge_and_two_different_do_not() {
    let mut scratch = MeshBuffers::new();
    let mut b = ChunkBuffer::new();
    b.set(LocalCoord::new(4, 4, 4), Voxel::new(2));
    b.set(LocalCoord::new(5, 4, 4), Voxel::new(2));
    let m = mesh(&b, &mut scratch);
    assert_eq!(m.vertex_count() / 4, 6);
    b.set(LocalCoord::new(5, 4, 4), Voxel::new(3));
    let m = mesh(&b, &mut scratch);
    assert_eq!(m.vertex_count() / 4, 10);
    assert_eq!(count_quads_facing(&m, p(1, 0, 0)), 1);
    assert_eq!(count_quads_facing(&m, p(-1, 0, 0)), 1);
    assert_eq!(count_quads_facing(&m, p(0, 1, 0)), 2);
    assert_eq!(count_quads_facing(&m, p(0, 0, -1)), 2);
}

#[test]
fn alternating_identity_along_x_gives_one_quad_per_cell_along_x() {
    let mut b = ChunkBuffer::new();
    for z in 1..=N {
        for y in 1..=N {
            for x in 1..=N {
                b.set(LocalCoord::new(x, y, z), Voxel::new(if x % 2 == 1 { 1 } else { 2 }));
            }
        }
    }
    let mut scratch = MeshBuffers::new();
    let m = mesh(&b, &mut scratch);
    let n = N as usize;
    assert_eq!(count_quads_facing(&m, p(-1, 0, 0)), 1);
    assert_eq!(count_quads_facing(&m, p(1, 0, 0)), 1);
    assert_eq!(count_quads_facing(&m, p(0, -1, 0)), n);
    assert_eq!(count_quads_facing(&m, p(0, 1, 0)), n);
    assert_eq!(count_quads_facing(&m, p(0, 0, -1)), n);
    assert_eq!(count_quads_facing(&m, p(0, 0, 1)), n);
    assert_eq!(m.vertex_count() / 4, 2 + 4 * n);
    for q in 0..m.vertex_count() / 4 {
        let (axis, _, cells) = quad_cells(&m, q);
        if axis == 0 {
            assert_eq!(cells.len(), n * n);
        } else {
            assert_eq!(cells.len(), n);
            let x = cells[0].0;
            assert!(cells.iter().all(|c| c.0 == x));
        }
    }
}

#[test]
fn alternating_identity_along_y_and_z_gives_one_quad_per_cell() {
    let mut scratch = MeshBuffers::new();
    let n = N as usize;
    let mut along_y = ChunkBuffer::new();
    let mut along_z = ChunkBuffer::new();
    for z in 1..=N {
        for y in 1..=N {
            for x in 1..=N {
                along_y.set(LocalCoord::new(x, y, z), Voxel::new(if y % 2 == 1 { 1 } else { 2 }));
                along_z.set(LocalCoord::new(x, y, z), Voxel::new(if z % 2 == 1 { 1 } else { 2 }));
            }
        }
    }
    let m = mesh(&along_y, &mut scratch);
    assert_eq!(count_quads_facing(&m, p(0, 1, 0)), 1);
    assert_eq!(count_quads_facing(&m, p(1, 0, 0)), n);
    assert_eq!(count_quads_facing(&m, p(0, 0, 1)), n);
    assert_eq!(m.vertex_count() / 4, 2 + 4 * n);
    let m = mesh(&along_z, &mut scratch);
    assert_eq!(count_quads_facing(&m, p(0, 0, -1)), 1);
    assert_eq!(count_quads_facing(&m, p(-1, 0, 0)), n);
    assert_eq!(count_quads_facing(&m, p(0, -1, 0)), n);
    assert_eq!(m.vertex_count() / 4, 2 + 4 * n);
}

#[test]
fn indices_are_valid_and_come_in_threes() {
    let mut scratch = MeshBuffers::new();
    for seed in 1..6u64 {
        let m = mesh(&scattered(seed, 4), &mut scratch);
        assert!(m.vertex_count() > 0);
        assert_eq!(m.index_count() % 3, 0);
        assert_eq!(m.index_count(), 3 * m.triangle_count());
        assert_eq!(m.index_count() / 6, m.vertex_count() / 4);
        assert_eq!(m.normals().len(), m.vertex_count());
        assert_eq!(m.uvs().len(), m.vertex_count());
        assert!(m.indices().iter().all(|i| (*i as usize) < m.vertex_count()));
    }
}

#[test]
fn triangles_wind_around_their_normal() {
    let mut scratch = MeshBuffers::new();
    let m = mesh(&scattered(11, 3), &mut scratch);
    for t in 0..m.triangle_count() {
        let a = m.positions()[m.indices()[3 * t] as usize];
        let b = m.positions()[m.indices()[3 * t + 1] as usize];
        let c = m.positions()[m.indices()[3 * t + 2] as usize];
        let (e, f) = (p(b.x - a.x, b.y - a.y, b.z - a.z), p(c.x - a.x, c.y - a.y, c.z - a.z));
        let cross = p(e.y * f.z - e.z * f.y, e.z * f.x - e.x * f.z, e.x * f.y - e.y * f.x);
        let n = m.normals()[m.indices()[3 * t] as usize];
        let dot = cross.x * n.x + cross.y * n.y + cross.z * n.z;
        assert!(dot > 0);
        assert_eq!(dot * dot, cross.x * cross.x + cross.y * cross.y + cross.z * cross.z);
    }
}

#[test]
fn quads_cover_each_visible_face_once_and_nothing_else() {
    let mut scratch = MeshBuffers::new();
    for seed in [2u64, 3, 17] {
        let b = scattered(seed, 3);
        let m = mesh(&b, &mut scratch);
        let mut covered = std::collections::HashSet::new();
        for q in 0..m.vertex_count() / 4 {
            let (axis, sign, cells) = quad_cells(&m, q);
            assert!(!cells.is_empty());
            let first = b.get(LocalCoord::new(cells[0].0, cells[0].1, cells[0].2));
            for c in cells {
                let here = b.get(LocalCoord::new(c.0, c.1, c.2));
                assert!(!here.is_empty());
                assert_eq!(here, first);
                assert!(b.get(neighbour(c, axis, sign)).is_empty());
                assert!(covered.insert((axis, sign, c)));
            }
        }
        let mut visible = 0;
        for z in 1..=N {
            for y in 1..=N {
                for x in 1..=N {
                    if b.get(LocalCoord::new(x, y, z)).is_empty() {
                        continue;
                    }
                    for axis in 0..3 {
                        for sign in [-1, 1] {
                            if b.get(neighbour((x, y, z), axis, sign)).is_empty() {
                                visible += 1;
                                assert!(covered.contains(&(axis, sign, (x, y, z))));
                            }
                        }
                    }
                }
            }
        }
        assert_eq!(visible, covered.len());
    }
}

#[test]
fn meshing_twice_gives_the_same_mesh() {
    let b = scattered(5, 5);
    let mut first = MeshBuffers::new();
    let mut second = MeshBuffers::new();
    let m1 = mesh(&b, &mut first);
    let m2 = mesh(&b, &mut second);
    let m3 = mesh(&b.duplicate(), &mut first);
    assert!(same_mesh(&m1, &m2));
    assert!(same_mesh(&m1, &m3));
    assert!(same_mesh(&m1, &m1.duplicate()));
}

#[test]
fn reused_scratch_gives_the_same_as_fresh_scratch() {
    let inputs = [scattered(1, 2), solid(4), ChunkBuffer::new(), scattered(9, 6)];
    let want: Vec<Mesh> = inputs.iter().map(|b| mesh(b, &mut MeshBuffers::new())).collect();
    let mut reused = MeshBuffers::new();
    for round in 0..1000 {
        let i = (round * 7 + round / 4) % inputs.len();
        let got = mesh(&inputs[i], &mut reused);
        let fresh = mesh(&inputs[i], &mut MeshBuffers::new());
        assert!(same_mesh(&got, &want[i]));
        assert!(same_mesh(&fresh, &want[i]));
    }
}

#[test]
fn pool_workers_give_the_same_mesh() {
    let mut pool = ScratchPool::new(3).unwrap();
    let b = scattered(21, 4);
    let want = mesh(&b, &mut MeshBuffers::new());
    for worker in [0, 1, 2, 1, 0, 2, 2] {
        assert!(same_mesh(&pool.mesh_on(worker, &b), &want));
        assert!(pool.mesh_on(worker, &ChunkBuffer::new()).is_empty());
    }
}

#[test]
fn face_order_and_directions() {
    let faces = [Face::NegX, Face::PosX, Face::NegY, Face::PosY, Face::NegZ, Face::PosZ];
    for (i, f) in faces.iter().enumerate() {
        assert_eq!(Face::from_ordinal(i), *f);
        assert_eq!(f.axis_index() as usize, i / 2);
        assert_eq!(f.is_positive(), i % 2 == 1);
    }
    assert_eq!(Face::NegX.normal(), p(-1, 0, 0));
    assert_eq!(Face::PosY.normal(), p(0, 1, 0));
    assert_eq!(Face::PosZ.normal(), p(0, 0, 1));
}

#[test]
fn tags_follow_visibility() {
    let mut b = ChunkBuffer::new();
    b.set(LocalCoord::new(1, 1, 1), Voxel::new(7));
    b.set(LocalCoord::new(2, 1, 1), Voxel::new(8));
    assert_eq!(tag_of(&b, Face::NegX, 0, 0, 0), 7);
    assert_eq!(tag_of(&b, Face::PosX, 0, 0, 0), 0);
    assert_eq!(tag_of(&b, Face::PosX, 1, 0, 0), 8);
    assert_eq!(tag_of(&b, Face::NegX, 1, 0, 0), 0);
    assert_eq!(tag_of(&b, Face::PosY, 0, 0, 0), 7);
    assert_eq!(tag_of(&b, Face::PosY, 0, 0, 1), 8);
    assert_eq!(tag_of(&b, Face::PosZ, 0, 1, 0), 8);
    assert_eq!(tag_of(&b, Face::PosZ, 0, 0, 1), 0);
    let mut mask = vec![9u8; SLICE_AREA];
    fill_mask(&b, Face::PosY, 0, &mut mask);
    assert_eq!(mask[0], 7);
    assert_eq!(mask[N as usize], 8);
    assert_eq!(mask.iter().filter(|t| **t != 0).count(), 2);
}

#[test]
fn merge_grows_along_the_row_first_then_down() {
    let n = N as usize;
    let mut mask = vec![0u8; SLICE_AREA];
    // An L of identity 5: three cells in row 0, two rows below under the
    // first two of them; and one cell of another identity.
    for u in 0..3 {
        mask[u] = 5;
    }
    for v in 1..3 {
        for u in 0..2 {
            mask[v * n + u] = 5;
        }
    }
    mask[3] = 6;
    let mut out = vec![Rect { u: 9, v: 9, w: 9, h: 9, tag: 9 }];
    merge_mask(&mut mask, &mut out);
    assert_eq!(
        out,
        vec![
            Rect { u: 9, v: 9, w: 9, h: 9, tag: 9 },
            Rect { u: 0, v: 0, w: 3, h: 1, tag: 5 },
            Rect { u: 3, v: 0, w: 1, h: 1, tag: 6 },
            Rect { u: 0, v: 1, w: 2, h: 2, tag: 5 },
        ]
    );
    assert!(mask.iter().all(|t| *t == 0));
}

#[test]
fn merge_of_a_full_slice_is_one_rectangle() {
    let mut mask = vec![4u8; SLICE_AREA];
    let mut out = Vec::new();
    merge_mask(&mut mask, &mut out);
    assert_eq!(out, vec![Rect { u: 0, v: 0, w: N, h: N, tag: 4 }]);
    let mut out = Vec::new();
    merge_mask(&mut mask, &mut out);
    assert!(out.is_empty());
}

#[test]
fn quad_geometry_of_a_negative_face() {
    let q = Quad { face: Face::NegY, layer: 3, rect: Rect { u: 1, v: 2, w: 4, h: 5, tag: 1 } };
    let c = q.geometry();
    assert_eq!(c.a.position, p(2, 3, 1));
    assert_eq!(c.b.position, p(2, 3, 5));
    assert_eq!(c.c.position, p(7, 3, 5));
    assert_eq!(c.d.position, p(7, 3, 1));
    assert_eq!(c.a.uv, uv(0, 0));
    assert_eq!(c.b.uv, uv(4, 0));
    assert_eq!(c.c.uv, uv(4, 5));
    assert_eq!(c.d.uv, uv(0, 5));
    let q = Quad { face: Face::PosY, layer: 3, rect: Rect { u: 1, v: 2, w: 4, h: 5, tag: 1 } };
    assert_eq!(q.geometry().a.position, p(2, 4, 1));
}
