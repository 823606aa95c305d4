//! The chunk mesher: turns one chunk's height samples and halo into a
//! regular grid mesh at a chosen decimation stride, and derives the
//! decimated grid a collision height-field is built from.
//!
//! Elevation samples stay opaque 32-bit words throughout; the mesher
//! decides only which sample each vertex carries and how the quads are
//! triangulated. A vertex grid at stride `lod` has `w / lod + 1` columns
//! and `h / lod + 1` rows; the last column and the last row read the
//! chunk's halo, so that two neighboring chunks agree on their shared
//! edge. Each quad cell becomes two triangles with the fixed winding
//! `(i0, i3, i1)`, `(i0, i2, i3)`, `i0` the top-left corner, `i1` its
//! right, `i2` its lower, and `i3` its diagonal neighbor.
use vstd::prelude::*;

use crate::heightfield::HeightField;
use crate::heightfield::lemma_row_major_inverse;

verus! {

/// One mesh vertex: grid position `(x, z)` and the elevation word carried
/// at it.
#[derive(Clone, Copy, Debug, PartialEq, Eq, Structural)]
pub struct Vertex {
    pub x: u32,
    pub height: u32,
    pub z: u32,
}

/// Vertex columns of a chunk mesh at stride `lod`.
pub open spec fn mesh_cols(w: int, lod: int) -> int {
    w / lod + 1
}

/// Vertex rows of a chunk mesh at stride `lod`.
pub open spec fn mesh_rows(h: int, lod: int) -> int {
    h / lod + 1
}

/// The elevation word vertex `(vy, vx)` carries: interior vertices sample
/// the chunk's own grid at stride `lod`; the last column reads the halo's
/// right-neighbor column, the last row the halo's bottom-neighbor row, and
/// the far corner the halo's single diagonal sample.
pub open spec fn vertex_height(
    hm: Seq<u32>,
    halo: Seq<u32>,
    w: int,
    h: int,
    lod: int,
    vy: int,
    vx: int,
) -> u32 {
    if vy == h / lod && vx == w / lod {
        halo[w + h]
    } else if vx == w / lod {
        halo[vy * lod + w]
    } else if vy == h / lod {
        halo[vx * lod]
    } else {
        hm[(vy * lod) * w + vx * lod]
    }
}

/// The full vertex grid in row-major order.
pub open spec fn mesh_vertices(hm: Seq<u32>, halo: Seq<u32>, w: int, h: int, lod: int) -> Seq<
    Vertex,
> {
    let cols = mesh_cols(w, lod);
    Seq::new(
        (mesh_rows(h, lod) * cols) as nat,
        |i: int|
            (Vertex {
                x: ((i % cols) * lod) as u32,
                height: vertex_height(hm, halo, w, h, lod, i / cols, i % cols),
                z: ((i / cols) * lod) as u32,
            }),
    )
}

/// Corner `k` of quad `q`, as an index into the vertex grid. Quads are
/// numbered row-major; the six corners per quad spell the two triangles
/// `(i0, i3, i1)` and `(i0, i2, i3)`.
pub open spec fn quad_corner(w: int, lod: int, q: int, k: int) -> u32 {
    let qw = w / lod;
    let stride = qw + 1;
    let i0 = q % qw + (q / qw) * stride;
    if k == 0 {
        i0 as u32
    } else if k == 1 {
        (i0 + stride + 1) as u32
    } else if k == 2 {
        (i0 + 1) as u32
    } else if k == 3 {
        i0 as u32
    } else if k == 4 {
        (i0 + stride) as u32
    } else {
        (i0 + stride + 1) as u32
    }
}

/// The full index buffer: six entries for each of the `(w/lod) * (h/lod)`
/// quads.
pub open spec fn triangle_indices(w: int, h: int, lod: int) -> Seq<u32> {
    Seq::new((6 * ((h / lod) * (w / lod))) as nat, |i: int| quad_corner(w, lod, i / 6, i % 6))
}

/// Ceiling division for positive `a`.
pub open spec fn ceil_div(a: int, b: int) -> int {
    (a - 1) / b + 1
}

/// The stride-decimated copy of a row-major grid, the shape a collision
/// height-field takes.
pub open spec fn decimated(hm: Seq<u32>, w: int, h: int, stride: int) -> Seq<u32> {
    let cols = ceil_div(w, stride);
    let rows = ceil_div(h, stride);
    Seq::new(
        (rows * cols) as nat,
        |i: int| hm[((i / cols) * stride) * w + (i % cols) * stride],
    )
}

/// Scaling a coordinate by the stride keeps it under the grid size.
proof fn lemma_stride_bound(v: int, n: int, lod: int)
    requires
        0 < lod,
        0 < n,
        0 <= v <= n / lod,
    ensures
        v * lod <= n,
        v < n / lod ==> v * lod <= n - lod,
{
    vstd::arithmetic::div_mod::lemma_fundamental_div_mod(n, lod);
    vstd::arithmetic::div_mod::lemma_mod_bound(n, lod);
    assert(v * lod <= (n / lod) * lod) by (nonlinear_arith)
        requires
            0 < lod,
            v <= n / lod,
    ;
    assert(v < n / lod ==> v * lod <= (n / lod) * lod - lod) by (nonlinear_arith)
        requires
            0 < lod,
            v <= n / lod,
    ;
}

/// A mesh of one chunk: the vertex grid and the triangle list over it,
/// built at one decimation stride.
pub struct ChunkData {
    pub vertex_buffer: Vec<Vertex>,
    pub index_buffer: Vec<u32>,
}

impl ChunkData {
    /// Build the mesh for one chunk. `heightmap` must hold the chunk's
    /// `w * h` samples row-major and `halo` its `w + h + 1` halo samples;
    /// any other shape is a caller error. The result is the full vertex
    /// grid and index buffer at stride `lod`.
    pub fn new(
        heightmap: &Vec<u32>,
        halo: &Vec<u32>,
        w: usize,
        h: usize,
        lod: usize,
    ) -> (mesh: ChunkData)
        requires
            heightmap@.len() == w * h,
            halo@.len() == w + h + 1,
            0 < lod <= w,
            lod <= h,
            w <= u32::MAX,
            h <= u32::MAX,
            mesh_rows(h as int, lod as int) * mesh_cols(w as int, lod as int) <= u32::MAX,
            6 * ((h as int / lod as int) * (w as int / lod as int)) <= usize::MAX,
        ensures
            mesh.vertex_buffer@ == mesh_vertices(
                heightmap@,
                halo@,
                w as int,
                h as int,
                lod as int,
            ),
            mesh.index_buffer@ == triangle_indices(w as int, h as int, lod as int),
    {
        let hm_len = heightmap.len();
        let halo_len = halo.len();
        proof {
            assert(hm_len == w * h && halo_len == w + h + 1);
            assert(w * h == h * w) by (nonlinear_arith);
        }
        let cols = w / lod + 1;
        let rows = h / lod + 1;
        let total = rows * cols;
        let ghost target = mesh_vertices(heightmap@, halo@, w as int, h as int, lod as int);

        let mut vertex_buffer: Vec<Vertex> = Vec::new();
        let mut i: usize = 0;
        while i < total
            invariant
                heightmap@.len() == w * h,
                halo@.len() == w + h + 1,
                heightmap@.len() <= usize::MAX,
                halo@.len() <= usize::MAX,
                0 < lod <= w,
                lod <= h,
                w <= u32::MAX,
                h <= u32::MAX,
                cols == mesh_cols(w as int, lod as int),
                rows == mesh_rows(h as int, lod as int),
                total == rows * cols,
                total <= u32::MAX,
                i <= total,
                target == mesh_vertices(heightmap@, halo@, w as int, h as int, lod as int),
                vertex_buffer@.len() == i,
                forall|j: int| 0 <= j < i ==> vertex_buffer@[j] == target[j],
            decreases total - i,
        {
            let vy = i / cols;
            let vx = i % cols;
            proof {
                assert(0 <= (i as int) / (cols as int) < (rows as int) && 0 <= (i as int) % (
                cols as int) < (cols as int)) by (nonlinear_arith)
                    requires
                        0 < cols,
                        0 <= i < total,
                        total == rows * cols,
                ;
                lemma_stride_bound(vy as int, h as int, lod as int);
                lemma_stride_bound(vx as int, w as int, lod as int);
            }
            let height: u32 = if vy == rows - 1 && vx == cols - 1 {
                halo[w + h]
            } else if vx == cols - 1 {
                halo[vy * lod + w]
            } else if vy == rows - 1 {
                halo[vx * lod]
            } else {
                proof {
                    crate::heightfield::lemma_grid_index_bound(
                        vy as int * lod as int,
                        h as int,
                        vx as int * lod as int,
                        w as int,
                    );
                    assert(h as int * w as int == w as int * h as int) by (nonlinear_arith);
                }
                heightmap[vy * lod * w + vx * lod]
            };
            let v = Vertex { x: (vx * lod) as u32, height, z: (vy * lod) as u32 };
            vertex_buffer.push(v);
            proof {
                assert(vertex_buffer@[i as int] == target[i as int]);
            }
            i = i + 1;
        }

        let qw = w / lod;
        let qh = h / lod;
        proof {
            vstd::arithmetic::div_mod::lemma_div_non_zero(w as int, lod as int);
            vstd::arithmetic::div_mod::lemma_div_non_zero(h as int, lod as int);
            vstd::arithmetic::div_mod::lemma_div_nonincreasing(w as int, lod as int);
            vstd::arithmetic::div_mod::lemma_div_nonincreasing(h as int, lod as int);
        }
        let quads = qh * qw;
        let ghost itarget = triangle_indices(w as int, h as int, lod as int);

        let mut index_buffer: Vec<u32> = Vec::new();
        let mut q: usize = 0;
        while q < quads
            invariant
                0 < lod <= w,
                lod <= h,
                qw == w as int / lod as int,
                qh == h as int / lod as int,
                0 < qw <= w,
                0 < qh <= h,
                w <= u32::MAX,
                h <= u32::MAX,
                quads == qh * qw,
                6 * quads <= usize::MAX,
                (qh + 1) * (qw + 1) <= u32::MAX,
                q <= quads,
                itarget == triangle_indices(w as int, h as int, lod as int),
                index_buffer@.len() == 6 * q,
                forall|j: int| 0 <= j < 6 * q ==> index_buffer@[j] == itarget[j],
            decreases quads - q,
        {
            proof {
                assert(0 <= (q as int) / (qw as int) < (qh as int) && 0 <= (q as int) % (
                qw as int) < (qw as int)) by (nonlinear_arith)
                    requires
                        0 < qw,
                        0 <= q < quads,
                        quads == qh * qw,
                ;
            }
            let qy = q / qw;
            let qx = q % qw;
            proof {
                assert(qw as int + 1 <= (qh as int + 1) * (qw as int + 1)) by (nonlinear_arith)
                    requires
                        0 <= qh && 0 <= qw,
                ;
            }
            let stride = qw + 1;
            proof {
                crate::heightfield::lemma_grid_index_bound(
                    qy as int,
                    qh as int,
                    qx as int,
                    qw as int,
                );
                assert(qh as int * (qw + 1) + qw < (qh + 1) * (qw + 1)) by (nonlinear_arith)
                    requires
                        0 <= qh && 0 <= qw,
                ;
                assert(qy as int * (qw as int + 1) + qx <= (qh as int - 1) * (qw as int + 1)
                    + qw as int - 1) by (nonlinear_arith)
                    requires
                        0 <= qy < qh && 0 <= qx < qw,
                ;
                assert((qh as int - 1) * (qw as int + 1) == qh as int * (qw as int + 1) - (
                qw as int + 1)) by (nonlinear_arith);
            }
            let i0 = qx + qy * stride;
            let i1 = i0 + 1;
            let i2 = i0 + stride;
            let i3 = i2 + 1;

            index_buffer.push(i0 as u32);
            index_buffer.push(i3 as u32);
            index_buffer.push(i1 as u32);
            index_buffer.push(i0 as u32);
            index_buffer.push(i2 as u32);
            index_buffer.push(i3 as u32);

            proof {
                assert forall|k: int| 0 <= k < 6 implies #[trigger] index_buffer@[6 * q + k]
                    == itarget[6 * q + k] by {
                    lemma_row_major_inverse(6, q as int, k);
                    assert(itarget[6 * q + k] == quad_corner(w as int, lod as int, q as int, k));
                }
                assert(6 * (q + 1) == 6 * q + 6);
            }
            q = q + 1;
        }

        proof {
            assert(vertex_buffer@ =~= target);
            assert(index_buffer@ =~= itarget);
        }
        ChunkData { vertex_buffer, index_buffer }
    }
}

/// Decimate a row-major `w` by `h` grid by `stride`, keeping every
/// `stride`-th sample of every `stride`-th row; the grid a collision
/// height-field is built from.
pub fn decimate_heights(heightmap: &Vec<u32>, w: usize, h: usize, stride: usize) -> (d: Vec<u32>)
    requires
        heightmap@.len() == w * h,
        0 < w,
        0 < h,
        0 < stride,
    ensures
        d@ == decimated(heightmap@, w as int, h as int, stride as int),
{
    let hm_len = heightmap.len();
    let cols = (w - 1) / stride + 1;
    let rows = (h - 1) / stride + 1;
    let ghost target = decimated(heightmap@, w as int, h as int, stride as int);
    proof {
        assert(hm_len == heightmap@.len());
        assert(w as int * h as int == h as int * w as int) by (nonlinear_arith);
        assert(rows * cols <= h * w) by (nonlinear_arith)
            requires
                0 < stride && 0 < w && 0 < h && cols == (w - 1) / (stride as int) + 1 && rows == (
                h - 1) / (stride as int) + 1,
        ;
        assert(h * w == w * h) by (nonlinear_arith);
    }
    let mut d: Vec<u32> = Vec::new();
    let mut ry: usize = 0;
    while ry < rows
        invariant
            heightmap@.len() == w * h,
            heightmap@.len() <= usize::MAX,
            0 < w,
            0 < h,
            0 < stride,
            cols == ceil_div(w as int, stride as int),
            rows == ceil_div(h as int, stride as int),
            rows * cols <= w * h,
            ry <= rows,
            target == decimated(heightmap@, w as int, h as int, stride as int),
            d@.len() == ry * cols,
            forall|j: int| 0 <= j < d@.len() ==> d@[j] == target[j],
        decreases rows - ry,
    {
        let mut rx: usize = 0;
        proof {
            crate::heightfield::lemma_grid_index_bound(ry as int, rows as int, 0, cols as int);
        }
        while rx < cols
            invariant
                heightmap@.len() == w * h,
                heightmap@.len() <= usize::MAX,
                0 < w,
                0 < h,
                0 < stride,
                cols == ceil_div(w as int, stride as int),
                rows == ceil_div(h as int, stride as int),
                rows * cols <= w * h,
                ry < rows,
                rx <= cols,
                target == decimated(heightmap@, w as int, h as int, stride as int),
                d@.len() == ry * cols + rx,
                forall|j: int| 0 <= j < d@.len() ==> d@[j] == target[j],
            decreases cols - rx,
        {
            proof {
                crate::heightfield::lemma_grid_index_bound(
                    ry as int,
                    rows as int,
                    rx as int,
                    cols as int,
                );
                lemma_decimated_coord(ry as int, h as int, stride as int);
                lemma_decimated_coord(rx as int, w as int, stride as int);
                crate::heightfield::lemma_grid_index_bound(
                    ry as int * stride as int,
                    h as int,
                    rx as int * stride as int,
                    w as int,
                );
                lemma_row_major_inverse(cols as int, ry as int, rx as int);
                assert(h as int * w as int == w as int * h as int) by (nonlinear_arith);
            }
            let v = heightmap[ry * stride * w + rx * stride];
            d.push(v);
            rx = rx + 1;
        }
        ry = ry + 1;
        proof {
            assert((ry - 1) * cols + cols == ry * cols) by (nonlinear_arith);
        }
    }
    proof {
        assert(d@ =~= target);
    }
    d
}

/// Seam continuity across a vertical chunk border: meshed from its own
/// slice and halo, the chunk at `(cx, cy)` carries along its rightmost
/// vertex column exactly the heights the chunk at `(cx + 1, cy)` carries
/// along its leftmost column, at every shared vertex row short of the last
/// (the last one reads the diagonal corner, which the halo lemma of the
/// height-field covers). Both chunks must sit away from the world's far
/// boundary, where halos are synthetic zeros.
pub proof fn lemma_mesh_seam_horizontal(f: HeightField, cx: int, cy: int, lod: int, vy: int)
    requires
        f.wf(),
        0 <= cx,
        cx + 1 < f.spec_chunks_x(),
        0 <= cy,
        cy + 1 < f.spec_chunks_y(),
        0 < lod <= f.spec_chunk_w(),
        lod <= f.spec_chunk_h(),
        0 <= vy < f.spec_chunk_h() / lod,
    ensures
        vertex_height(
            f.chunk_slice(cx, cy),
            f.halo_values(cx, cy),
            f.spec_chunk_w(),
            f.spec_chunk_h(),
            lod,
            vy,
            f.spec_chunk_w() / lod,
        ) == vertex_height(
            f.chunk_slice(cx + 1, cy),
            f.halo_values(cx + 1, cy),
            f.spec_chunk_w(),
            f.spec_chunk_h(),
            lod,
            vy,
            0,
        ),
{
    let w = f.spec_chunk_w();
    let h = f.spec_chunk_h();
    vstd::arithmetic::div_mod::lemma_div_non_zero(w, lod);
    lemma_stride_bound(vy, h, lod);
    f.lemma_chunk_slice_at(cx + 1, cy, vy * lod, 0);
}

/// Seam continuity across a horizontal chunk border: the chunk at
/// `(cx, cy)` carries along its bottom vertex row exactly the heights the
/// chunk at `(cx, cy + 1)` carries along its top row, at every shared
/// vertex column short of the last.
pub proof fn lemma_mesh_seam_vertical(f: HeightField, cx: int, cy: int, lod: int, vx: int)
    requires
        f.wf(),
        0 <= cx,
        cx + 1 < f.spec_chunks_x(),
        0 <= cy,
        cy + 1 < f.spec_chunks_y(),
        0 < lod <= f.spec_chunk_w(),
        lod <= f.spec_chunk_h(),
        0 <= vx < f.spec_chunk_w() / lod,
    ensures
        vertex_height(
            f.chunk_slice(cx, cy),
            f.halo_values(cx, cy),
            f.spec_chunk_w(),
            f.spec_chunk_h(),
            lod,
            f.spec_chunk_h() / lod,
            vx,
        ) == vertex_height(
            f.chunk_slice(cx, cy + 1),
            f.halo_values(cx, cy + 1),
            f.spec_chunk_w(),
            f.spec_chunk_h(),
            lod,
            0,
            vx,
        ),
{
    let w = f.spec_chunk_w();
    let h = f.spec_chunk_h();
    vstd::arithmetic::div_mod::lemma_div_non_zero(h, lod);
    lemma_stride_bound(vx, w, lod);
    f.lemma_chunk_slice_at(cx, cy + 1, 0, vx * lod);
}

/// A decimated coordinate scaled back by the stride lands strictly inside
/// the grid.
proof fn lemma_decimated_coord(r: int, n: int, stride: int)
    requires
        0 < n,
        0 < stride,
        0 <= r < ceil_div(n, stride),
    ensures
        0 <= r * stride < n,
{
    vstd::arithmetic::div_mod::lemma_fundamental_div_mod(n - 1, stride);
    vstd::arithmetic::div_mod::lemma_mod_bound(n - 1, stride);
    assert(r * stride <= ((n - 1) / stride) * stride) by (nonlinear_arith)
        requires
            0 < stride,
            r <= (n - 1) / stride,
    ;
}

} // verus!
