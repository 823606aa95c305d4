//! The chunk store: every chunk of the world, built once from the full
//! height-field and read-only afterwards.
//!
//! Each chunk owns its placement origin, three meshes at decimation
//! strides 1, 2 and 4, and the stride-16 decimated grid its collision
//! height-field is built from. Lookups by chunk coordinate outside the
//! world yield nothing; the world has hard edges.
use vstd::prelude::*;

use crate::heightfield::HeightField;
use crate::heightfield::lemma_grid_index_bound;
use crate::heightfield::lemma_row_major_inverse;
use crate::mesh::ChunkData;
use crate::mesh::decimate_heights;
use crate::mesh::decimated;
use crate::mesh::mesh_cols;
use crate::mesh::mesh_rows;
use crate::mesh::mesh_vertices;
use crate::mesh::triangle_indices;
use crate::scheduler::VisibleEntry;
use crate::scheduler::distinct_coords;

verus! {

/// The decimation stride of the collision grid.
pub const COLLIDER_STRIDE: usize = 16;

/// One built chunk: placement origin `(x, 0, z)` in world space, meshes at
/// the three detail strides, and the collision grid.
pub struct Chunk {
    pub transform_x: u64,
    pub transform_z: u64,
    pub mesh: ChunkData,
    pub mesh_2: ChunkData,
    pub mesh_4: ChunkData,
    pub collider_heights: Vec<u32>,
}

/// What it means for a chunk to be correctly built from the height-field
/// at chunk coordinates `(x, y)`: the placement origin sits at
/// `(x * chunk_w, y * chunk_h)`, the three meshes are the chunk's slice
/// and halo meshed at strides 1, 2 and 4, and the collision grid is the
/// slice decimated by the collider stride.
pub open spec fn chunk_built_from(c: Chunk, f: HeightField, x: int, y: int) -> bool {
    let w = f.spec_chunk_w();
    let h = f.spec_chunk_h();
    let hm = f.chunk_slice(x, y);
    let halo = f.halo_values(x, y);
    &&& c.transform_x == x * w
    &&& c.transform_z == y * h
    &&& c.mesh.vertex_buffer@ == mesh_vertices(hm, halo, w, h, 1)
    &&& c.mesh.index_buffer@ == triangle_indices(w, h, 1)
    &&& c.mesh_2.vertex_buffer@ == mesh_vertices(hm, halo, w, h, 2)
    &&& c.mesh_2.index_buffer@ == triangle_indices(w, h, 2)
    &&& c.mesh_4.vertex_buffer@ == mesh_vertices(hm, halo, w, h, 4)
    &&& c.mesh_4.index_buffer@ == triangle_indices(w, h, 4)
    &&& c.collider_heights@ == decimated(hm, w, h, COLLIDER_STRIDE as int)
}

/// Meshing at a coarser stride never needs more vertices or indices than
/// meshing at stride 1.
proof fn lemma_lod_counts_shrink(w: int, h: int, lod: int)
    requires
        0 < w,
        0 < h,
        0 < lod,
    ensures
        mesh_rows(h, lod) * mesh_cols(w, lod) <= (h + 1) * (w + 1),
        6 * ((h / lod) * (w / lod)) <= 6 * (h * w),
{
    vstd::arithmetic::div_mod::lemma_div_nonincreasing(w, lod);
    vstd::arithmetic::div_mod::lemma_div_nonincreasing(h, lod);
    vstd::arithmetic::div_mod::lemma_div_pos_is_pos(w, lod);
    vstd::arithmetic::div_mod::lemma_div_pos_is_pos(h, lod);
    assert((h / lod + 1) * (w / lod + 1) <= (h + 1) * (w + 1)) by (nonlinear_arith)
        requires
            0 <= h / lod <= h && 0 <= w / lod <= w,
    ;
    assert((h / lod) * (w / lod) <= h * w) by (nonlinear_arith)
        requires
            0 <= h / lod <= h && 0 <= w / lod <= w,
    ;
}

/// The read-only map from chunk coordinate to built chunk, covering the
/// whole fixed-size world.
pub struct Chunkbase {
    chunks: Vec<Chunk>,
    chunks_x: usize,
    chunks_y: usize,
}

impl Chunkbase {
    pub closed spec fn spec_chunks(self) -> Seq<Chunk> {
        self.chunks@
    }

    pub closed spec fn spec_chunks_x(self) -> int {
        self.chunks_x as int
    }

    pub closed spec fn spec_chunks_y(self) -> int {
        self.chunks_y as int
    }

    /// The structural invariant: one chunk per coordinate of the world.
    pub open spec fn wf(self) -> bool {
        self.spec_chunks().len() == self.spec_chunks_x() * self.spec_chunks_y()
    }

    /// Whether a coordinate lies inside the world.
    pub open spec fn spec_contains(self, x: int, y: int) -> bool {
        0 <= x < self.spec_chunks_x() && 0 <= y < self.spec_chunks_y()
    }

    /// The chunk stored for an in-world coordinate.
    pub open spec fn chunk_at(self, x: int, y: int) -> Chunk {
        self.spec_chunks()[y * self.spec_chunks_x() + x]
    }

    /// Build every chunk of the world from the height-field, exactly once
    /// each. The field must already hold the full world; each chunk is
    /// meshed from its own slice and halo.
    pub fn new(field: &HeightField) -> (cb: Chunkbase)
        requires
            field.wf(),
            4 <= field.spec_chunk_w() <= u32::MAX,
            4 <= field.spec_chunk_h() <= u32::MAX,
            (field.spec_chunk_h() + 1) * (field.spec_chunk_w() + 1) <= u32::MAX,
            6 * (field.spec_chunk_h() * field.spec_chunk_w()) <= usize::MAX,
        ensures
            cb.wf(),
            cb.spec_chunks_x() == field.spec_chunks_x(),
            cb.spec_chunks_y() == field.spec_chunks_y(),
            forall|x: int, y: int| 0 <= x < field.spec_chunks_x() && 0 <= y
                < field.spec_chunks_y() ==> chunk_built_from(
                #[trigger] cb.chunk_at(x, y),
                *field,
                x,
                y,
            ),
    {
        let chunks_x = field.chunks_x_count();
        let chunks_y = field.chunks_y_count();
        let w = field.chunk_w_count();
        let h = field.chunk_h_count();
        let mut chunks: Vec<Chunk> = Vec::new();
        let mut cy: usize = 0;
        while cy < chunks_y
            invariant
                field.wf(),
                4 <= w <= u32::MAX,
                4 <= h <= u32::MAX,
                (h as int + 1) * (w as int + 1) <= u32::MAX,
                6 * (h as int * w as int) <= usize::MAX,
                chunks_x == field.spec_chunks_x(),
                chunks_y == field.spec_chunks_y(),
                w == field.spec_chunk_w(),
                h == field.spec_chunk_h(),
                cy <= chunks_y,
                chunks@.len() == cy * chunks_x,
                forall|j: int| 0 <= j < chunks@.len() ==> chunk_built_from(
                    #[trigger] chunks@[j],
                    *field,
                    j % (chunks_x as int),
                    j / (chunks_x as int),
                ),
            decreases chunks_y - cy,
        {
            let mut cx: usize = 0;
            proof {
                lemma_grid_index_bound(cy as int, chunks_y as int, 0, chunks_x as int);
            }
            while cx < chunks_x
                invariant
                    field.wf(),
                    4 <= w <= u32::MAX,
                    4 <= h <= u32::MAX,
                    (h as int + 1) * (w as int + 1) <= u32::MAX,
                    6 * (h as int * w as int) <= usize::MAX,
                    chunks_x == field.spec_chunks_x(),
                    chunks_y == field.spec_chunks_y(),
                    w == field.spec_chunk_w(),
                    h == field.spec_chunk_h(),
                    cy < chunks_y,
                    cx <= chunks_x,
                    chunks@.len() == cy * chunks_x + cx,
                    forall|j: int| 0 <= j < chunks@.len() ==> chunk_built_from(
                        #[trigger] chunks@[j],
                        *field,
                        j % (chunks_x as int),
                        j / (chunks_x as int),
                    ),
                decreases chunks_x - cx,
            {
                let chunk = build_chunk(field, cx, cy);
                chunks.push(chunk);
                proof {
                    lemma_grid_index_bound(cy as int, chunks_y as int, cx as int, chunks_x as int);
                    lemma_row_major_inverse(chunks_x as int, cy as int, cx as int);
                    assert(chunks@.len() - 1 == cy * chunks_x + cx);
                    assert(chunk_built_from(
                        chunks@[cy * (chunks_x as int) + cx],
                        *field,
                        cx as int,
                        cy as int,
                    ));
                }
                cx = cx + 1;
            }
            cy = cy + 1;
            proof {
                assert((cy - 1) * chunks_x + chunks_x == cy * chunks_x) by (nonlinear_arith);
            }
        }
        proof {
            assert(chunks_y as int * chunks_x as int == chunks_x as int * chunks_y as int)
                by (nonlinear_arith);
        }
        let cb = Chunkbase { chunks, chunks_x, chunks_y };
        proof {
            assert forall|x: int, y: int|
                0 <= x < field.spec_chunks_x() && 0 <= y
                    < field.spec_chunks_y() implies chunk_built_from(
                #[trigger] cb.chunk_at(x, y),
                *field,
                x,
                y,
            ) by {
                lemma_grid_index_bound(y, chunks_y as int, x, chunks_x as int);
                lemma_row_major_inverse(chunks_x as int, y, x);
            }
        }
        cb
    }

    /// Look a chunk up by coordinate. Yields the chunk for every in-world
    /// coordinate and nothing for any other; it never fails otherwise.
    pub fn get_chunk(&self, coordinates: &(i32, i32)) -> (r: Option<&Chunk>)
        requires
            self.wf(),
        ensures
            match r {
                Some(c) => self.spec_contains(coordinates.0 as int, coordinates.1 as int) && *c
                    == self.chunk_at(coordinates.0 as int, coordinates.1 as int),
                None => !self.spec_contains(coordinates.0 as int, coordinates.1 as int),
            },
    {
        let (x, y) = *coordinates;
        if x < 0 || y < 0 {
            return None;
        }
        let xu = x as usize;
        let yu = y as usize;
        if xu >= self.chunks_x || yu >= self.chunks_y {
            return None;
        }
        let n = self.chunks.len();
        proof {
            lemma_grid_index_bound(yu as int, self.chunks_y as int, xu as int, self.chunks_x as int);
            assert(n == self.spec_chunks().len());
            assert(self.chunks_y as int * self.chunks_x as int == self.chunks_x as int
                * self.chunks_y as int) by (nonlinear_arith);
        }
        Some(&self.chunks[yu * self.chunks_x + xu])
    }

    /// The scheduler entries whose coordinate the store covers, in their
    /// given order. Applied to a freshly computed disc this yields the
    /// disc intersected with the store's keys: the set the renderer is
    /// meant to materialize; coordinates beyond the world edge simply
    /// drop out.
    pub open spec fn known_of(self, s: Seq<VisibleEntry>) -> Seq<VisibleEntry> {
        s.filter(|p: VisibleEntry| self.spec_contains(p.0.0 as int, p.0.1 as int))
    }

    /// Keep exactly the entries whose chunk exists in the store.
    pub fn filter_known(&self, entries: &Vec<VisibleEntry>) -> (kept: Vec<VisibleEntry>)
        requires
            self.wf(),
            distinct_coords(entries@),
        ensures
            kept@ == self.known_of(entries@),
            distinct_coords(kept@),
    {
        let mut kept: Vec<VisibleEntry> = Vec::new();
        let mut i: usize = 0;
        proof {
            assert(entries@.subrange(0, 0) =~= Seq::<VisibleEntry>::empty());
            reveal(Seq::filter);
        }
        while i < entries.len()
            invariant
                self.wf(),
                distinct_coords(entries@),
                i <= entries@.len(),
                kept@ == self.known_of(entries@.subrange(0, i as int)),
                forall|k: int| 0 <= k < kept@.len() ==> exists|j: int|
                    0 <= j < i && #[trigger] kept@[k] == entries@[j],
                distinct_coords(kept@),
            decreases entries@.len() - i,
        {
            let e = entries[i];
            let ghost before = kept@;
            let inside = self.get_chunk(&e.0).is_some();
            if inside {
                kept.push(e);
            }
            proof {
                reveal(Seq::filter);
                let prefix = entries@.subrange(0, i + 1);
                assert(prefix.drop_last() =~= entries@.subrange(0, i as int));
                assert(prefix.last() == e);
                assert(kept@ == self.known_of(prefix));
                if inside {
                    assert forall|k1: int, k2: int|
                        0 <= k1 < k2 < kept@.len() implies (#[trigger] kept@[k1]).0 != (
                    #[trigger] kept@[k2]).0 by {
                        if k2 == kept@.len() - 1 {
                            let j1 = choose|j1: int|
                                0 <= j1 < i && #[trigger] before[k1] == entries@[j1];
                            assert(entries@[j1].0 != entries@[i as int].0);
                        }
                    }
                    assert forall|k: int| 0 <= k < kept@.len() implies exists|j: int|
                        0 <= j < i + 1 && #[trigger] kept@[k] == entries@[j] by {
                        if k == kept@.len() - 1 {
                            assert(kept@[k] == entries@[i as int]);
                        } else {
                            let j = choose|j: int|
                                0 <= j < i && #[trigger] before[k] == entries@[j];
                            assert(kept@[k] == entries@[j]);
                        }
                    }
                }
            }
            i = i + 1;
        }
        proof {
            assert(entries@.subrange(0, entries@.len() as int) =~= entries@);
        }
        kept
    }
}

/// Build the one chunk at `(cx, cy)`: slice and halo out of the field,
/// mesh at strides 1, 2 and 4, and decimate the slice for collision.
fn build_chunk(field: &HeightField, cx: usize, cy: usize) -> (c: Chunk)
    requires
        field.wf(),
        4 <= field.spec_chunk_w() <= u32::MAX,
        4 <= field.spec_chunk_h() <= u32::MAX,
        (field.spec_chunk_h() + 1) * (field.spec_chunk_w() + 1) <= u32::MAX,
        6 * (field.spec_chunk_h() * field.spec_chunk_w()) <= usize::MAX,
        cx < field.spec_chunks_x(),
        cy < field.spec_chunks_y(),
    ensures
        chunk_built_from(c, *field, cx as int, cy as int),
{
    let w = field.chunk_w_count();
    let h = field.chunk_h_count();
    let total = field.sample_count();
    proof {
        assert(total == field.spec_samples().len());
    }
    let slice = field.extract_chunk_slice(cx, cy);
    let halo = field.extract_halo(cx, cy);
    proof {
        lemma_lod_counts_shrink(w as int, h as int, 1);
        lemma_lod_counts_shrink(w as int, h as int, 2);
        lemma_lod_counts_shrink(w as int, h as int, 4);
        field.lemma_transform_in_range(cx as int, cy as int);
    }
    let mesh = ChunkData::new(&slice, &halo, w, h, 1);
    let mesh_2 = ChunkData::new(&slice, &halo, w, h, 2);
    let mesh_4 = ChunkData::new(&slice, &halo, w, h, 4);
    let collider_heights = decimate_heights(&slice, w, h, COLLIDER_STRIDE);
    let transform_x = (cx as u64) * (w as u64);
    let transform_z = (cy as u64) * (h as u64);
    Chunk { transform_x, transform_z, mesh, mesh_2, mesh_4, collider_heights }
}

} // verus!
