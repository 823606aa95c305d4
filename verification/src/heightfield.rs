//! The world height-field: one flat, chunk-major buffer of elevation
//! samples covering every chunk of the world.
//!
//! Samples are carried as opaque 32-bit words; the grid logic selects and
//! routes them but never interprets them. The buffer is laid out so that a
//! chunk's samples are contiguous: the sample for chunk `(cx, cy)`, local
//! row `ly`, local column `lx` sits at
//! `((cy * chunks_x + cx) * chunk_h + ly) * chunk_w + lx`.
//!
//! Besides plain slicing, the field hands out each chunk's halo: the one
//! extra row from the neighbor below, the one extra column from the
//! neighbor to the right, and the single diagonal corner sample, which the
//! mesher uses to stitch chunk edges without cracks.
use vstd::prelude::*;

verus! {

/// A product step: one more coordinate folded into a row-major index stays
/// inside the enlarged bound.
pub proof fn lemma_grid_index_bound(a: int, b: int, d: int, e: int)
    requires
        0 <= a < b,
        0 <= d < e,
    ensures
        0 <= a * e + d < b * e,
{
    assert(0 <= a * e + d < b * e) by (nonlinear_arith)
        requires
            0 <= a < b,
            0 <= d < e,
    ;
}

/// Row-major indices decompose uniquely: `ly * w + lx` recovers `ly` and
/// `lx` by division and remainder.
pub proof fn lemma_row_major_inverse(w: int, ly: int, lx: int)
    requires
        0 < w,
        0 <= ly,
        0 <= lx < w,
    ensures
        (ly * w + lx) / w == ly,
        (ly * w + lx) % w == lx,
{
    vstd::arithmetic::div_mod::lemma_fundamental_div_mod_converse(ly * w + lx, w, ly, lx);
}

/// A dense height-field over a fixed world of `chunks_x` by `chunks_y`
/// chunks, each `chunk_w` samples wide and `chunk_h` rows tall.
pub struct HeightField {
    samples: Vec<u32>,
    chunks_x: usize,
    chunks_y: usize,
    chunk_w: usize,
    chunk_h: usize,
}

impl HeightField {
    /// The structural invariant: positive dimensions and a buffer that
    /// covers exactly one sample per lattice point of the world.
    pub open spec fn wf(self) -> bool {
        &&& 0 < self.spec_chunk_w()
        &&& 0 < self.spec_chunk_h()
        &&& 0 < self.spec_chunks_x()
        &&& 0 < self.spec_chunks_y()
        &&& self.spec_chunk_w() + self.spec_chunk_h() + 1 <= usize::MAX
        &&& self.spec_samples().len() == self.spec_chunks_x() * self.spec_chunks_y()
            * self.spec_chunk_h() * self.spec_chunk_w()
    }

    pub closed spec fn spec_samples(self) -> Seq<u32> {
        self.samples@
    }

    pub closed spec fn spec_chunks_x(self) -> int {
        self.chunks_x as int
    }

    pub closed spec fn spec_chunks_y(self) -> int {
        self.chunks_y as int
    }

    pub closed spec fn spec_chunk_w(self) -> int {
        self.chunk_w as int
    }

    pub closed spec fn spec_chunk_h(self) -> int {
        self.chunk_h as int
    }

    /// Flat position of the sample for chunk `(cx, cy)`, local row `ly`,
    /// local column `lx`.
    pub open spec fn sample_index(self, cx: int, cy: int, ly: int, lx: int) -> int {
        ((cy * self.spec_chunks_x() + cx) * self.spec_chunk_h() + ly) * self.spec_chunk_w() + lx
    }

    /// The sample stored for chunk `(cx, cy)` at local coordinates
    /// `(ly, lx)`.
    pub open spec fn sample(self, cx: int, cy: int, ly: int, lx: int) -> u32 {
        self.spec_samples()[self.sample_index(cx, cy, ly, lx)]
    }

    /// A sample's flat position lies inside the buffer.
    pub proof fn lemma_sample_index_in_bounds(self, cx: int, cy: int, ly: int, lx: int)
        requires
            self.wf(),
            0 <= cx < self.spec_chunks_x(),
            0 <= cy < self.spec_chunks_y(),
            0 <= ly < self.spec_chunk_h(),
            0 <= lx < self.spec_chunk_w(),
        ensures
            0 <= self.sample_index(cx, cy, ly, lx) < self.spec_samples().len(),
            0 <= cy * self.spec_chunks_x() + cx < self.spec_samples().len(),
            0 <= (cy * self.spec_chunks_x() + cx) * self.spec_chunk_h() + ly
                < self.spec_samples().len(),
    {
        let x = self.spec_chunks_x();
        let y = self.spec_chunks_y();
        let w = self.spec_chunk_w();
        let h = self.spec_chunk_h();
        lemma_grid_index_bound(cy, y, cx, x);
        assert(x * y == y * x) by (nonlinear_arith);
        lemma_grid_index_bound(cy * x + cx, x * y, ly, h);
        lemma_grid_index_bound((cy * x + cx) * h + ly, x * y * h, lx, w);
        assert(x * y <= x * y * h && x * y * h <= x * y * h * w) by (nonlinear_arith)
            requires
                0 < x && 0 < y && 0 < h && 0 < w,
        ;
    }

    /// Validate a raw buffer against the world dimensions. Succeeds exactly
    /// when every dimension is positive and the buffer holds one sample per
    /// lattice point; the samples are taken over unchanged.
    pub fn new(
        samples: Vec<u32>,
        chunks_x: usize,
        chunks_y: usize,
        chunk_w: usize,
        chunk_h: usize,
    ) -> (r: Option<HeightField>)
        ensures
            match r {
                Some(f) => {
                    &&& f.wf()
                    &&& f.spec_samples() == samples@
                    &&& f.spec_chunks_x() == chunks_x
                    &&& f.spec_chunks_y() == chunks_y
                    &&& f.spec_chunk_w() == chunk_w
                    &&& f.spec_chunk_h() == chunk_h
                },
                None => {
                    chunks_x == 0 || chunks_y == 0 || chunk_w == 0 || chunk_h == 0 || chunk_w
                        + chunk_h + 1 > usize::MAX || samples@.len() != chunks_x * chunks_y
                        * chunk_h * chunk_w
                },
            },
    {
        let n = samples.len();
        if chunks_x == 0 || chunks_y == 0 || chunk_w == 0 || chunk_h == 0 {
            return None;
        }
        match chunk_w.checked_add(chunk_h) {
            Some(hw) if hw < usize::MAX => {},
            _ => {
                return None;
            },
        }
        let a = match chunks_x.checked_mul(chunks_y) {
            Some(a) => a,
            None => {
                proof {
                    lemma_product_exceeds(
                        chunks_x as int,
                        chunks_y as int,
                        chunk_h as int,
                        chunk_w as int,
                        usize::MAX as int,
                        samples@.len() as int,
                    );
                }
                return None;
            },
        };
        let b = match a.checked_mul(chunk_h) {
            Some(b) => b,
            None => {
                proof {
                    assert(0 < chunks_x * chunks_y) by (nonlinear_arith)
                        requires
                            0 < chunks_x && 0 < chunks_y,
                    ;
                    lemma_partial_product_exceeds(
                        (chunks_x * chunks_y) as int,
                        chunk_h as int,
                        chunk_w as int,
                        usize::MAX as int,
                        samples@.len() as int,
                    );
                }
                return None;
            },
        };
        let c = match b.checked_mul(chunk_w) {
            Some(c) => c,
            None => {
                proof {
                    assert(samples@.len() <= usize::MAX);
                    assert((chunks_x * chunks_y * chunk_h) * chunk_w == chunks_x * chunks_y
                        * chunk_h * chunk_w);
                }
                return None;
            },
        };
        if n != c {
            return None;
        }
        Some(HeightField { samples, chunks_x, chunks_y, chunk_w, chunk_h })
    }

    /// Width of the world in chunks.
    pub fn chunks_x_count(&self) -> (n: usize)
        ensures
            n == self.spec_chunks_x(),
    {
        self.chunks_x
    }

    /// Height of the world in chunks.
    pub fn chunks_y_count(&self) -> (n: usize)
        ensures
            n == self.spec_chunks_y(),
    {
        self.chunks_y
    }

    /// Samples per chunk row.
    pub fn chunk_w_count(&self) -> (n: usize)
        ensures
            n == self.spec_chunk_w(),
    {
        self.chunk_w
    }

    /// Rows per chunk.
    pub fn chunk_h_count(&self) -> (n: usize)
        ensures
            n == self.spec_chunk_h(),
    {
        self.chunk_h
    }

    /// Number of samples held.
    pub fn sample_count(&self) -> (n: usize)
        ensures
            n == self.spec_samples().len(),
    {
        self.samples.len()
    }

    /// A chunk's world-space origin, measured in lattice units, stays
    /// within the extent of the sample buffer.
    pub proof fn lemma_transform_in_range(self, cx: int, cy: int)
        requires
            self.wf(),
            0 <= cx < self.spec_chunks_x(),
            0 <= cy < self.spec_chunks_y(),
        ensures
            0 <= cx * self.spec_chunk_w() <= self.spec_samples().len(),
            0 <= cy * self.spec_chunk_h() <= self.spec_samples().len(),
    {
        let x = self.spec_chunks_x();
        let y = self.spec_chunks_y();
        let w = self.spec_chunk_w();
        let h = self.spec_chunk_h();
        assert(0 <= cx * w <= x * y * h * w && 0 <= cy * h <= x * y * h * w) by (nonlinear_arith)
            requires
                0 <= cx < x && 0 <= cy < y && 0 < w && 0 < h && 0 < x && 0 < y,
        ;
    }

    /// Read one sample.
    pub fn sample_at(&self, cx: usize, cy: usize, ly: usize, lx: usize) -> (s: u32)
        requires
            self.wf(),
            cx < self.spec_chunks_x(),
            cy < self.spec_chunks_y(),
            ly < self.spec_chunk_h(),
            lx < self.spec_chunk_w(),
        ensures
            s == self.sample(cx as int, cy as int, ly as int, lx as int),
    {
        let n = self.samples.len();
        proof {
            self.lemma_sample_index_in_bounds(cx as int, cy as int, ly as int, lx as int);
            assert(n == self.spec_samples().len());
            assert(self.spec_chunks_x() == self.chunks_x as int);
            assert(self.spec_chunk_h() == self.chunk_h as int);
            assert(self.spec_chunk_w() == self.chunk_w as int);
            assert(self.spec_samples().len() == self.samples@.len());
        }
        let idx = ((cy * self.chunks_x + cx) * self.chunk_h + ly) * self.chunk_w + lx;
        self.samples[idx]
    }

    /// A chunk's own samples in row-major order.
    pub open spec fn chunk_slice(self, cx: int, cy: int) -> Seq<u32> {
        Seq::new(
            (self.spec_chunk_w() * self.spec_chunk_h()) as nat,
            |i: int|
                self.sample(cx, cy, i / self.spec_chunk_w(), i % self.spec_chunk_w()),
        )
    }

    /// Reading a chunk slice at row-major position `ly * w + lx` yields the
    /// sample at local coordinates `(ly, lx)`.
    pub proof fn lemma_chunk_slice_at(self, cx: int, cy: int, ly: int, lx: int)
        requires
            self.wf(),
            0 <= ly < self.spec_chunk_h(),
            0 <= lx < self.spec_chunk_w(),
        ensures
            self.chunk_slice(cx, cy)[ly * self.spec_chunk_w() + lx] == self.sample(
                cx,
                cy,
                ly,
                lx,
            ),
    {
        let w = self.spec_chunk_w();
        let h = self.spec_chunk_h();
        lemma_row_major_inverse(w, ly, lx);
        lemma_grid_index_bound(ly, h, lx, w);
        assert(h * w == w * h) by (nonlinear_arith);
    }

    /// Copy out a chunk's samples as one row-major vector of length
    /// `chunk_w * chunk_h`.
    pub fn extract_chunk_slice(&self, cx: usize, cy: usize) -> (s: Vec<u32>)
        requires
            self.wf(),
            cx < self.spec_chunks_x(),
            cy < self.spec_chunks_y(),
        ensures
            s@ == self.chunk_slice(cx as int, cy as int),
    {
        let w = self.chunk_w;
        let h = self.chunk_h;
        proof {
            lemma_grid_index_bound(self.spec_chunk_h() - 1, self.spec_chunk_h(), 0, self.spec_chunk_w());
            assert(self.spec_chunk_w() * self.spec_chunk_h() == self.spec_chunk_h()
                * self.spec_chunk_w()) by (nonlinear_arith);
        }
        let mut s: Vec<u32> = Vec::new();
        let mut ly: usize = 0;
        while ly < h
            invariant
                self.wf(),
                cx < self.spec_chunks_x(),
                cy < self.spec_chunks_y(),
                w == self.spec_chunk_w(),
                h == self.spec_chunk_h(),
                ly <= h,
                s@.len() == ly * w,
                forall|i: int| 0 <= i < s@.len() ==> s@[i] == self.chunk_slice(
                    cx as int,
                    cy as int,
                )[i],
            decreases h - ly,
        {
            let mut lx: usize = 0;
            while lx < w
                invariant
                    self.wf(),
                    cx < self.spec_chunks_x(),
                    cy < self.spec_chunks_y(),
                    w == self.spec_chunk_w(),
                    h == self.spec_chunk_h(),
                    ly < h,
                    lx <= w,
                    s@.len() == ly * w + lx,
                    forall|i: int| 0 <= i < s@.len() ==> s@[i] == self.chunk_slice(
                        cx as int,
                        cy as int,
                    )[i],
                decreases w - lx,
            {
                proof {
                    lemma_grid_index_bound(ly as int, h as int, lx as int, w as int);
                    self.lemma_chunk_slice_at(cx as int, cy as int, ly as int, lx as int);
                }
                let v = self.sample_at(cx, cy, ly, lx);
                s.push(v);
                lx = lx + 1;
            }
            ly = ly + 1;
            proof {
                assert((ly - 1) * w + w == ly * w) by (nonlinear_arith);
            }
        }
        proof {
            assert(s@ =~= self.chunk_slice(cx as int, cy as int));
        }
        s
    }

    /// The halo a chunk meshes with, as one vector: positions `0 .. w` hold
    /// the first row of the neighbor below, positions `w .. w + h` hold the
    /// first column of the neighbor to the right, and the last position
    /// holds the corner sample of the diagonal neighbor. A chunk on the
    /// world's far boundary in either direction gets an all-zero halo; its
    /// outer edge has no neighbor to agree with.
    pub open spec fn halo_values(self, cx: int, cy: int) -> Seq<u32> {
        let w = self.spec_chunk_w();
        let h = self.spec_chunk_h();
        if cx + 1 < self.spec_chunks_x() && cy + 1 < self.spec_chunks_y() {
            Seq::new(
                (w + h + 1) as nat,
                |i: int|
                    if i < w {
                        self.sample(cx, cy + 1, 0, i)
                    } else if i < w + h {
                        self.sample(cx + 1, cy, i - w, 0)
                    } else {
                        self.sample(cx + 1, cy + 1, 0, 0)
                    },
            )
        } else {
            Seq::new((w + h + 1) as nat, |i: int| 0u32)
        }
    }

    /// Copy out a chunk's halo as a vector of length `chunk_w + chunk_h + 1`.
    pub fn extract_halo(&self, cx: usize, cy: usize) -> (halo: Vec<u32>)
        requires
            self.wf(),
            cx < self.spec_chunks_x(),
            cy < self.spec_chunks_y(),
        ensures
            halo@ == self.halo_values(cx as int, cy as int),
    {
        let w = self.chunk_w;
        let h = self.chunk_h;
        let mut halo: Vec<u32> = Vec::new();
        if cx + 1 < self.chunks_x && cy + 1 < self.chunks_y {
            let mut i: usize = 0;
            while i < w
                invariant
                    self.wf(),
                    cx + 1 < self.spec_chunks_x(),
                    cy + 1 < self.spec_chunks_y(),
                    w == self.spec_chunk_w(),
                    h == self.spec_chunk_h(),
                    i <= w,
                    halo@.len() == i,
                    forall|j: int| 0 <= j < i ==> halo@[j] == self.halo_values(
                        cx as int,
                        cy as int,
                    )[j],
                decreases w - i,
            {
                let v = self.sample_at(cx, cy + 1, 0, i);
                halo.push(v);
                i = i + 1;
            }
            let mut i: usize = 0;
            while i < h
                invariant
                    self.wf(),
                    cx + 1 < self.spec_chunks_x(),
                    cy + 1 < self.spec_chunks_y(),
                    w == self.spec_chunk_w(),
                    h == self.spec_chunk_h(),
                    i <= h,
                    halo@.len() == w + i,
                    forall|j: int| 0 <= j < halo@.len() ==> halo@[j] == self.halo_values(
                        cx as int,
                        cy as int,
                    )[j],
                decreases h - i,
            {
                let v = self.sample_at(cx + 1, cy, i, 0);
                halo.push(v);
                i = i + 1;
            }
            let v = self.sample_at(cx + 1, cy + 1, 0, 0);
            halo.push(v);
        } else {
            let mut i: usize = 0;
            while i < w + h + 1
                invariant
                    self.wf(),
                    cx < self.spec_chunks_x(),
                    cy < self.spec_chunks_y(),
                    !(cx + 1 < self.spec_chunks_x() && cy + 1 < self.spec_chunks_y()),
                    w == self.spec_chunk_w(),
                    h == self.spec_chunk_h(),
                    i <= w + h + 1,
                    halo@.len() == i,
                    forall|j: int| 0 <= j < i ==> halo@[j] == 0u32,
                decreases w + h + 1 - i,
            {
                halo.push(0);
                i = i + 1;
            }
        }
        proof {
            assert(halo@ =~= self.halo_values(cx as int, cy as int));
        }
        halo
    }

    /// Halo correctness, the seam guarantee of the height-field: for a
    /// chunk away from the world's far boundary, every halo entry equals
    /// the matching interior sample of the neighbor it was copied from.
    pub proof fn lemma_halo_matches_neighbors(self, cx: int, cy: int)
        requires
            self.wf(),
            0 <= cx,
            cx + 1 < self.spec_chunks_x(),
            0 <= cy,
            cy + 1 < self.spec_chunks_y(),
        ensures
            forall|c: int| 0 <= c < self.spec_chunk_w() ==> self.halo_values(cx, cy)[c]
                == self.chunk_slice(cx, cy + 1)[c],
            forall|r: int| 0 <= r < self.spec_chunk_h() ==> self.halo_values(cx, cy)[
                self.spec_chunk_w() + r
            ] == self.chunk_slice(cx + 1, cy)[#[trigger] (r * self.spec_chunk_w())],
            self.halo_values(cx, cy)[self.spec_chunk_w() + self.spec_chunk_h()]
                == self.chunk_slice(cx + 1, cy + 1)[0],
    {
        let w = self.spec_chunk_w();
        let h = self.spec_chunk_h();
        assert forall|c: int| 0 <= c < w implies self.halo_values(cx, cy)[c] == self.chunk_slice(
            cx,
            cy + 1,
        )[c] by {
            self.lemma_chunk_slice_at(cx, cy + 1, 0, c);
        }
        assert forall|r: int| 0 <= r < h implies self.halo_values(cx, cy)[w + r]
            == self.chunk_slice(cx + 1, cy)[#[trigger] (r * w)] by {
            self.lemma_chunk_slice_at(cx + 1, cy, r, 0);
            lemma_grid_index_bound(r, h, 0, w);
        }
        self.lemma_chunk_slice_at(cx + 1, cy + 1, 0, 0);
    }
}

/// If a four-way product already exceeds the machine bound at its first
/// factor pair, no buffer of machine-bounded length can match it.
proof fn lemma_product_exceeds(x: int, y: int, h: int, w: int, cap: int, len: int)
    requires
        0 < x,
        0 < y,
        0 < h,
        0 < w,
        x * y > cap,
        len <= cap,
    ensures
        len != x * y * h * w,
{
    assert(x * y * h * w >= x * y) by (nonlinear_arith)
        requires
            0 < x,
            0 < y,
            0 < h,
            0 < w,
    ;
}

/// The same, one factor later.
proof fn lemma_partial_product_exceeds(xy: int, h: int, w: int, cap: int, len: int)
    requires
        0 < xy,
        0 < h,
        0 < w,
        xy * h > cap,
        len <= cap,
    ensures
        len != xy * h * w,
{
    assert(xy * h * w >= xy * h) by (nonlinear_arith)
        requires
            0 < xy,
            0 < h,
            0 < w,
    ;
}

} // verus!
