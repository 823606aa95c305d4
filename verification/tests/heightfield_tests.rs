use terrain::heightfield::HeightField;

// A 2 x 2 chunk world of 4 x 4 chunks whose sample at flat index i is i
// itself, so every extraction can be checked against the layout formula.
fn small_world() -> HeightField {
    let total = 2 * 2 * 4 * 4;
    let samples: Vec<u32> = (0..total as u32).collect();
    HeightField::new(samples, 2, 2, 4, 4).expect("dimensions match")
}

fn flat(cx: usize, cy: usize, ly: usize, lx: usize) -> u32 {
    (((cy * 2 + cx) * 4 + ly) * 4 + lx) as u32
}

#[test]
fn new_rejects_mismatched_buffer() {
    assert!(HeightField::new(vec![0u32; 63], 2, 2, 4, 4).is_none());
    assert!(HeightField::new(vec![0u32; 65], 2, 2, 4, 4).is_none());
    assert!(HeightField::new(vec![], 0, 2, 4, 4).is_none());
    assert!(HeightField::new(vec![0u32; 64], 2, 2, 4, 4).is_some());
}

#[test]
fn sample_at_follows_chunk_major_layout() {
    let f = small_world();
    for cy in 0..2 {
        for cx in 0..2 {
            for ly in 0..4 {
                for lx in 0..4 {
                    assert_eq!(f.sample_at(cx, cy, ly, lx), flat(cx, cy, ly, lx));
                }
            }
        }
    }
}

#[test]
fn chunk_slice_is_row_major() {
    let f = small_world();
    let s = f.extract_chunk_slice(1, 0);
    assert_eq!(s.len(), 16);
    for ly in 0..4 {
        for lx in 0..4 {
            assert_eq!(s[ly * 4 + lx], flat(1, 0, ly, lx));
        }
    }
}

#[test]
fn halo_of_interior_chunk_reads_all_three_neighbors() {
    let f = small_world();
    let halo = f.extract_halo(0, 0);
    assert_eq!(halo.len(), 4 + 4 + 1);
    // Bottom row: first row of the chunk below.
    for c in 0..4 {
        assert_eq!(halo[c], flat(0, 1, 0, c));
    }
    // Right column: first column of the chunk to the right.
    for r in 0..4 {
        assert_eq!(halo[4 + r], flat(1, 0, r, 0));
    }
    // Corner: the diagonal neighbor's first sample.
    assert_eq!(halo[8], flat(1, 1, 0, 0));
}

#[test]
fn halo_on_far_boundary_is_zero() {
    let f = small_world();
    for (cx, cy) in [(1usize, 0usize), (0, 1), (1, 1)] {
        let halo = f.extract_halo(cx, cy);
        assert!(halo.iter().all(|&v| v == 0));
    }
}

#[test]
fn halo_right_column_equals_neighbor_interior() {
    let f = small_world();
    let halo_a = f.extract_halo(0, 0);
    let slice_b = f.extract_chunk_slice(1, 0);
    for r in 0..4 {
        assert_eq!(halo_a[4 + r], slice_b[r * 4]);
    }
}
