use terrain::heightfield::HeightField;
use terrain::mesh::ChunkData;
use terrain::mesh::decimate_heights;

#[test]
fn mesh_of_two_by_two_chunk_at_full_detail() {
    let heightmap = vec![10u32, 20, 30, 40];
    let halo = vec![50u32, 60, 70, 80, 90];
    let mesh = ChunkData::new(&heightmap, &halo, 2, 2, 1);

    // 3 x 3 vertices: interior samples, then the halo along the last
    // column (70, 80), the last row (50, 60) and the corner (90).
    let expected_heights = [
        [10, 20, 70],
        [30, 40, 80],
        [50, 60, 90],
    ];
    assert_eq!(mesh.vertex_buffer.len(), 9);
    for vy in 0..3 {
        for vx in 0..3 {
            let v = mesh.vertex_buffer[vy * 3 + vx];
            assert_eq!(v.x, vx as u32);
            assert_eq!(v.z, vy as u32);
            assert_eq!(v.height, expected_heights[vy][vx]);
        }
    }

    // Two triangles per quad, winding (i0, i3, i1), (i0, i2, i3).
    let expected_indices = [
        0, 4, 1, 0, 3, 4, //
        1, 5, 2, 1, 4, 5, //
        3, 7, 4, 3, 6, 7, //
        4, 8, 5, 4, 7, 8,
    ];
    assert_eq!(mesh.index_buffer, expected_indices);
}

#[test]
fn mesh_at_stride_two_samples_every_other_point() {
    let heightmap: Vec<u32> = (0..16u32).collect();
    let halo: Vec<u32> = (100..109u32).collect();
    let mesh = ChunkData::new(&heightmap, &halo, 4, 4, 2);

    // 3 x 3 vertices at grid positions 0, 2, 4.
    assert_eq!(mesh.vertex_buffer.len(), 9);
    let expected_heights = [
        [0, 2, 104 + 0],
        [8, 10, 104 + 2],
        [100, 102, 108],
    ];
    for vy in 0..3 {
        for vx in 0..3 {
            let v = mesh.vertex_buffer[vy * 3 + vx];
            assert_eq!(v.x, (vx * 2) as u32);
            assert_eq!(v.z, (vy * 2) as u32);
            assert_eq!(v.height, expected_heights[vy][vx]);
        }
    }
    assert_eq!(mesh.index_buffer.len(), 6 * 4);
}

#[test]
fn vertex_and_index_counts_follow_the_stride() {
    let heightmap: Vec<u32> = vec![1; 8 * 8];
    let halo: Vec<u32> = vec![2; 8 + 8 + 1];
    for lod in [1usize, 2, 4] {
        let mesh = ChunkData::new(&heightmap, &halo, 8, 8, lod);
        let n = 8 / lod;
        assert_eq!(mesh.vertex_buffer.len(), (n + 1) * (n + 1));
        assert_eq!(mesh.index_buffer.len(), 6 * n * n);
    }
}

#[test]
fn decimation_keeps_every_strideth_sample() {
    let heightmap: Vec<u32> = (0..16u32).collect();
    let d = decimate_heights(&heightmap, 4, 4, 2);
    assert_eq!(d, vec![0, 2, 8, 10]);

    let all = decimate_heights(&heightmap, 4, 4, 1);
    assert_eq!(all, heightmap);

    let corner = decimate_heights(&heightmap, 4, 4, 16);
    assert_eq!(corner, vec![0]);
}

#[test]
fn adjacent_chunk_meshes_agree_on_their_shared_column() {
    let total = 2 * 2 * 4 * 4;
    let samples: Vec<u32> = (0..total as u32).map(|v| v.wrapping_mul(2654435761)).collect();
    let f = HeightField::new(samples, 2, 2, 4, 4).expect("dimensions match");

    let slice_a = f.extract_chunk_slice(0, 0);
    let halo_a = f.extract_halo(0, 0);
    let mesh_a = ChunkData::new(&slice_a, &halo_a, 4, 4, 1);

    let slice_b = f.extract_chunk_slice(1, 0);
    let halo_b = f.extract_halo(1, 0);
    let mesh_b = ChunkData::new(&slice_b, &halo_b, 4, 4, 1);

    // A's rightmost generated column equals B's leftmost interior column
    // at every shared row.
    let cols = 5;
    for vy in 0..4 {
        let right_of_a = mesh_a.vertex_buffer[vy * cols + (cols - 1)].height;
        let left_of_b = mesh_b.vertex_buffer[vy * cols].height;
        assert_eq!(right_of_a, left_of_b, "row {}", vy);
    }
}

#[test]
fn stacked_chunk_meshes_agree_on_their_shared_row() {
    let total = 2 * 2 * 4 * 4;
    let samples: Vec<u32> = (0..total as u32).map(|v| v.wrapping_mul(40503)).collect();
    let f = HeightField::new(samples, 2, 2, 4, 4).expect("dimensions match");

    let mesh_a = ChunkData::new(&f.extract_chunk_slice(0, 0), &f.extract_halo(0, 0), 4, 4, 1);
    let mesh_b = ChunkData::new(&f.extract_chunk_slice(0, 1), &f.extract_halo(0, 1), 4, 4, 1);

    let cols = 5;
    for vx in 0..4 {
        let bottom_of_a = mesh_a.vertex_buffer[4 * cols + vx].height;
        let top_of_b = mesh_b.vertex_buffer[vx].height;
        assert_eq!(bottom_of_a, top_of_b, "column {}", vx);
    }
}
