use terrain::heightfield::HeightField;
use terrain::mesh::ChunkData;
use terrain::store::Chunkbase;

fn small_world() -> HeightField {
    let total = 3 * 2 * 4 * 4;
    let samples: Vec<u32> = (0..total as u32).map(|v| v.wrapping_mul(2246822519)).collect();
    HeightField::new(samples, 3, 2, 4, 4).expect("dimensions match")
}

#[test]
fn every_in_world_coordinate_has_a_chunk() {
    let field = small_world();
    let base = Chunkbase::new(&field);
    for y in 0..2 {
        for x in 0..3 {
            assert!(base.get_chunk(&(x, y)).is_some(), "({}, {})", x, y);
        }
    }
}

#[test]
fn out_of_world_lookups_yield_nothing() {
    let field = small_world();
    let base = Chunkbase::new(&field);
    for coord in [(-1, 0), (0, -1), (3, 0), (0, 2), (100, 100), (i32::MIN, i32::MAX)] {
        assert!(base.get_chunk(&coord).is_none(), "{:?}", coord);
    }
}

#[test]
fn chunk_transforms_are_scaled_coordinates() {
    let field = small_world();
    let base = Chunkbase::new(&field);
    let c = base.get_chunk(&(2, 1)).expect("in world");
    assert_eq!(c.transform_x, 2 * 4);
    assert_eq!(c.transform_z, 1 * 4);
    let origin = base.get_chunk(&(0, 0)).expect("in world");
    assert_eq!(origin.transform_x, 0);
    assert_eq!(origin.transform_z, 0);
}

#[test]
fn stored_meshes_match_a_direct_build() {
    let field = small_world();
    let base = Chunkbase::new(&field);
    let c = base.get_chunk(&(1, 1)).expect("in world");

    let slice = field.extract_chunk_slice(1, 1);
    let halo = field.extract_halo(1, 1);
    for (stored, lod) in [(&c.mesh, 1usize), (&c.mesh_2, 2), (&c.mesh_4, 4)] {
        let direct = ChunkData::new(&slice, &halo, 4, 4, lod);
        assert_eq!(stored.vertex_buffer, direct.vertex_buffer, "lod {}", lod);
        assert_eq!(stored.index_buffer, direct.index_buffer, "lod {}", lod);
    }
}

#[test]
fn collider_grid_is_the_decimated_slice() {
    let field = small_world();
    let base = Chunkbase::new(&field);
    let c = base.get_chunk(&(0, 1)).expect("in world");
    // A 4 x 4 chunk decimated by the stride-16 collider grid keeps the
    // single corner sample.
    assert_eq!(c.collider_heights, vec![field.sample_at(0, 1, 0, 0)]);
}

#[test]
fn filter_known_intersects_with_the_world() {
    let field = small_world();
    let base = Chunkbase::new(&field);
    let disc = terrain::scheduler::get_circle_area(0, 0, 1, 100);
    assert_eq!(disc.len(), 5);
    let kept = base.filter_known(&disc);
    let coords: Vec<(i32, i32)> = kept.iter().map(|e| e.0).collect();
    assert_eq!(kept.len(), 3);
    assert!(coords.contains(&(0, 0)));
    assert!(coords.contains(&(1, 0)));
    assert!(coords.contains(&(0, 1)));
    assert!(!coords.contains(&(-1, 0)));
    assert!(!coords.contains(&(0, -1)));
}

#[test]
fn mesh_detail_shrinks_with_the_tier() {
    let field = small_world();
    let base = Chunkbase::new(&field);
    let c = base.get_chunk(&(0, 0)).expect("in world");
    assert_eq!(c.mesh.vertex_buffer.len(), 5 * 5);
    assert_eq!(c.mesh_2.vertex_buffer.len(), 3 * 3);
    assert_eq!(c.mesh_4.vertex_buffer.len(), 2 * 2);
    assert_eq!(c.mesh.index_buffer.len(), 6 * 16);
    assert_eq!(c.mesh_2.index_buffer.len(), 6 * 4);
    assert_eq!(c.mesh_4.index_buffer.len(), 6 * 1);
}
