use std::collections::HashSet;

use terrain::scheduler::VisibleSet;
use terrain::scheduler::get_circle_area;
use terrain::scheduler::isqrt;
use terrain::scheduler::lod_tier;

fn coords(entries: &[((i32, i32), u32)]) -> HashSet<(i32, i32)> {
    entries.iter().map(|e| e.0).collect()
}

#[test]
fn isqrt_exact_values() {
    assert_eq!(isqrt(0), 0);
    assert_eq!(isqrt(1), 1);
    assert_eq!(isqrt(3), 1);
    assert_eq!(isqrt(4), 2);
    assert_eq!(isqrt(24), 4);
    assert_eq!(isqrt(25), 5);
    assert_eq!(isqrt(26), 5);
    assert_eq!(isqrt(1 << 46), 1 << 23);
}

#[test]
fn radius_three_disc_has_exactly_29_points() {
    let area = get_circle_area(0, 0, 3, 1);
    assert_eq!(area.len(), 29);
    let got = coords(&area);
    assert_eq!(got.len(), 29);
    for y in -5..=5i32 {
        for x in -5..=5i32 {
            assert_eq!(got.contains(&(x, y)), x * x + y * y <= 9, "({}, {})", x, y);
        }
    }
}

#[test]
fn disc_is_translated_to_its_center() {
    let area = get_circle_area(10, -4, 2, 1);
    let got = coords(&area);
    assert_eq!(got.len(), 13);
    for &(x, y) in &got {
        let (dx, dy) = (x - 10, y + 4);
        assert!(dx * dx + dy * dy <= 4);
    }
    assert!(got.contains(&(10, -4)));
    assert!(got.contains(&(12, -4)));
    assert!(!got.contains(&(12, -3)));
}

#[test]
fn lod_tiers_by_euclidean_distance() {
    // lod_tier takes the squared chunk distance.
    assert_eq!(lod_tier(1 * 1, 2), 0);
    assert_eq!(lod_tier(3 * 3, 2), 2);
    assert_eq!(lod_tier(5 * 5, 2), 4);
    // A distance exactly on a boundary falls into the coarser tier.
    assert_eq!(lod_tier(2 * 2, 2), 2);
    assert_eq!(lod_tier(4 * 4, 2), 4);
    assert_eq!(lod_tier(0, 2), 0);
}

#[test]
fn circle_area_annotates_tiers() {
    let area = get_circle_area(0, 0, 5, 2);
    for &((x, y), tier) in area.iter() {
        let d2 = (x * x + y * y) as u64;
        assert_eq!(tier, lod_tier(d2, 2), "({}, {})", x, y);
    }
    let lookup: std::collections::HashMap<(i32, i32), u32> =
        area.iter().cloned().collect();
    assert_eq!(lookup[&(1, 0)], 0);
    assert_eq!(lookup[&(3, 0)], 2);
    assert_eq!(lookup[&(5, 0)], 4);
    assert_eq!(lookup[&(2, 0)], 2);
    assert_eq!(lookup[&(4, 0)], 4);
}

#[test]
fn streaming_converges_from_empty() {
    let mut visible = VisibleSet::new();
    assert_eq!(visible.visible().len(), 0);

    // A large lod radius keeps every tier at 0, so entries are plain
    // coordinates.
    let target = get_circle_area(0, 0, 1, 100);
    let (unload, load) = visible.update(&target);
    assert!(unload.is_empty());
    assert_eq!(load.len(), 5);
    let expected: HashSet<(i32, i32)> =
        [(0, 0), (1, 0), (-1, 0), (0, 1), (0, -1)].into_iter().collect();
    assert_eq!(coords(visible.visible()), expected);
    assert_eq!(coords(&load), expected);
}

#[test]
fn streaming_diffs_after_the_player_moves() {
    let mut visible = VisibleSet::new();
    let target = get_circle_area(0, 0, 1, 100);
    visible.update(&target);

    let moved = get_circle_area(1, 0, 1, 100);
    let (unload, load) = visible.update(&moved);

    let expected_unload: HashSet<(i32, i32)> =
        [(-1, 0), (0, 1), (0, -1)].into_iter().collect();
    let expected_load: HashSet<(i32, i32)> =
        [(2, 0), (1, 1), (1, -1)].into_iter().collect();
    assert_eq!(coords(&unload), expected_unload);
    assert_eq!(coords(&load), expected_load);
    assert_eq!(visible.visible().len(), 5);
}

#[test]
fn repeated_update_changes_nothing() {
    let mut visible = VisibleSet::new();
    let target = get_circle_area(3, 7, 4, 2);
    visible.update(&target);
    let (unload, load) = visible.update(&target);
    assert!(unload.is_empty());
    assert!(load.is_empty());
    assert_eq!(visible.visible().len(), target.len());
}

#[test]
fn a_tier_change_reloads_the_chunk() {
    let mut visible = VisibleSet::new();
    // Radius 0: only the center, at tier 0.
    let near = get_circle_area(5, 5, 0, 1);
    visible.update(&near);
    assert_eq!(visible.visible(), &vec![((5, 5), 0)]);

    // The same coordinate reappears with a coarser tier once the center
    // moves away: the old entry is unloaded and the new one loaded.
    let far = vec![((5i32, 5i32), 4u32)];
    let (unload, load) = visible.update(&far);
    assert_eq!(unload, vec![((5, 5), 0)]);
    assert_eq!(load, vec![((5, 5), 4)]);
}

#[test]
fn radius_zero_disc_is_the_center_alone() {
    let area = get_circle_area(-7, 9, 0, 3);
    assert_eq!(area, vec![((-7, 9), 0)]);
}
