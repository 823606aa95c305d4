use terrain::noise::PermutationTable;

#[test]
fn table_has_512_entries_with_duplicated_halves() {
    let table = PermutationTable::new(42);
    let bytes = table.bytes();
    assert_eq!(bytes.len(), 512);
    for i in 0..256 {
        assert_eq!(bytes[i], bytes[i + 256]);
    }
}

#[test]
fn table_contains_each_value_exactly_twice() {
    for seed in [0u64, 1, 7, 42, u64::MAX] {
        let table = PermutationTable::new(seed);
        let bytes = table.bytes();
        let mut counts = [0usize; 256];
        for &b in bytes.iter() {
            counts[b as usize] += 1;
        }
        for v in 0..256 {
            assert_eq!(counts[v], 2, "value {} for seed {}", v, seed);
        }
    }
}

#[test]
fn table_is_deterministic_for_a_seed() {
    let a = PermutationTable::new(7);
    let b = PermutationTable::new(7);
    assert_eq!(a.bytes(), b.bytes());
}

#[test]
fn table_is_actually_shuffled() {
    // The identity order would mean the seeded shuffle did nothing at all.
    let table = PermutationTable::new(1);
    let bytes = table.bytes();
    let identity: Vec<u8> = (0..=255u8).collect();
    assert_ne!(&bytes[..256], &identity[..]);
}

#[test]
fn tables_for_different_seeds_differ() {
    let a = PermutationTable::new(1);
    let b = PermutationTable::new(2);
    assert_ne!(a.bytes(), b.bytes());
}

#[test]
fn gradient_index_is_bounded_and_deterministic() {
    let a = PermutationTable::new(9);
    let b = PermutationTable::new(9);
    for x in 0..300usize {
        for y in 0..300usize {
            let g = a.gradient_index(x, y);
            assert!(g < 16);
            assert_eq!(g, b.gradient_index(x, y));
        }
    }
}

#[test]
fn gradient_index_wraps_at_256() {
    let t = PermutationTable::new(5);
    assert_eq!(t.gradient_index(3, 7), t.gradient_index(3 + 256, 7));
    assert_eq!(t.gradient_index(3, 7), t.gradient_index(3, 7 + 256));
    assert_eq!(t.gradient_index(3, 7), t.gradient_index(3 + 512, 7 + 256));
}

#[test]
fn gradient_index_matches_hash_formula() {
    let t = PermutationTable::new(11);
    let bytes = t.bytes();
    for (x, y) in [(0usize, 0usize), (1, 2), (255, 255), (17, 300), (999, 4)] {
        let expected = bytes[(bytes[x & 255] as usize + (y & 255)) & 255] % 16;
        assert_eq!(t.gradient_index(x, y), expected as usize);
    }
}
