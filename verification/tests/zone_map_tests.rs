use dildonica::zone_map::{check_zone_map, default_zone_map, map_zone, reversed_zone_map, ZoneMapCheck};

#[test]
fn default_map_is_identity_and_complete() {
    let m = default_zone_map();
    assert_eq!(m, vec![0, 1, 2, 3, 4, 5, 6, 7]);
    assert_eq!(check_zone_map(&m), ZoneMapCheck::Complete);
    for z in 0..12 {
        assert_eq!(map_zone(&m, z), z);
    }
}

#[test]
fn reverse_order() {
    let m = default_zone_map();
    let r = reversed_zone_map(&m);
    assert_eq!(r, vec![7, 6, 5, 4, 3, 2, 1, 0]);
    assert_eq!(reversed_zone_map(&r), m);
    assert_eq!(check_zone_map(&r), ZoneMapCheck::Complete);
    for z in 0..8 {
        assert_eq!(map_zone(&r, z), 7 - z);
    }
}

#[test]
fn reverse_of_empty_and_odd_maps() {
    assert_eq!(reversed_zone_map(&[]), Vec::<usize>::new());
    assert_eq!(reversed_zone_map(&[4, 9, 1]), vec![1, 9, 4]);
}

#[test]
fn duplicates_are_reported() {
    assert_eq!(check_zone_map(&[0, 1, 2, 3, 4, 5, 6, 6]), ZoneMapCheck::Duplicate);
    assert_eq!(check_zone_map(&[3, 3]), ZoneMapCheck::Duplicate);
    assert_eq!(check_zone_map(&[0, 1, 2, 3, 4, 5, 6, 7, 0]), ZoneMapCheck::Duplicate);
}

#[test]
fn repeated_out_of_range_entries_are_not_duplicates() {
    assert_eq!(check_zone_map(&[0, 1, 2, 3, 4, 5, 9, 9]), ZoneMapCheck::Partial);
}

#[test]
fn incomplete_maps_are_partial() {
    assert_eq!(check_zone_map(&[]), ZoneMapCheck::Partial);
    assert_eq!(check_zone_map(&[0, 1, 2, 3, 4, 5, 6]), ZoneMapCheck::Partial);
    assert_eq!(check_zone_map(&[0, 1, 2, 3, 4, 5, 6, 7, 8]), ZoneMapCheck::Partial);
    assert_eq!(check_zone_map(&[0, 1, 2, 3, 4, 5, 6, 8]), ZoneMapCheck::Partial);
}

#[test]
fn permutation_is_complete() {
    assert_eq!(check_zone_map(&[3, 1, 7, 0, 2, 6, 4, 5]), ZoneMapCheck::Complete);
}

#[test]
fn map_zone_finds_first_entry() {
    let m = [3, 1, 7, 0, 2, 6, 4, 5];
    assert_eq!(map_zone(&m, 3), 0);
    assert_eq!(map_zone(&m, 5), 7);
    assert_eq!(map_zone(&m, 0), 3);
    for k in 0..8 {
        assert_eq!(map_zone(&m, m[k]), k);
    }
    assert_eq!(map_zone(&[2, 2, 2], 2), 0);
}

#[test]
fn map_zone_passes_through_unmapped_zones() {
    assert_eq!(map_zone(&[], 4), 4);
    assert_eq!(map_zone(&[0, 1, 2], 6), 6);
    assert_eq!(map_zone(&[0, 1, 2], 100), 100);
}
