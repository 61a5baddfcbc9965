use craftsmen::data::{Coverage, PostcodeGroup, ServiceProvider};
use craftsmen::geo::{Envelope, GeoPoint, COORD_LIMIT};
use craftsmen::index::{InServiceProvider, SpatialIndex};
use craftsmen::tiers::{effective_distance, entry_for_tier, envelope_for_tier, TieredIndex};

fn boxed(min_lon: i64, min_lat: i64, max_lon: i64, max_lat: i64) -> Envelope {
    Envelope { min: GeoPoint { lon: min_lon, lat: min_lat }, max: GeoPoint { lon: max_lon, lat: max_lat } }
}

fn entry(id: u32, envelope: Envelope) -> InServiceProvider {
    InServiceProvider {
        id,
        name: format!("provider {}", id),
        pos: GeoPoint { lon: envelope.min.lon, lat: envelope.min.lat },
        envelope,
        max_driving_distance: 1_000,
    }
}

fn found(index: &SpatialIndex, lon: i64, lat: i64) -> Vec<u32> {
    let mut ids: Vec<u32> = index.query_point(&GeoPoint { lon, lat }).iter().map(|e| e.id).collect();
    ids.sort();
    ids
}

#[test]
fn bulk_built_index_finds_the_boxes_that_hold_a_point() {
    let index = SpatialIndex::bulk_build(vec![
        entry(1, boxed(0, 0, 10, 10)),
        entry(2, boxed(5, 5, 15, 15)),
        entry(3, boxed(20, 20, 30, 30)),
    ]);
    assert_eq!(index.len(), 3);
    assert_eq!(found(&index, 7, 7), vec![1, 2]);
    assert_eq!(found(&index, 0, 0), vec![1]);
    assert_eq!(found(&index, 10, 10), vec![1, 2]);
    assert_eq!(found(&index, 15, 16), Vec::<u32>::new());
    assert_eq!(found(&index, 30, 20), vec![3]);
    assert_eq!(found(&index, 31, 20), Vec::<u32>::new());
}

#[test]
fn empty_index_finds_nothing() {
    let index = SpatialIndex::bulk_build(vec![]);
    assert_eq!(index.len(), 0);
    assert_eq!(found(&index, 0, 0), Vec::<u32>::new());
    assert!(index.get(1).is_none());
}

#[test]
fn bulk_build_keeps_the_later_of_two_entries_with_one_id() {
    let index = SpatialIndex::bulk_build(vec![
        entry(1, boxed(0, 0, 10, 10)),
        entry(2, boxed(0, 0, 10, 10)),
        entry(1, boxed(100, 100, 110, 110)),
    ]);
    assert_eq!(index.len(), 2);
    assert_eq!(found(&index, 5, 5), vec![2]);
    assert_eq!(found(&index, 105, 105), vec![1]);
    assert_eq!(index.get(1).unwrap().envelope, boxed(100, 100, 110, 110));
}

#[test]
fn inserted_entry_is_found() {
    let mut index = SpatialIndex::bulk_build(vec![entry(1, boxed(0, 0, 10, 10))]);
    assert_eq!(found(&index, 50, 50), Vec::<u32>::new());
    index.insert(entry(2, boxed(40, 40, 60, 60)));
    assert_eq!(index.len(), 2);
    assert_eq!(found(&index, 50, 50), vec![2]);
    assert_eq!(found(&index, 5, 5), vec![1]);
}

#[test]
fn insert_under_a_filed_id_replaces_the_entry() {
    let mut index = SpatialIndex::bulk_build(vec![entry(1, boxed(0, 0, 10, 10))]);
    index.insert(entry(1, boxed(40, 40, 60, 60)));
    assert_eq!(index.len(), 1);
    assert_eq!(found(&index, 5, 5), Vec::<u32>::new());
    assert_eq!(found(&index, 50, 50), vec![1]);
    index.insert(entry(1, boxed(0, 0, 10, 10)));
    assert_eq!(found(&index, 5, 5), vec![1]);
    assert_eq!(found(&index, 50, 50), Vec::<u32>::new());
}

#[test]
fn many_inserts_and_replacements_keep_the_index_exact() {
    let mut index = SpatialIndex::bulk_build(vec![]);
    for id in 0..500u32 {
        let x = (id as i64 % 25) * 100;
        let y = (id as i64 / 25) * 100;
        index.insert(entry(id, boxed(x, y, x + 150, y + 150)));
    }
    for id in (0..500u32).step_by(3) {
        let x = (id as i64 % 25) * 100 + 10_000;
        let y = (id as i64 / 25) * 100;
        index.insert(entry(id, boxed(x, y, x + 150, y + 150)));
    }
    assert_eq!(index.len(), 500);
    for px in (0..13_000i64).step_by(330) {
        for py in (0..2_200i64).step_by(170) {
            let mut expected = Vec::new();
            for id in 0..500u32 {
                let moved = if id % 3 == 0 { 10_000 } else { 0 };
                let x = (id as i64 % 25) * 100 + moved;
                let y = (id as i64 / 25) * 100;
                if x <= px && px <= x + 150 && y <= py && py <= y + 150 {
                    expected.push(id);
                }
            }
            assert_eq!(found(&index, px, py), expected);
        }
    }
}

#[test]
fn stored_boxes_are_ordered_and_cut_to_the_limit() {
    let mut index = SpatialIndex::bulk_build(vec![entry(1, boxed(10, 10, 0, 0))]);
    assert_eq!(index.get(1).unwrap().envelope, boxed(0, 0, 10, 10));
    assert_eq!(found(&index, 5, 5), vec![1]);
    index.insert(entry(2, boxed(i64::MIN, -5, i64::MAX, 5)));
    assert_eq!(index.get(2).unwrap().envelope, boxed(-COORD_LIMIT, -5, COORD_LIMIT, 5));
    assert_eq!(found(&index, COORD_LIMIT, 0), vec![2]);
    assert_eq!(found(&index, COORD_LIMIT + 1, 0), Vec::<u32>::new());
}

#[test]
fn reach_is_compared_in_millimetres() {
    let e = entry(1, boxed(0, 0, 1, 1));
    assert!(e.within_reach(0));
    assert!(e.within_reach(999_999));
    assert!(e.within_reach(1_000_000));
    assert!(!e.within_reach(1_000_001));
    assert!(!e.within_reach(u64::MAX));
    let wide = InServiceProvider { max_driving_distance: u64::MAX as u128 + 5_000, ..entry(2, boxed(0, 0, 1, 1)) };
    assert!(wide.within_reach(u64::MAX));
    let none = InServiceProvider { max_driving_distance: 0, ..entry(3, boxed(0, 0, 1, 1)) };
    assert!(none.within_reach(0));
    assert!(!none.within_reach(1));
}

fn provider_with(coverage: Coverage, max: u64) -> ServiceProvider {
    ServiceProvider {
        id: 9,
        first_name: "Jo".to_string(),
        last_name: "Bauer".to_string(),
        city: String::new(),
        street: String::new(),
        house_number: String::new(),
        lon: 3,
        lat: 4,
        max_driving_distance: max,
        coverage,
    }
}

#[test]
fn tier_entries_carry_name_position_and_buffered_distance() {
    let coverage = Coverage {
        group_a: boxed(0, 0, 10, 10),
        group_b: boxed(-2, -2, 12, 12),
        group_c: boxed(-5, -5, 15, 15),
    };
    let p = provider_with(coverage, 7_000);
    let a = entry_for_tier(9, &p, PostcodeGroup::GroupA);
    let b = entry_for_tier(9, &p, PostcodeGroup::GroupB);
    let c = entry_for_tier(9, &p, PostcodeGroup::GroupC);
    assert_eq!((a.id, a.name.as_str(), a.pos), (9, "JoBauer", GeoPoint { lon: 3, lat: 4 }));
    assert_eq!(a.max_driving_distance, 7_000);
    assert_eq!(b.max_driving_distance, 9_000);
    assert_eq!(c.max_driving_distance, 12_000);
    assert_eq!(a.envelope, boxed(0, 0, 10, 10));
    assert_eq!(b.envelope, boxed(-2, -2, 12, 12));
    assert_eq!(c.envelope, boxed(-5, -5, 15, 15));
    let huge = entry_for_tier(9, &provider_with(coverage, u64::MAX), PostcodeGroup::GroupC);
    assert_eq!(huge.max_driving_distance, u64::MAX as u128 + 5_000);
}

#[test]
fn wider_tiers_are_widened_to_hold_the_narrower() {
    let coverage = Coverage {
        group_a: boxed(0, 0, 10, 10),
        group_b: boxed(2, -2, 8, 12),
        group_c: boxed(3, 3, 4, 4),
    };
    assert_eq!(envelope_for_tier(&coverage, PostcodeGroup::GroupA), boxed(0, 0, 10, 10));
    assert_eq!(envelope_for_tier(&coverage, PostcodeGroup::GroupB), boxed(0, -2, 10, 12));
    assert_eq!(envelope_for_tier(&coverage, PostcodeGroup::GroupC), boxed(0, -2, 10, 12));
}

#[test]
fn tiered_index_answers_from_the_tier_of_the_band() {
    let coverage = Coverage {
        group_a: boxed(0, 0, 10, 10),
        group_b: boxed(-2, -2, 12, 12),
        group_c: boxed(-5, -5, 15, 15),
    };
    let mut providers = std::collections::HashMap::new();
    providers.insert(9, provider_with(coverage, 7_000));
    let mut tiers = TieredIndex::build(&providers);
    let at = GeoPoint { lon: 11, lat: 11 };
    assert_eq!(tiers.query(PostcodeGroup::GroupA, &at).len(), 0);
    assert_eq!(tiers.query(PostcodeGroup::GroupB, &at).len(), 1);
    assert_eq!(tiers.query(PostcodeGroup::GroupC, &at).len(), 1);
    let far = GeoPoint { lon: 14, lat: -4 };
    assert_eq!(tiers.query(PostcodeGroup::GroupB, &far).len(), 0);
    assert_eq!(tiers.query(PostcodeGroup::GroupC, &far)[0].max_driving_distance, 12_000);
    let moved = Coverage {
        group_a: boxed(100, 100, 110, 110),
        group_b: boxed(100, 100, 110, 110),
        group_c: boxed(100, 100, 110, 110),
    };
    tiers.insert(9, &provider_with(moved, 1));
    assert_eq!(tiers.query(PostcodeGroup::GroupC, &at).len(), 0);
    assert_eq!(tiers.query(PostcodeGroup::GroupA, &GeoPoint { lon: 105, lat: 105 })[0].max_driving_distance, 1);
    tiers.insert(10, &provider_with(moved, 2));
    assert_eq!(tiers.query(PostcodeGroup::GroupB, &GeoPoint { lon: 105, lat: 105 }).len(), 2);
}

#[test]
fn effective_distance_adds_the_buffer_of_the_band() {
    assert_eq!(effective_distance(9_000, PostcodeGroup::GroupA), 9_000);
    assert_eq!(effective_distance(9_000, PostcodeGroup::GroupB), 11_000);
    assert_eq!(effective_distance(9_000, PostcodeGroup::GroupC), 14_000);
    assert_eq!(effective_distance(0, PostcodeGroup::GroupC), 5_000);
    assert_eq!(effective_distance(u64::MAX, PostcodeGroup::GroupB), u64::MAX as u128 + 2_000);
}

#[test]
fn coverage_gives_the_box_of_each_band() {
    let coverage = Coverage {
        group_a: boxed(0, 0, 1, 1),
        group_b: boxed(0, 0, 2, 2),
        group_c: boxed(0, 0, 3, 3),
    };
    assert_eq!(coverage.of(PostcodeGroup::GroupA), boxed(0, 0, 1, 1));
    assert_eq!(coverage.of(PostcodeGroup::GroupB), boxed(0, 0, 2, 2));
    assert_eq!(coverage.of(PostcodeGroup::GroupC), boxed(0, 0, 3, 3));
}
