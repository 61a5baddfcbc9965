use std::collections::HashMap;

use craftsmen::data::{Coverage, Postcode, PostcodeGroup, QualityFactor, ServiceProvider};
use craftsmen::engine::{EngineError, ProviderMap, Reach, SortMode, UpdatedFields};
use craftsmen::geo::{Envelope, GeoPoint};

const EARTH_RADIUS: f64 = 6_371_000.0;
const UNITS: f64 = 100_000_000.0;

fn to_units(radians: f64) -> i64 {
    (radians * UNITS).round() as i64
}

fn to_radians(units: i64) -> f64 {
    units as f64 / UNITS
}

fn great_circle(a: GeoPoint, b: GeoPoint) -> f64 {
    let (a_lon, a_lat) = (to_radians(a.lon), to_radians(a.lat));
    let (b_lon, b_lat) = (to_radians(b.lon), to_radians(b.lat));
    let sin_prod = a_lat.sin() * b_lat.sin();
    let cos_prod = a_lat.cos() * b_lat.cos() * (a_lon - b_lon).cos();
    (sin_prod + cos_prod).clamp(-1.0, 1.0).acos() * EARTH_RADIUS
}

fn millimetres(metres: f64) -> u64 {
    (metres * 1000.0).round() as u64
}

fn envelope(lon: i64, lat: i64, radius: u64) -> Envelope {
    let angular = radius as f64 / EARTH_RADIUS;
    let ratio = (angular.sin() / to_radians(lat).cos()).clamp(-1.0, 1.0);
    let delta_lon = ratio.asin();
    let d_lon = (delta_lon * UNITS).ceil() as i64;
    let d_lat = (angular * UNITS).ceil() as i64;
    Envelope {
        min: GeoPoint { lon: lon - d_lon, lat: lat - d_lat },
        max: GeoPoint { lon: lon + d_lon, lat: lat + d_lat },
    }
}

fn coverage(lon: i64, lat: i64, base: u64) -> Coverage {
    Coverage {
        group_a: envelope(lon, lat, base),
        group_b: envelope(lon, lat, base + 2000),
        group_c: envelope(lon, lat, base + 5000),
    }
}

fn provider(id: u32, first: &str, last: &str, lon_deg: f64, lat_deg: f64, max: u64) -> ServiceProvider {
    let lon = to_units(lon_deg.to_radians());
    let lat = to_units(lat_deg.to_radians());
    ServiceProvider {
        id,
        first_name: first.to_string(),
        last_name: last.to_string(),
        city: "Garching".to_string(),
        street: "Hauptstrasse".to_string(),
        house_number: "1".to_string(),
        lon,
        lat,
        max_driving_distance: max,
        coverage: coverage(lon, lat, max),
    }
}

fn code_at(code: u32, lon: i64, lat: i64, group: PostcodeGroup) -> Postcode {
    Postcode { postcode: code, lon, lat, postcode_extension_distance_group: group }
}

/// A postal code `metres` due north of the point (11.6, 48.3) degrees.
fn code_north(code: u32, metres: f64, group: PostcodeGroup) -> Postcode {
    let lon = to_units(11.6_f64.to_radians());
    let lat = to_units(48.3_f64.to_radians() + metres / EARTH_RADIUS);
    code_at(code, lon, lat, group)
}

fn quality(id: u32, picture: u32, description: u32) -> QualityFactor {
    QualityFactor { profile_id: id, profile_picture_score: picture, profile_description_score: description }
}

fn engine(codes: Vec<Postcode>, qualities: Vec<QualityFactor>, providers: Vec<ServiceProvider>) -> ProviderMap {
    ProviderMap::new(
        codes.into_iter().map(|c| (c.postcode, c)).collect(),
        qualities.into_iter().map(|q| (q.profile_id, q)).collect(),
        providers.into_iter().map(|p| (p.id, p)).collect(),
    )
}

/// Measures every candidate of a postal code, as the caller of the engine does.
fn measure(map: &ProviderMap, code: u32) -> HashMap<u32, u64> {
    let mut distances = HashMap::new();
    if let (Some(target), Some(candidates)) = (map.postcode(code), map.candidates(code)) {
        for c in candidates {
            distances.insert(c.id, millimetres(great_circle(c.pos, target.point())));
        }
    }
    distances
}

fn ids(map: &ProviderMap, code: u32) -> Vec<u32> {
    let distances = measure(map, code);
    let mut found: Vec<u32> =
        map.providers_in_range(code, &distances).unwrap().iter().map(|e| e.id).collect();
    found.sort();
    found
}

#[test]
fn provider_at_the_postal_code_has_distance_zero() {
    let map = engine(
        vec![code_north(1, 0.0, PostcodeGroup::GroupA)],
        vec![quality(7, 500_000, 250_000)],
        vec![provider(7, "Pia", "Maurer", 11.6, 48.3, 5000)],
    );
    let distances = measure(&map, 1);
    let ranked = map.ranked_by_distance(1, &distances).unwrap();
    assert_eq!(ranked.len(), 1);
    assert_eq!(ranked[0].id, 7);
    assert_eq!(ranked[0].name, "PiaMaurer");
    assert_eq!(ranked[0].ranking_score, 0);
}

#[test]
fn provider_at_the_postal_code_has_full_closeness() {
    let map = engine(
        vec![code_north(1, 0.0, PostcodeGroup::GroupA)],
        vec![quality(7, 500_000, 250_000)],
        vec![provider(7, "Pia", "Maurer", 11.6, 48.3, 5000)],
    );
    let distances = measure(&map, 1);
    let ranked = map.ranked_by_score(1, &distances).unwrap();
    assert_eq!(ranked.len(), 1);
    // 0.15 * 1 + 0.85 * (0.4 * 0.25 + 0.6 * 0.5) = 0.49, in units of 1/8e9.
    assert_eq!(ranked[0].ranking_score, 3_920_000_000);
    let score = ranked[0].ranking_score as f64 / 8_000_000_000.0;
    assert!((score - (0.15 + 0.85 * 0.4)).abs() < 1e-12);
}

#[test]
fn tier_buffer_decides_membership() {
    let mut codes = Vec::new();
    let groups = [PostcodeGroup::GroupA, PostcodeGroup::GroupB, PostcodeGroup::GroupC];
    let metres = [8_000.0, 10_000.0, 12_000.0, 15_000.0];
    for (m, d) in metres.iter().enumerate() {
        for (g, group) in groups.iter().enumerate() {
            codes.push(code_north((10 * m + g) as u32, *d, *group));
        }
    }
    let map = engine(codes, vec![], vec![provider(7, "Pia", "Maurer", 11.6, 48.3, 9000)]);
    // 8000 m: within 9000, 11000 and 14000.
    assert_eq!(ids(&map, 0), vec![7]);
    assert_eq!(ids(&map, 1), vec![7]);
    assert_eq!(ids(&map, 2), vec![7]);
    // 10000 m: beyond 9000, within 11000 and 14000.
    assert_eq!(ids(&map, 10), Vec::<u32>::new());
    assert_eq!(ids(&map, 11), vec![7]);
    assert_eq!(ids(&map, 12), vec![7]);
    // 12000 m: only within 14000.
    assert_eq!(ids(&map, 20), Vec::<u32>::new());
    assert_eq!(ids(&map, 21), Vec::<u32>::new());
    assert_eq!(ids(&map, 22), vec![7]);
    // 15000 m: beyond every tier.
    assert_eq!(ids(&map, 30), Vec::<u32>::new());
    assert_eq!(ids(&map, 31), Vec::<u32>::new());
    assert_eq!(ids(&map, 32), Vec::<u32>::new());
}

#[test]
fn buffers_are_added_to_the_base_distance() {
    let map = engine(
        vec![
            code_north(1, 0.0, PostcodeGroup::GroupA),
            code_north(2, 0.0, PostcodeGroup::GroupB),
            code_north(3, 0.0, PostcodeGroup::GroupC),
        ],
        vec![],
        vec![provider(7, "Pia", "Maurer", 11.6, 48.3, 9000)],
    );
    assert_eq!(map.candidates(1).unwrap()[0].max_driving_distance, 9_000);
    assert_eq!(map.candidates(2).unwrap()[0].max_driving_distance, 11_000);
    assert_eq!(map.candidates(3).unwrap()[0].max_driving_distance, 14_000);
}

#[test]
fn added_provider_gets_the_same_buffers() {
    let mut map = engine(
        vec![
            code_north(1, 0.0, PostcodeGroup::GroupA),
            code_north(2, 0.0, PostcodeGroup::GroupB),
            code_north(3, 0.0, PostcodeGroup::GroupC),
        ],
        vec![],
        vec![],
    );
    assert_eq!(map.candidates(1).unwrap().len(), 0);
    map.add_service_provider(&provider(7, "Pia", "Maurer", 11.6, 48.3, 9000));
    assert_eq!(map.candidates(1).unwrap()[0].max_driving_distance, 9_000);
    assert_eq!(map.candidates(2).unwrap()[0].max_driving_distance, 11_000);
    assert_eq!(map.candidates(3).unwrap()[0].max_driving_distance, 14_000);
    assert_eq!(map.service_provider_by_id(7).unwrap().last_name, "Maurer");
    assert!(map.service_provider_by_id(8).is_none());
}

#[test]
fn adding_a_provider_twice_keeps_one_entry() {
    let mut map = engine(vec![code_north(1, 0.0, PostcodeGroup::GroupA)], vec![], vec![]);
    map.add_service_provider(&provider(7, "Pia", "Maurer", 11.6, 48.3, 9000));
    map.add_service_provider(&provider(7, "Pia", "Maurer", 11.6, 48.3, 9000));
    assert_eq!(map.candidates(1).unwrap().len(), 1);
}

#[test]
fn update_of_the_distance_reaches_the_index() {
    let mut map = engine(
        vec![code_north(1, 15_000.0, PostcodeGroup::GroupA)],
        vec![quality(7, 500_000, 250_000)],
        vec![provider(7, "Pia", "Maurer", 11.6, 48.3, 9000)],
    );
    assert_eq!(ids(&map, 1), Vec::<u32>::new());
    let p = map.service_provider_by_id(7).unwrap();
    let reach = Reach { max_driving_distance: 20_000, coverage: coverage(p.lon, p.lat, 20_000) };
    let updated = map.update_service_provider(7, Some(reach), None, None);
    assert_eq!(
        updated,
        Ok(UpdatedFields {
            max_driving_distance: 20_000,
            profile_picture_score: 500_000,
            profile_description_score: 250_000,
        })
    );
    assert_eq!(ids(&map, 1), vec![7]);
    assert_eq!(map.service_provider_by_id(7).unwrap().max_driving_distance, 20_000);
    // And back again: a smaller distance leaves the postal code out.
    let small = Reach { max_driving_distance: 9_000, coverage: coverage(p.lon, p.lat, 9_000) };
    assert!(map.update_service_provider(7, Some(small), None, None).is_ok());
    assert_eq!(ids(&map, 1), Vec::<u32>::new());
}

#[test]
fn update_without_fields_changes_nothing() {
    let mut map = engine(
        vec![code_north(1, 0.0, PostcodeGroup::GroupA)],
        vec![quality(7, 500_000, 250_000)],
        vec![provider(7, "Pia", "Maurer", 11.6, 48.3, 9000)],
    );
    let before = map.service_provider_by_id(7).unwrap();
    let result = map.update_service_provider(7, None, None, None);
    assert_eq!(
        result,
        Ok(UpdatedFields {
            max_driving_distance: 9_000,
            profile_picture_score: 500_000,
            profile_description_score: 250_000,
        })
    );
    let after = map.service_provider_by_id(7).unwrap();
    assert_eq!(after.max_driving_distance, before.max_driving_distance);
    assert_eq!(after.coverage, before.coverage);
    assert_eq!(map.quality_by_id(7), Some(quality(7, 500_000, 250_000)));
    assert_eq!(ids(&map, 1), vec![7]);
}

#[test]
fn update_of_one_score_keeps_the_other() {
    let mut map = engine(
        vec![],
        vec![quality(7, 500_000, 250_000)],
        vec![provider(7, "Pia", "Maurer", 11.6, 48.3, 9000)],
    );
    let result = map.update_service_provider(7, None, Some(900_000), None);
    assert_eq!(
        result,
        Ok(UpdatedFields {
            max_driving_distance: 9_000,
            profile_picture_score: 900_000,
            profile_description_score: 250_000,
        })
    );
    assert_eq!(map.quality_by_id(7), Some(quality(7, 900_000, 250_000)));
    let result = map.update_service_provider(7, None, None, Some(10));
    assert_eq!(result.unwrap().profile_description_score, 10);
    assert_eq!(map.quality_by_id(7), Some(quality(7, 900_000, 10)));
}

#[test]
fn update_of_an_unknown_provider_is_not_found() {
    let mut map = engine(vec![], vec![quality(8, 1, 1)], vec![]);
    assert_eq!(map.update_service_provider(8, None, Some(5), None), Err(EngineError::NotFound));
    assert_eq!(map.quality_by_id(8), Some(quality(8, 1, 1)));
}

#[test]
fn update_without_quality_factor_is_reported() {
    let mut map = engine(vec![], vec![], vec![provider(7, "Pia", "Maurer", 11.6, 48.3, 9000)]);
    let reach = Reach { max_driving_distance: 1, coverage: coverage(0, 0, 1) };
    assert_eq!(
        map.update_service_provider(7, Some(reach), Some(5), None),
        Err(EngineError::MissingQualityFactor)
    );
    assert_eq!(map.service_provider_by_id(7).unwrap().max_driving_distance, 9_000);
    assert_eq!(map.quality_by_id(7), None);
}

#[test]
fn unknown_postal_code_gives_nothing() {
    let map = engine(vec![], vec![], vec![provider(7, "Pia", "Maurer", 11.6, 48.3, 9000)]);
    let distances = HashMap::new();
    assert!(map.candidates(99).is_none());
    assert!(map.providers_in_range(99, &distances).is_none());
    assert!(map.ranked_by_score(99, &distances).is_none());
    assert!(map.ranked_by_distance(99, &distances).is_none());
    assert!(map.ranked_by_profile(99, &distances).is_none());
    assert!(map.unrated_in_range(99, &distances).is_none());
    assert!(map.search(99, &distances).is_empty());
    let page = map.search_detailed(99, SortMode::Score, 0, &distances);
    assert!(page.results.is_empty());
    assert!(!page.has_more);
    assert_eq!(page.total_count, 0);
}

#[test]
fn candidate_without_measurement_is_out_of_range() {
    let map = engine(
        vec![code_north(1, 0.0, PostcodeGroup::GroupA)],
        vec![],
        vec![provider(7, "Pia", "Maurer", 11.6, 48.3, 9000)],
    );
    assert_eq!(map.candidates(1).unwrap().len(), 1);
    assert_eq!(map.providers_in_range(1, &HashMap::new()).unwrap().len(), 0);
}

#[test]
fn reach_ends_at_the_exact_millimetre() {
    let map = engine(
        vec![code_north(2, 0.0, PostcodeGroup::GroupB)],
        vec![],
        vec![provider(7, "Pia", "Maurer", 11.6, 48.3, 9000)],
    );
    let mut distances = HashMap::new();
    distances.insert(7, 11_000_000);
    assert_eq!(map.providers_in_range(2, &distances).unwrap().len(), 1);
    distances.insert(7, 11_000_001);
    assert_eq!(map.providers_in_range(2, &distances).unwrap().len(), 0);
    distances.insert(7, 10_999_999);
    assert_eq!(map.providers_in_range(2, &distances).unwrap().len(), 1);
}

#[test]
fn zero_distance_provider_serves_only_its_own_point() {
    let p = provider(7, "Pia", "Maurer", 11.6, 48.3, 0);
    let map = engine(
        vec![
            code_at(1, p.lon, p.lat, PostcodeGroup::GroupA),
            code_at(2, p.lon + 1, p.lat, PostcodeGroup::GroupA),
            code_at(3, p.lon, p.lat - 1, PostcodeGroup::GroupA),
        ],
        vec![],
        vec![p],
    );
    assert_eq!(ids(&map, 1), vec![7]);
    assert_eq!(map.candidates(2).unwrap().len(), 0);
    assert_eq!(map.candidates(3).unwrap().len(), 0);
    assert_eq!(ids(&map, 2), Vec::<u32>::new());
}

fn three_providers() -> ProviderMap {
    engine(
        vec![code_north(1, 0.0, PostcodeGroup::GroupC)],
        vec![quality(1, 200_000, 200_000), quality(2, 900_000, 900_000), quality(3, 200_000, 200_000)],
        vec![
            provider(1, "A", "a", 11.6, 48.3, 50_000),
            provider(2, "B", "b", 11.6, 48.3, 50_000),
            provider(3, "C", "c", 11.6, 48.3, 50_000),
            provider(4, "D", "d", 11.6, 48.3, 50_000),
        ],
    )
}

fn fixed_distances() -> HashMap<u32, u64> {
    let mut distances = HashMap::new();
    distances.insert(1, 3_000_000);
    distances.insert(2, 40_000_000);
    distances.insert(3, 3_000_000);
    distances.insert(4, 1_000);
    distances
}

#[test]
fn ranking_by_distance_rises_and_breaks_ties_by_id() {
    let map = three_providers();
    let ranked = map.ranked_by_distance(1, &fixed_distances()).unwrap();
    let order: Vec<(u32, i128)> = ranked.iter().map(|l| (l.id, l.ranking_score)).collect();
    assert_eq!(order, vec![(4, 1_000), (1, 3_000_000), (3, 3_000_000), (2, 40_000_000)]);
}

#[test]
fn ranking_by_profile_falls_and_leaves_out_the_unrated() {
    let map = three_providers();
    let ranked = map.ranked_by_profile(1, &fixed_distances()).unwrap();
    let order: Vec<(u32, i128)> = ranked.iter().map(|l| (l.id, l.ranking_score)).collect();
    assert_eq!(order, vec![(2, 9_000_000), (1, 2_000_000), (3, 2_000_000)]);
    assert_eq!(map.unrated_in_range(1, &fixed_distances()), Some(vec![4]));
}

#[test]
fn ranking_by_score_blends_closeness_and_quality() {
    let map = three_providers();
    let ranked = map.ranked_by_score(1, &fixed_distances()).unwrap();
    let order: Vec<(u32, i128)> = ranked.iter().map(|l| (l.id, l.ranking_score)).collect();
    // 15 * (80e6 - d) + 680 * (4 * description + 6 * picture)
    let near = 15 * (80_000_000 - 3_000_000) + 680 * 2_000_000;
    let far = 15 * (80_000_000 - 40_000_000) + 680 * 9_000_000;
    assert_eq!(order, vec![(2, far), (1, near), (3, near)]);
    for pair in ranked.windows(2) {
        assert!(pair[0].ranking_score >= pair[1].ranking_score);
    }
}

#[test]
fn closeness_weighs_less_beyond_the_blend_range() {
    let map = engine(
        vec![code_north(1, 0.0, PostcodeGroup::GroupC)],
        vec![quality(1, 1_000_000, 1_000_000)],
        vec![provider(1, "A", "a", 11.6, 48.3, 100_000)],
    );
    let mut distances = HashMap::new();
    distances.insert(1, 80_000_000);
    let at = map.ranked_by_score(1, &distances).unwrap();
    assert_eq!(at[0].ranking_score, 680 * 10_000_000);
    distances.insert(1, 80_000_001);
    let beyond = map.ranked_by_score(1, &distances).unwrap();
    assert_eq!(beyond[0].ranking_score, -1 + 792 * 10_000_000);
    distances.insert(1, 100_000_000);
    let far = map.ranked_by_score(1, &distances).unwrap();
    // 0.01 * (1 - 100/80) + 0.99 * 1 = 0.9875
    assert_eq!(far[0].ranking_score as f64 / 8_000_000_000.0, 0.9875);
}

#[test]
fn search_gives_the_first_twenty_by_score() {
    let mut providers = Vec::new();
    let mut qualities = Vec::new();
    for id in 0..45u32 {
        providers.push(provider(id, "P", "x", 11.6, 48.3, 9000));
        qualities.push(quality(id, id * 1000, 0));
    }
    let map = engine(vec![code_north(1, 0.0, PostcodeGroup::GroupA)], qualities, providers);
    let distances = measure(&map, 1);
    let top = map.search(1, &distances);
    let order: Vec<u32> = top.iter().map(|l| l.id).collect();
    assert_eq!(order, (25..45u32).rev().collect::<Vec<u32>>());
}

#[test]
fn detailed_search_pages_through_the_ranking() {
    let mut providers = Vec::new();
    let mut qualities = Vec::new();
    for id in 0..45u32 {
        providers.push(provider(id, "P", "x", 11.6, 48.3, 9000));
        qualities.push(quality(id, id * 1000, 0));
    }
    let map = engine(vec![code_north(1, 0.0, PostcodeGroup::GroupA)], qualities, providers);
    let distances = measure(&map, 1);
    let full: Vec<u32> =
        map.ranked_by_profile(1, &distances).unwrap().iter().map(|l| l.id).collect();
    let mut seen = Vec::new();
    for page in 0..4u32 {
        let out = map.search_detailed(1, SortMode::Profile, page, &distances);
        assert_eq!(out.total_count, 45);
        assert_eq!(out.has_more, page < 2);
        assert_eq!(out.results.len(), [20, 20, 5, 0][page as usize]);
        seen.extend(out.results.iter().map(|p| p.id));
    }
    assert_eq!(seen, full);
    let by_distance = map.search_detailed(1, SortMode::Distance, 0, &distances);
    let order: Vec<u32> = by_distance.results.iter().map(|p| p.id).collect();
    assert_eq!(order, (0..20u32).collect::<Vec<u32>>());
}

#[test]
fn sort_mode_is_read_from_the_query() {
    assert_eq!(SortMode::from_query(Some("distance")), SortMode::Distance);
    assert_eq!(SortMode::from_query(Some("profile")), SortMode::Profile);
    assert_eq!(SortMode::from_query(Some("score")), SortMode::Score);
    assert_eq!(SortMode::from_query(Some("Distance")), SortMode::Score);
    assert_eq!(SortMode::from_query(Some("")), SortMode::Score);
    assert_eq!(SortMode::from_query(None), SortMode::Score);
}

#[test]
fn index_agrees_with_a_scan_of_all_providers() {
    let mut providers = Vec::new();
    for id in 0..300u32 {
        let lon = 9.0 + (id % 20) as f64 * 0.05;
        let lat = 47.5 + (id / 20) as f64 * 0.04;
        providers.push(provider(id, "P", "x", lon, lat, 2_000 + (id as u64 % 7) * 3_000));
    }
    let late: Vec<ServiceProvider> = providers.split_off(200);
    let mut codes = Vec::new();
    for c in 0..40u32 {
        let lon = to_units((9.02 + (c % 8) as f64 * 0.12).to_radians());
        let lat = to_units((47.52 + (c / 8) as f64 * 0.1).to_radians());
        let group = [PostcodeGroup::GroupA, PostcodeGroup::GroupB, PostcodeGroup::GroupC][(c % 3) as usize];
        codes.push(code_at(c, lon, lat, group));
    }
    let mut map = engine(codes.clone(), vec![], providers.clone());
    for p in &late {
        map.add_service_provider(p);
    }
    providers.extend(late);
    let mut hits = 0;
    for code in &codes {
        let buffer = code.postcode_extension_distance_group.buffer();
        let mut expected: Vec<u32> = providers
            .iter()
            .filter(|p| {
                millimetres(great_circle(p.point(), code.point()))
                    <= (p.max_driving_distance + buffer) * 1000
            })
            .map(|p| p.id)
            .collect();
        expected.sort();
        hits += expected.len();
        assert_eq!(ids(&map, code.postcode), expected);
    }
    assert!(hits > 50);
}

#[test]
fn wider_band_finds_whatever_a_narrower_band_finds() {
    let mut providers = Vec::new();
    for id in 0..120u32 {
        let lon = 11.0 + (id % 12) as f64 * 0.03;
        let lat = 48.0 + (id / 12) as f64 * 0.02;
        providers.push(provider(id, "P", "x", lon, lat, 1_000 + (id as u64 % 5) * 2_500));
    }
    let mut codes = Vec::new();
    for c in 0..30u32 {
        let lon = to_units((11.01 + (c % 6) as f64 * 0.06).to_radians());
        let lat = to_units((48.01 + (c / 6) as f64 * 0.04).to_radians());
        codes.push(code_at(3 * c, lon, lat, PostcodeGroup::GroupA));
        codes.push(code_at(3 * c + 1, lon, lat, PostcodeGroup::GroupB));
        codes.push(code_at(3 * c + 2, lon, lat, PostcodeGroup::GroupC));
    }
    let map = engine(codes, vec![], providers);
    let mut grew = 0;
    for c in 0..30u32 {
        let (a, b, wide) = (ids(&map, 3 * c), ids(&map, 3 * c + 1), ids(&map, 3 * c + 2));
        assert!(a.iter().all(|id| b.contains(id)));
        assert!(b.iter().all(|id| wide.contains(id)));
        let boxes_a: Vec<u32> = map.candidates(3 * c).unwrap().iter().map(|e| e.id).collect();
        let boxes_c: Vec<u32> = map.candidates(3 * c + 2).unwrap().iter().map(|e| e.id).collect();
        assert!(boxes_a.iter().all(|id| boxes_c.contains(id)));
        grew += wide.len() - a.len();
    }
    assert!(grew > 0);
}

#[test]
fn scores_are_scaled_by_the_units_of_their_ranking() {
    assert_eq!(SortMode::Distance.score_units(), 1_000);
    assert_eq!(SortMode::Profile.score_units(), 10_000_000);
    assert_eq!(SortMode::Score.score_units(), 8_000_000_000);
}

#[test]
fn measurement_decides_whatever_the_box_says() {
    let mut far_box = provider(7, "Pia", "Maurer", 11.6, 48.3, 9000);
    far_box.coverage = coverage(0, 0, 9000);
    let map = engine(vec![code_north(1, 1_000.0, PostcodeGroup::GroupA)], vec![], vec![far_box]);
    assert_eq!(map.candidates(1).unwrap().len(), 0);
    let mut distances = HashMap::new();
    distances.insert(7, 1_000_000);
    assert_eq!(map.providers_in_range(1, &distances).unwrap().len(), 1);
    distances.insert(7, 9_000_001);
    assert_eq!(map.providers_in_range(1, &distances).unwrap().len(), 0);
    distances.insert(8, 5);
    assert_eq!(map.providers_in_range(1, &distances).unwrap().len(), 0);
}
