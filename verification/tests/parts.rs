use craftsmen::data::{Postcode, PostcodeGroup, QualityFactor, ServiceProvider, ServiceProviderView, Coverage};
use craftsmen::geo::{clamp_coord, Envelope, GeoPoint, COORD_LIMIT, HALF_TURN, QUARTER_TURN};
use craftsmen::keys::parse_key;
use craftsmen::load::{postcodes_by_code, providers_by_id, qualities_by_profile};
use craftsmen::page::paginate;
use craftsmen::rank::{blended, quality, sort_ranked, stands_before};

#[test]
fn group_names_are_read_exactly() {
    assert_eq!(PostcodeGroup::from_name("group_a"), Some(PostcodeGroup::GroupA));
    assert_eq!(PostcodeGroup::from_name("group_b"), Some(PostcodeGroup::GroupB));
    assert_eq!(PostcodeGroup::from_name("group_c"), Some(PostcodeGroup::GroupC));
    assert_eq!(PostcodeGroup::from_name("group_d"), None);
    assert_eq!(PostcodeGroup::from_name("Group_a"), None);
    assert_eq!(PostcodeGroup::from_name("group_a "), None);
    assert_eq!(PostcodeGroup::from_name(""), None);
}

#[test]
fn group_buffers_are_0_2000_5000() {
    assert_eq!(PostcodeGroup::GroupA.buffer(), 0);
    assert_eq!(PostcodeGroup::GroupB.buffer(), 2000);
    assert_eq!(PostcodeGroup::GroupC.buffer(), 5000);
}

#[test]
fn points_are_valid_within_half_and_quarter_turn() {
    assert!(GeoPoint { lon: 0, lat: 0 }.in_range());
    assert!(GeoPoint { lon: HALF_TURN, lat: QUARTER_TURN }.in_range());
    assert!(GeoPoint { lon: -HALF_TURN, lat: -QUARTER_TURN }.in_range());
    assert!(!GeoPoint { lon: HALF_TURN + 1, lat: 0 }.in_range());
    assert!(!GeoPoint { lon: 0, lat: QUARTER_TURN + 1 }.in_range());
    assert!(!GeoPoint { lon: 0, lat: -QUARTER_TURN - 1 }.in_range());
}

#[test]
fn coordinates_are_clamped_to_the_limit() {
    assert_eq!(clamp_coord(5), 5);
    assert_eq!(clamp_coord(COORD_LIMIT), COORD_LIMIT);
    assert_eq!(clamp_coord(COORD_LIMIT + 1), COORD_LIMIT);
    assert_eq!(clamp_coord(-COORD_LIMIT - 1), -COORD_LIMIT);
    assert_eq!(clamp_coord(i64::MIN), -COORD_LIMIT);
}

#[test]
fn spanning_orders_the_corners() {
    let e = Envelope::spanning(GeoPoint { lon: 5, lat: -7 }, GeoPoint { lon: -5, lat: 7 });
    assert_eq!(e.min, GeoPoint { lon: -5, lat: -7 });
    assert_eq!(e.max, GeoPoint { lon: 5, lat: 7 });
    assert!(e.contains_point(&GeoPoint { lon: -5, lat: 7 }));
    assert!(e.contains_point(&GeoPoint { lon: 0, lat: 0 }));
    assert!(!e.contains_point(&GeoPoint { lon: 6, lat: 0 }));
    assert!(!e.contains_point(&GeoPoint { lon: 0, lat: -8 }));
}

#[test]
fn merged_box_holds_both() {
    let a = Envelope { min: GeoPoint { lon: 0, lat: 0 }, max: GeoPoint { lon: 4, lat: 4 } };
    let b = Envelope { min: GeoPoint { lon: 2, lat: -3 }, max: GeoPoint { lon: 9, lat: 1 } };
    let m = a.merged(&b);
    assert_eq!(m.min, GeoPoint { lon: 0, lat: -3 });
    assert_eq!(m.max, GeoPoint { lon: 9, lat: 4 });
}

#[test]
fn quality_weighs_description_four_and_picture_six() {
    let q = QualityFactor { profile_id: 1, profile_picture_score: 500_000, profile_description_score: 250_000 };
    assert_eq!(quality(&q), 4_000_000);
    let full = QualityFactor { profile_id: 1, profile_picture_score: 1_000_000, profile_description_score: 1_000_000 };
    assert_eq!(quality(&full), 10_000_000);
    let top = QualityFactor { profile_id: 1, profile_picture_score: u32::MAX, profile_description_score: u32::MAX };
    assert_eq!(quality(&top), 10 * u32::MAX as i128);
}

#[test]
fn blended_score_is_exact_at_the_edges() {
    let q = QualityFactor { profile_id: 1, profile_picture_score: 500_000, profile_description_score: 250_000 };
    assert_eq!(blended(&q, 0), 15 * 80_000_000 + 680 * 4_000_000);
    assert_eq!(blended(&q, 80_000_000), 680 * 4_000_000);
    assert_eq!(blended(&q, 80_000_001), -1 + 792 * 4_000_000);
    assert_eq!(blended(&q, u64::MAX), 80_000_000 - u64::MAX as i128 + 792 * 4_000_000);
    let none = QualityFactor { profile_id: 1, profile_picture_score: 0, profile_description_score: 0 };
    assert_eq!(blended(&none, 40_000_000), 15 * 40_000_000);
}

fn line(id: u32, score: i128) -> ServiceProviderView {
    ServiceProviderView { id, name: format!("n{}", id), ranking_score: score }
}

fn order(lines: &[ServiceProviderView]) -> Vec<(u32, i128)> {
    lines.iter().map(|l| (l.id, l.ranking_score)).collect()
}

#[test]
fn sorting_rises_or_falls_with_ties_by_id() {
    let lines = vec![line(5, 10), line(1, 30), line(4, 10), line(2, -7), line(3, 30)];
    let up = sort_ranked(lines.clone(), false);
    assert_eq!(order(&up), vec![(2, -7), (4, 10), (5, 10), (1, 30), (3, 30)]);
    let down = sort_ranked(lines, true);
    assert_eq!(order(&down), vec![(1, 30), (3, 30), (4, 10), (5, 10), (2, -7)]);
    assert_eq!(down[0].name, "n1");
    assert_eq!(sort_ranked(vec![], true).len(), 0);
    assert_eq!(order(&sort_ranked(vec![line(1, 1)], true)), vec![(1, 1)]);
}

#[test]
fn sorting_a_long_list_keeps_every_line() {
    let mut lines = Vec::new();
    for k in 0..1000u32 {
        lines.push(line(k, ((k as i128 * 7919) % 101) - 50));
    }
    let sorted = sort_ranked(lines.clone(), true);
    assert_eq!(sorted.len(), 1000);
    for pair in sorted.windows(2) {
        assert!(stands_before(&pair[0], &pair[1], true));
        assert!(pair[0].ranking_score >= pair[1].ranking_score);
    }
    let mut seen: Vec<u32> = sorted.iter().map(|l| l.id).collect();
    seen.sort();
    assert_eq!(seen, (0..1000u32).collect::<Vec<u32>>());
    let mut expected = lines;
    expected.sort_by(|a, b| b.ranking_score.cmp(&a.ranking_score).then(a.id.cmp(&b.id)));
    assert_eq!(order(&sorted), order(&expected));
}

#[test]
fn pages_hold_twenty_lines() {
    let list: Vec<u32> = (0..45).collect();
    let first = paginate(list.clone(), 0);
    assert_eq!(first.results, (0..20).collect::<Vec<u32>>());
    assert!(first.has_more);
    assert_eq!(first.total_count, 45);
    let second = paginate(list.clone(), 1);
    assert_eq!(second.results, (20..40).collect::<Vec<u32>>());
    assert!(second.has_more);
    let third = paginate(list.clone(), 2);
    assert_eq!(third.results, (40..45).collect::<Vec<u32>>());
    assert!(!third.has_more);
    assert_eq!(third.total_count, 45);
}

#[test]
fn page_beyond_the_end_is_empty() {
    let list: Vec<u32> = (0..45).collect();
    for page in [3u32, 4, 1000, u32::MAX] {
        let out = paginate(list.clone(), page);
        assert!(out.results.is_empty());
        assert!(!out.has_more);
        assert_eq!(out.total_count, 45);
    }
    let none = paginate(Vec::<u32>::new(), 0);
    assert!(none.results.is_empty());
    assert!(!none.has_more);
    assert_eq!(none.total_count, 0);
}

#[test]
fn full_last_page_has_nothing_after_it() {
    let list: Vec<u32> = (0..40).collect();
    assert!(paginate(list.clone(), 0).has_more);
    let last = paginate(list.clone(), 1);
    assert_eq!(last.results.len(), 20);
    assert!(!last.has_more);
    assert!(paginate(list, 2).results.is_empty());
}

#[test]
fn pages_put_together_give_the_list_back() {
    for len in [0u32, 1, 19, 20, 21, 39, 40, 41, 100] {
        let list: Vec<u32> = (0..len).collect();
        let mut seen = Vec::new();
        let mut page = 0;
        loop {
            let out = paginate(list.clone(), page);
            seen.extend(out.results);
            if !out.has_more {
                break;
            }
            page += 1;
        }
        assert_eq!(seen, list);
        assert_eq!(page, if len == 0 { 0 } else { (len - 1) / 20 });
    }
}

fn code(postcode: u32, lon: i64) -> Postcode {
    Postcode { postcode, lon, lat: 0, postcode_extension_distance_group: PostcodeGroup::GroupB }
}

#[test]
fn tables_file_records_under_their_keys() {
    let codes = postcodes_by_code(&vec![code(80331, 1), code(85748, 2), code(80331, 3)]);
    assert_eq!(codes.len(), 2);
    assert_eq!(codes[&80331].lon, 3);
    assert_eq!(codes[&85748].lon, 2);
    let q = |id, p| QualityFactor { profile_id: id, profile_picture_score: p, profile_description_score: 0 };
    let qualities = qualities_by_profile(&vec![q(1, 10), q(2, 20), q(1, 30)]);
    assert_eq!(qualities.len(), 2);
    assert_eq!(qualities[&1].profile_picture_score, 30);
    let e = Envelope { min: GeoPoint { lon: 0, lat: 0 }, max: GeoPoint { lon: 0, lat: 0 } };
    let p = |id: u32, city: &str| ServiceProvider {
        id,
        first_name: "a".to_string(),
        last_name: "b".to_string(),
        city: city.to_string(),
        street: String::new(),
        house_number: String::new(),
        lon: 0,
        lat: 0,
        max_driving_distance: 1,
        coverage: Coverage { group_a: e, group_b: e, group_c: e },
    };
    let providers = providers_by_id(&vec![p(1, "x"), p(2, "y"), p(1, "z")]);
    assert_eq!(providers.len(), 2);
    assert_eq!(providers[&1].city, "z");
    assert_eq!(providers[&2].name(), "ab");
    assert!(postcodes_by_code(&vec![]).is_empty());
}

#[test]
fn keys_are_read_from_decimal_digits() {
    assert_eq!(parse_key("80331"), Some(80331));
    assert_eq!(parse_key("0"), Some(0));
    assert_eq!(parse_key("00012"), Some(12));
    assert_eq!(parse_key("+7"), Some(7));
    assert_eq!(parse_key("4294967295"), Some(u32::MAX));
    assert_eq!(parse_key("0000000000000000000000000004294967295"), Some(u32::MAX));
}

#[test]
fn other_text_is_no_key() {
    for text in [
        "", "+", "-1", "-0", "++1", "1+", "12a", "a12", " 12", "12 ", "1 2", "1.0", "1e3", "0x10",
        "4294967296", "4294967300", "99999999999", "18446744073709551616", "１２", "12é", "é",
    ] {
        assert_eq!(parse_key(text), None, "{:?}", text);
    }
}

#[test]
fn keys_agree_with_the_standard_parser() {
    let samples = [
        "1", "9", "10", "099", "+0", "+4294967295", "+4294967296", "429496729", "4294967290",
        "4294967299", "42949672950", "abc", "+", "", "7\n", "\t7", "٣", "12345678901234567890",
    ];
    for text in samples {
        assert_eq!(parse_key(text), text.parse::<u32>().ok(), "{:?}", text);
    }
    for n in (0..=u32::MAX).step_by(9_973_331) {
        assert_eq!(parse_key(&n.to_string()), Some(n));
    }
}
