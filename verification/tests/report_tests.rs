use shellshock_trainer::math::Hit;
use shellshock_trainer::report::{format_hits, into_angle_categories};

#[test]
fn categories_group_by_ten_degree_band() {
    let hits = vec![
        Hit::new(10, 25),
        Hit::new(20, 12),
        Hit::new(30, 25),
        Hit::new(40, -15),
        Hit::new(50, 8),
        Hit::new(60, -5),
    ];
    let groups = into_angle_categories(&hits);
    // bands floor toward negative infinity: -15 falls in -20, -5 in -10
    assert_eq!(groups.len(), 5);
    assert_eq!(groups[0].0, -20);
    assert_eq!(groups[0].1, vec![Hit::new(40, -15)]);
    assert_eq!(groups[1].0, -10);
    assert_eq!(groups[1].1, vec![Hit::new(60, -5)]);
    assert_eq!(groups[2].0, 0);
    assert_eq!(groups[2].1, vec![Hit::new(50, 8)]);
    assert_eq!(groups[3].0, 10);
    assert_eq!(groups[3].1, vec![Hit::new(20, 12)]);
    assert_eq!(groups[4].0, 20);
    assert_eq!(groups[4].1, vec![Hit::new(10, 25), Hit::new(30, 25)]);
}

#[test]
fn categories_never_drop_or_duplicate() {
    let hits = vec![
        Hit::new(1, 90),
        Hit::new(2, -90),
        Hit::new(3, 0),
        Hit::new(4, 90),
        Hit::new(5, 9),
        Hit::new(6, 10),
    ];
    let groups = into_angle_categories(&hits);
    let mut regrouped: Vec<Hit> = Vec::new();
    for (band, members) in &groups {
        assert_eq!(band % 10, 0);
        for h in members {
            regrouped.push(*h);
        }
    }
    assert_eq!(regrouped.len(), hits.len());
    for h in &hits {
        let expected = hits.iter().filter(|o| *o == h).count();
        let found = regrouped.iter().filter(|o| *o == h).count();
        assert_eq!(found, expected);
    }
}

#[test]
fn categories_bands_come_out_ascending() {
    let hits = vec![
        Hit::new(1, 45),
        Hit::new(2, -30),
        Hit::new(3, 70),
        Hit::new(4, 5),
        Hit::new(5, -89),
    ];
    let groups = into_angle_categories(&hits);
    for w in groups.windows(2) {
        assert!(w[0].0 < w[1].0);
    }
}

#[test]
fn categories_of_nothing_are_empty() {
    let hits: Vec<Hit> = Vec::new();
    let groups = into_angle_categories(&hits);
    assert!(groups.is_empty());
}

#[test]
fn listing_shows_pairs_space_separated() {
    let hits = vec![Hit::new(5, 20), Hit::new(1, 10), Hit::new(10, -16)];
    assert_eq!(format_hits(&hits), "(5,20) (1,10) (10,-16)");
}

#[test]
fn listing_is_capped_at_five_entries() {
    let hits: Vec<Hit> = (1..=7).map(|v| Hit::new(v, v as i32)).collect();
    assert_eq!(format_hits(&hits), "(1,1) (2,2) (3,3) (4,4) (5,5)");
}

#[test]
fn listing_of_nothing_is_empty() {
    let hits: Vec<Hit> = Vec::new();
    assert_eq!(format_hits(&hits), "");
}
