use shellshock_trainer::math::{
    calc_launch_angles, calc_launch_velocities, get_fraction, round_to_unit,
    translate_target_position_relativ_to_origin, Hit,
};
use shellshock_trainer::platform::{Cursor, Rect};

#[test]
fn normalizer_reference_resolution_exact() {
    // at the reference resolution both scale factors are one
    let rect = Rect::new(1768, 992);
    let from = Cursor::new(100, 500);
    let to = Cursor::new(200, 400);
    let (x, y) = translate_target_position_relativ_to_origin(&rect, &from, &to);
    assert_eq!(x, 100_000_000);
    assert_eq!(y, 100_000_000);
}

#[test]
fn normalizer_half_resolution_scales_up() {
    let rect = Rect::new(884, 496);
    let from = Cursor::new(50, 248);
    let to = Cursor::new(100, 148);
    let (x, y) = translate_target_position_relativ_to_origin(&rect, &from, &to);
    assert_eq!(x, 100_000_000);
    assert_eq!(y, 200_000_000);
}

#[test]
fn normalizer_truncates_toward_zero() {
    let rect = Rect::new(3, 3);
    let from = Cursor::new(1, 0);
    let to = Cursor::new(0, 0);
    let (x, y) = translate_target_position_relativ_to_origin(&rect, &from, &to);
    // 1 * 1768_000_000 / 3, truncated
    assert_eq!(x, 589_333_333);
    assert_eq!(y, 0);
}

#[test]
fn normalizer_discards_horizontal_sign() {
    let rect = Rect::new(1768, 992);
    let left_of_window = Cursor::new(-10, 500);
    let to = Cursor::new(90, 400);
    let (x, y) = translate_target_position_relativ_to_origin(&rect, &left_of_window, &to);
    assert_eq!(x, 100_000_000);
    assert_eq!(y, 100_000_000);
    // swapping the points keeps x and flips y
    let (x2, y2) = translate_target_position_relativ_to_origin(&rect, &to, &left_of_window);
    assert_eq!(x2, 100_000_000);
    assert_eq!(y2, -100_000_000);
}

#[test]
fn fraction_is_distance_to_nearest_integer() {
    assert_eq!(get_fraction(2_300_000), 300_000);
    assert_eq!(get_fraction(2_700_000), 300_000);
    assert_eq!(get_fraction(-30_300_000), 300_000);
    assert_eq!(get_fraction(500_000), 500_000);
    assert_eq!(get_fraction(0), 0);
    assert_eq!(get_fraction(99_999_999), 1);
}

#[test]
fn rounding_is_half_away_from_zero() {
    assert_eq!(round_to_unit(2_500_000), 3);
    assert_eq!(round_to_unit(-2_500_000), -3);
    assert_eq!(round_to_unit(2_499_999), 2);
    assert_eq!(round_to_unit(-2_499_999), -2);
    assert_eq!(round_to_unit(999_999), 1);
    assert_eq!(round_to_unit(0), 0);
}

#[test]
fn launch_angles_rank_by_angle_fraction() {
    let mut samples: Vec<Option<i64>> = vec![None; 100];
    samples[0] = Some(10_400_000); // speed 1, angle 10.4
    samples[4] = Some(20_000_000); // speed 5, angle 20.0
    samples[9] = Some(-15_600_000); // speed 10, angle -15.6
    let hits = calc_launch_angles(50_000_000, &samples);
    assert_eq!(
        hits,
        vec![Hit::new(5, 20), Hit::new(1, 10), Hit::new(10, -16)]
    );
}

#[test]
fn launch_angles_keep_sweep_order_on_ties() {
    let mut samples: Vec<Option<i64>> = vec![None; 100];
    samples[0] = Some(30_250_000); // speed 1, fraction 0.25
    samples[1] = Some(10_250_000); // speed 2, fraction 0.25
    let hits = calc_launch_angles(50_000_000, &samples);
    assert_eq!(hits, vec![Hit::new(1, 30), Hit::new(2, 10)]);
}

#[test]
fn launch_angles_empty_when_no_sample_is_real() {
    let samples: Vec<Option<i64>> = vec![None; 100];
    let hits = calc_launch_angles(50_000_000, &samples);
    assert!(hits.is_empty());
}

#[test]
fn zero_offset_yields_empty_whatever_the_samples() {
    // a pure-vertical shot: both entry points discard even valid samples
    let mut angle_samples: Vec<Option<i64>> = vec![None; 100];
    angle_samples[4] = Some(20_000_000);
    assert!(calc_launch_angles(0, &angle_samples).is_empty());

    let mut vel_samples: Vec<Option<i64>> = vec![None; 181];
    vel_samples[90] = Some(20_000_000);
    assert!(calc_launch_velocities(0, &vel_samples).is_empty());
}

#[test]
fn launch_angles_stay_inside_sweep_bounds() {
    let mut samples: Vec<Option<i64>> = vec![None; 100];
    for i in 0..100 {
        samples[i] = Some((i as i64) * 900_000 - 45_000_000);
    }
    let hits = calc_launch_angles(50_000_000, &samples);
    assert_eq!(hits.len(), 100);
    for h in &hits {
        assert!(1 <= h.get_velocity() && h.get_velocity() <= 100);
        assert!(-90 <= h.get_angle() && h.get_angle() <= 90);
    }
}

#[test]
fn launch_velocities_rank_by_speed_fraction() {
    let mut samples: Vec<Option<i64>> = vec![None; 181];
    samples[90] = Some(20_000_000); // angle 0, speed 20.0
    samples[100] = Some(30_500_000); // angle 10, speed 30.5
    samples[170] = Some(49_999_999); // angle 80, speed just under 50
    let hits = calc_launch_velocities(50_000_000, &samples);
    assert_eq!(
        hits,
        vec![Hit::new(20, 0), Hit::new(50, 80), Hit::new(31, 10)]
    );
}

#[test]
fn launch_velocities_filter_speeds_beyond_bound() {
    let mut samples: Vec<Option<i64>> = vec![None; 181];
    samples[50] = Some(150_000_000); // 150 velocity units: unreachable
    samples[90] = Some(100_000_000); // exactly the bound: kept
    let hits = calc_launch_velocities(50_000_000, &samples);
    assert_eq!(hits, vec![Hit::new(100, 0)]);
}

#[test]
fn launch_velocities_keep_sweep_order_on_ties() {
    let mut samples: Vec<Option<i64>> = vec![None; 181];
    samples[0] = Some(10_250_000); // angle -90
    samples[180] = Some(20_250_000); // angle 90
    let hits = calc_launch_velocities(50_000_000, &samples);
    assert_eq!(hits, vec![Hit::new(10, -90), Hit::new(20, 90)]);
}

#[test]
fn launch_velocities_empty_when_no_sample_is_real() {
    let samples: Vec<Option<i64>> = vec![None; 181];
    let hits = calc_launch_velocities(50_000_000, &samples);
    assert!(hits.is_empty());
}
