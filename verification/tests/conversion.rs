use pose_markers::fixed::{from_double_bits, HALF, ONE};
use pose_markers::pose::{PersonData, Point};

const SIGN: u64 = 1 << 63;

fn nearest_step(value: f64) -> i32 {
    (value * ONE as f64).round() as i32
}

fn read(value: f64) -> Option<i32> {
    from_double_bits(value.to_bits())
}

#[test]
fn whole_and_half_units_are_exact() {
    assert_eq!(read(0.0), Some(0));
    assert_eq!(read(1.0), Some(ONE as i32));
    assert_eq!(read(0.5), Some(HALF as i32));
    assert_eq!(read(0.25), Some(4_194_304));
    assert_eq!(read(-1.0), Some(-(ONE as i32)));
    assert_eq!(read(-0.5), Some(-(HALF as i32)));
    assert_eq!(read(100.0), Some(1_677_721_600));
    assert_eq!(read(-127.0), Some(-2_130_706_432));
}

#[test]
fn negative_zero_is_zero() {
    assert_eq!(from_double_bits(SIGN), Some(0));
    assert_eq!(read(-0.0), Some(0));
}

#[test]
fn decimal_fractions_go_to_the_nearest_step() {
    assert_eq!(read(0.1), Some(1_677_722));
    assert_eq!(read(0.6), Some(10_066_330));
    assert_eq!(read(-0.1), Some(-1_677_722));
    assert_eq!(read(0.3), Some(5_033_165));
}

#[test]
fn halves_round_away_from_zero() {
    let step = 1.0 / ONE as f64;
    assert_eq!(read(0.5 * step), Some(1));
    assert_eq!(read(-0.5 * step), Some(-1));
    assert_eq!(read(1.5 * step), Some(2));
    assert_eq!(read(-1.5 * step), Some(-2));
    assert_eq!(read(2.5 * step), Some(3));
    assert_eq!(read(0.49999 * step), Some(0));
    assert_eq!(read(-0.49999 * step), Some(0));
    assert_eq!(read(f64::from_bits((0.5 * step).to_bits() - 1)), Some(0));
    assert_eq!(read(f64::from_bits((1.5 * step).to_bits() - 1)), Some(1));
}

#[test]
fn tiny_numbers_are_zero() {
    assert_eq!(read(f64::MIN_POSITIVE), Some(0));
    assert_eq!(read(-f64::MIN_POSITIVE), Some(0));
    assert_eq!(from_double_bits(1), Some(0));
    assert_eq!(from_double_bits(SIGN | 1), Some(0));
    assert_eq!(from_double_bits(0x000f_ffff_ffff_ffff), Some(0));
    assert_eq!(read(1e-30), Some(0));
    assert_eq!(read(2f64.powi(-26)), Some(0));
    assert_eq!(read(2f64.powi(-25)), Some(1));
}

#[test]
fn numbers_beyond_the_range_are_held_to_it() {
    assert_eq!(read(128.0), Some(i32::MAX));
    assert_eq!(read(-128.0), Some(i32::MIN));
    assert_eq!(read(127.99999999), Some(i32::MAX));
    assert_eq!(read(1e300), Some(i32::MAX));
    assert_eq!(read(-1e300), Some(i32::MIN));
    assert_eq!(read(f64::MAX), Some(i32::MAX));
    assert_eq!(read(f64::MIN), Some(i32::MIN));
    assert_eq!(read(4_503_599_627_370_496.0), Some(i32::MAX));
}

#[test]
fn the_ends_of_the_range_are_reached() {
    let step = 1.0 / ONE as f64;
    assert_eq!(read(128.0 - step), Some(i32::MAX));
    assert_eq!(read(128.0 - 2.0 * step), Some(i32::MAX - 1));
    assert_eq!(read(128.0 - 0.5 * step), Some(i32::MAX));
    assert_eq!(read(128.0 - 0.75 * step), Some(i32::MAX));
    assert_eq!(read(-128.0 + step), Some(i32::MIN + 1));
    assert_eq!(read(-128.0 + 0.75 * step), Some(i32::MIN + 1));
    assert_eq!(read(-128.0 + 0.5 * step), Some(i32::MIN));
}

#[test]
fn infinities_and_nans_are_no_coordinate() {
    assert_eq!(read(f64::INFINITY), None);
    assert_eq!(read(f64::NEG_INFINITY), None);
    assert_eq!(read(f64::NAN), None);
    assert_eq!(read(-f64::NAN), None);
    assert_eq!(from_double_bits(0x7ff0_0000_0000_0001), None);
    assert_eq!(from_double_bits(0xffff_ffff_ffff_ffff), None);
    assert_eq!(from_double_bits(0x7fef_ffff_ffff_ffff), Some(i32::MAX));
}

#[test]
fn reading_agrees_with_scaling_and_rounding() {
    let mut bits: u64 = 0x9e37_79b9_7f4a_7c15;
    for _ in 0..20_000 {
        bits ^= bits << 13;
        bits ^= bits >> 7;
        bits ^= bits << 17;
        let value = f64::from_bits(bits);
        if value.is_finite() {
            assert_eq!(from_double_bits(bits), Some(nearest_step(value)), "{value:e}");
        } else {
            assert_eq!(from_double_bits(bits), None);
        }
        let small = (bits >> 11) as f64 / (1u64 << 53) as f64 * 4.0 - 2.0;
        assert_eq!(read(small), Some(nearest_step(small)), "{small:e}");
        let wide = small * 100.0;
        assert_eq!(read(wide), Some(nearest_step(wide)), "{wide:e}");
    }
}

#[test]
fn reading_agrees_on_every_power_of_two() {
    for exponent in -1080..=1023 {
        let value = 2f64.powi(exponent);
        assert_eq!(read(value), Some(nearest_step(value)), "2^{exponent}");
        assert_eq!(read(-value), Some(nearest_step(-value)), "-2^{exponent}");
        let above = f64::from_bits(value.to_bits() + 1);
        assert_eq!(read(above), Some(nearest_step(above)), "above 2^{exponent}");
        if value.to_bits() > 0 {
            let below = f64::from_bits(value.to_bits() - 1);
            assert_eq!(read(below), Some(nearest_step(below)), "below 2^{exponent}");
        }
    }
}

#[test]
fn a_point_needs_both_components() {
    let half = 0.5f64.to_bits();
    let nan = f64::NAN.to_bits();
    let infinity = f64::INFINITY.to_bits();
    assert_eq!(Point::from_double_bits(half, 1.0f64.to_bits()), Some(Point { x: HALF as i32, y: ONE as i32 }));
    assert_eq!(Point::from_double_bits(0, 0), Some(Point { x: 0, y: 0 }));
    assert_eq!(Point::from_double_bits(nan, half), None);
    assert_eq!(Point::from_double_bits(half, nan), None);
    assert_eq!(Point::from_double_bits(infinity, infinity), None);
    assert_eq!(Point::from_double_bits(1e9f64.to_bits(), (-1e9f64).to_bits()), Some(Point { x: i32::MAX, y: i32::MIN }));
}

fn pair(x: f64, y: f64) -> Option<(u64, u64)> {
    Some((x.to_bits(), y.to_bits()))
}

#[test]
fn a_person_keeps_every_keypoint_in_its_place() {
    let keypoints = [pair(0.5, 0.25), None, pair(0.0, 0.0), None, None, pair(1.0, -1.0)];
    let person = PersonData::from_double_bits(&keypoints, None, None);
    assert_eq!(
        person.keypoints,
        vec![
            Some(Point { x: HALF as i32, y: 4_194_304 }),
            None,
            Some(Point { x: 0, y: 0 }),
            None,
            None,
            Some(Point { x: ONE as i32, y: -(ONE as i32) }),
        ]
    );
}

#[test]
fn an_absent_keypoint_is_not_a_point_at_the_origin() {
    let person = PersonData::from_double_bits(&[None, pair(0.0, 0.0)], None, None);
    assert_eq!(person.keypoints[0], None);
    assert_eq!(person.keypoints[1], Some(Point { x: 0, y: 0 }));
    assert_ne!(person.keypoints[0], person.keypoints[1]);
}

#[test]
fn a_keypoint_that_is_no_number_counts_as_absent() {
    let person = PersonData::from_double_bits(&[pair(f64::NAN, 0.5), pair(0.5, f64::INFINITY), pair(0.5, 0.5)], None, None);
    assert_eq!(person.keypoints, vec![None, None, Some(Point { x: HALF as i32, y: HALF as i32 })]);
}

#[test]
fn hand_flags_are_kept_as_they_came() {
    for right in [None, Some(false), Some(true)] {
        for left in [None, Some(false), Some(true)] {
            let person = PersonData::from_double_bits(&[], right, left);
            assert!(person.keypoints.is_empty());
            assert_eq!(person.right_hand_closed, right);
            assert_eq!(person.left_hand_closed, left);
        }
    }
}
