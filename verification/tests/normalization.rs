use astro_angle::decimal::power_of_ten;
use astro_angle::normalize::{
    normalize_lower_inclusive, normalize_parts, normalize_upper_inclusive, reduce,
};
use astro_angle::{AngleRange, DecimalValue};

#[test]
fn reduce_gives_the_non_negative_remainder() {
    assert_eq!(reduce(0, 360), 0);
    assert_eq!(reduce(5, 360), 5);
    assert_eq!(reduce(725, 360), 5);
    assert_eq!(reduce(-1, 360), 359);
    assert_eq!(reduce(-360, 360), 0);
    assert_eq!(reduce(-725, 360), 355);
    assert_eq!(reduce(i128::MIN, 24), 16);
    assert_eq!(reduce(i128::MAX, i128::MAX / 2), 1);
    assert_eq!(reduce(i128::MAX, i128::MAX), 0);
    assert_eq!(reduce(i128::MIN, i128::MAX), i128::MAX - 1);
}

#[test]
fn normalize_lower_inclusive_lands_above_the_bound() {
    assert_eq!(normalize_lower_inclusive(370, 0, 360), 10);
    assert_eq!(normalize_lower_inclusive(-10, 0, 360), 350);
    assert_eq!(normalize_lower_inclusive(360, 0, 360), 0);
    assert_eq!(normalize_lower_inclusive(0, 0, 360), 0);
    assert_eq!(normalize_lower_inclusive(50, 100, 360), 410);
    assert_eq!(normalize_lower_inclusive(460, 100, 360), 100);
    assert_eq!(normalize_lower_inclusive(-7, -12, 24), -7);
}

#[test]
fn normalize_upper_inclusive_lands_below_the_bound() {
    assert_eq!(normalize_upper_inclusive(190, 180, 360), -170);
    assert_eq!(normalize_upper_inclusive(180, 180, 360), 180);
    assert_eq!(normalize_upper_inclusive(-180, 180, 360), 180);
    assert_eq!(normalize_upper_inclusive(-181, 180, 360), 179);
    assert_eq!(normalize_upper_inclusive(541, 180, 360), -179);
    assert_eq!(normalize_upper_inclusive(13, 12, 24), -11);
}

#[test]
fn normalize_at_the_ends_of_the_integers() {
    assert_eq!(normalize_lower_inclusive(i128::MAX, i128::MAX - 5, 360), i128::MAX);
    assert_eq!(normalize_upper_inclusive(i128::MIN, i128::MIN + 5, 360), i128::MIN);
    assert_eq!(
        normalize_lower_inclusive(i128::MAX, i128::MIN, 360),
        i128::MIN + 255
    );
    assert_eq!(
        normalize_upper_inclusive(i128::MIN, i128::MAX, 360),
        i128::MAX - 255
    );
}

#[test]
fn normalize_parts_counts_the_rotation_in_the_scale_of_the_value() {
    let value = DecimalValue { mantissa: -895, scale: 1 };
    assert_eq!(
        normalize_parts(value, 360, AngleRange::NonNegative),
        DecimalValue { mantissa: 2705, scale: 1 }
    );
    let value = DecimalValue { mantissa: 2705, scale: 1 };
    assert_eq!(
        normalize_parts(value, 360, AngleRange::Symmetric),
        DecimalValue { mantissa: -895, scale: 1 }
    );
    let value = DecimalValue { mantissa: 36_000, scale: 2 };
    assert_eq!(
        normalize_parts(value, 360, AngleRange::NonNegative),
        DecimalValue { mantissa: 0, scale: 2 }
    );
    let value = DecimalValue { mantissa: -12_000, scale: 3 };
    assert_eq!(
        normalize_parts(value, 24, AngleRange::Symmetric),
        DecimalValue { mantissa: 12_000, scale: 3 }
    );
}

#[test]
fn normalize_parts_reaches_past_what_a_decimal_holds() {
    let value = DecimalValue { mantissa: -10_000_000_000_000_000_000_000_000_001, scale: 28 };
    assert_eq!(
        normalize_parts(value, 360, AngleRange::NonNegative),
        DecimalValue { mantissa: 3_589_999_999_999_999_999_999_999_999_999, scale: 28 }
    );
}

#[test]
fn normalizing_twice_changes_nothing() {
    for range in [AngleRange::NonNegative, AngleRange::Symmetric] {
        for mantissa in [-7_205, -3_600, -1_800, -1, 0, 1, 1_799, 1_800, 1_801, 3_599, 3_600, 9_001] {
            let once = normalize_parts(DecimalValue { mantissa, scale: 1 }, 360, range);
            assert_eq!(normalize_parts(once, 360, range), once);
        }
    }
}

#[test]
fn normalized_values_lie_in_their_interval() {
    for mantissa in -800..800 {
        let value = DecimalValue { mantissa, scale: 0 };
        let non_negative = normalize_parts(value, 360, AngleRange::NonNegative).mantissa;
        assert!((0..360).contains(&non_negative));
        let symmetric = normalize_parts(value, 360, AngleRange::Symmetric).mantissa;
        assert!(-180 < symmetric && symmetric <= 180);
        let hours = normalize_parts(value, 24, AngleRange::Symmetric).mantissa;
        assert!(-12 < hours && hours <= 12);
    }
}

#[test]
fn whole_rotations_do_not_change_the_normalized_value() {
    for range in [AngleRange::NonNegative, AngleRange::Symmetric] {
        for mantissa in [-2_705, -1, 0, 895, 1_800, 3_599] {
            let expected = normalize_parts(DecimalValue { mantissa, scale: 1 }, 360, range);
            for turns in -3..=3 {
                let moved = DecimalValue { mantissa: mantissa + turns * 3_600, scale: 1 };
                assert_eq!(normalize_parts(moved, 360, range), expected);
            }
            let expected = normalize_parts(DecimalValue { mantissa, scale: 1 }, 24, range);
            for turns in -3..=3 {
                let moved = DecimalValue { mantissa: mantissa + turns * 240, scale: 1 };
                assert_eq!(normalize_parts(moved, 24, range), expected);
            }
        }
    }
}

#[test]
fn power_of_ten_of_each_scale() {
    assert_eq!(power_of_ten(0), 1);
    assert_eq!(power_of_ten(1), 10);
    assert_eq!(power_of_ten(9), 1_000_000_000);
    assert_eq!(power_of_ten(28), 10_000_000_000_000_000_000_000_000_000);
}

#[test]
fn fits_tells_what_a_decimal_holds() {
    assert!(DecimalValue { mantissa: 0, scale: 0 }.fits());
    assert!(DecimalValue { mantissa: 79_228_162_514_264_337_593_543_950_335, scale: 28 }.fits());
    assert!(DecimalValue { mantissa: -79_228_162_514_264_337_593_543_950_335, scale: 0 }.fits());
    assert!(!DecimalValue { mantissa: 79_228_162_514_264_337_593_543_950_336, scale: 0 }.fits());
    assert!(!DecimalValue { mantissa: -79_228_162_514_264_337_593_543_950_336, scale: 0 }.fits());
    assert!(!DecimalValue { mantissa: 1, scale: 29 }.fits());
}
