use astro_angle::{AngleUnit, AngleUnitPrecision, AngleUnitSubdivision};

#[test]
fn units_in_rotation_of_each_unit() {
    assert_eq!(AngleUnit::Degrees.units_in_rotation(), 360);
    assert_eq!(AngleUnit::Hours.units_in_rotation(), 24);
}

#[test]
fn parts_in_unit_of_each_subdivision() {
    assert_eq!(AngleUnitSubdivision::Wholes.parts_in_unit(), 1);
    assert_eq!(AngleUnitSubdivision::Minutes.parts_in_unit(), 60);
    assert_eq!(AngleUnitSubdivision::Seconds.parts_in_unit(), 3600);
}

#[test]
fn parts_in_rotation_of_each_pair() {
    assert_eq!(AngleUnit::Degrees.parts_in_rotation(AngleUnitSubdivision::Wholes), 360);
    assert_eq!(AngleUnit::Degrees.parts_in_rotation(AngleUnitSubdivision::Minutes), 21_600);
    assert_eq!(AngleUnit::Degrees.parts_in_rotation(AngleUnitSubdivision::Seconds), 1_296_000);
    assert_eq!(AngleUnit::Hours.parts_in_rotation(AngleUnitSubdivision::Wholes), 24);
    assert_eq!(AngleUnit::Hours.parts_in_rotation(AngleUnitSubdivision::Minutes), 1_440);
    assert_eq!(AngleUnit::Hours.parts_in_rotation(AngleUnitSubdivision::Seconds), 86_400);
}

#[test]
fn subdivision_unit_symbols_of_each_unit() {
    assert_eq!(AngleUnit::Degrees.subdivision_unit_symbols(), ['°', '′', '″']);
    assert_eq!(AngleUnit::Hours.subdivision_unit_symbols(), ['ʰ', 'ᵐ', 'ˢ']);
}

#[test]
fn unit_precision_comes_apart() {
    let parts: (AngleUnit, AngleUnitSubdivision, u32) = AngleUnitPrecision::Degrees(2).into();
    assert_eq!(parts, (AngleUnit::Degrees, AngleUnitSubdivision::Wholes, 2));
    let parts: (AngleUnit, AngleUnitSubdivision, u32) =
        AngleUnitPrecision::DegreeMinutes(0).into();
    assert_eq!(parts, (AngleUnit::Degrees, AngleUnitSubdivision::Minutes, 0));
    let parts: (AngleUnit, AngleUnitSubdivision, u32) =
        AngleUnitPrecision::DegreeSeconds(7).into();
    assert_eq!(parts, (AngleUnit::Degrees, AngleUnitSubdivision::Seconds, 7));
    let parts: (AngleUnit, AngleUnitSubdivision, u32) = AngleUnitPrecision::Hours(3).into();
    assert_eq!(parts, (AngleUnit::Hours, AngleUnitSubdivision::Wholes, 3));
    let parts: (AngleUnit, AngleUnitSubdivision, u32) = AngleUnitPrecision::HourMinutes(1).into();
    assert_eq!(parts, (AngleUnit::Hours, AngleUnitSubdivision::Minutes, 1));
    let parts: (AngleUnit, AngleUnitSubdivision, u32) =
        AngleUnitPrecision::HourSeconds(u32::MAX).into();
    assert_eq!(parts, (AngleUnit::Hours, AngleUnitSubdivision::Seconds, u32::MAX));
}
