//! Rendering of a normalized angle as fixed-width sexagesimal text.

use crate::angle_unit::{AngleUnit, AngleUnitSubdivision};
use crate::decimal::{
    decimal_text, fixed_text, lemma_pow10_step, lemma_round_half_away_bounded, pow10,
    power_of_ten, round_half_away_from_zero, DecimalSpec, DecimalValue, MAX_FORMAT_COUNT,
};
use crate::normalize::{
    canonical_parts, in_closed_interval, in_interval, lemma_canonical_of_closed_interval,
    normalize_parts,
};
use vstd::arithmetic::power::{lemma_pow_adds, lemma_pow_positive};
use vstd::arithmetic::div_mod::lemma_mod_decreases;
use vstd::prelude::*;
use vstd::std_specs::convert::FromSpecImpl;

verus! {

/// A unit, a subdivision of it, and the number of fractional digits that the finest
/// component written is to show.
#[derive(Debug, Clone, Copy)]
pub enum AngleUnitPrecision {
    Degrees(u32),
    DegreeMinutes(u32),
    DegreeSeconds(u32),
    Hours(u32),
    HourMinutes(u32),
    HourSeconds(u32),
}

/// The canonical interval that an angle is shown in.
#[derive(Debug, Clone, Copy)]
pub enum AngleRange {
    /// From zero, inclusive, up to one full rotation, exclusive.
    NonNegative,
    /// From minus half a rotation, exclusive, up to half a rotation, inclusive.
    Symmetric,
}

/// What can be written as sexagesimal text.
pub trait AngleFormat {
    fn format_angle(&self, unit_precision: AngleUnitPrecision, range: AngleRange) -> String;
}

impl AngleUnitPrecision {
    /// The unit that this request names.
    pub open spec fn unit(&self) -> AngleUnit {
        match self {
            AngleUnitPrecision::Degrees(_)
            | AngleUnitPrecision::DegreeMinutes(_)
            | AngleUnitPrecision::DegreeSeconds(_) => AngleUnit::Degrees,
            AngleUnitPrecision::Hours(_)
            | AngleUnitPrecision::HourMinutes(_)
            | AngleUnitPrecision::HourSeconds(_) => AngleUnit::Hours,
        }
    }

    /// The subdivision that this request names.
    pub open spec fn subdivision(&self) -> AngleUnitSubdivision {
        match self {
            AngleUnitPrecision::Degrees(_) | AngleUnitPrecision::Hours(_) => AngleUnitSubdivision::Wholes,
            AngleUnitPrecision::DegreeMinutes(_)
            | AngleUnitPrecision::HourMinutes(_) => AngleUnitSubdivision::Minutes,
            AngleUnitPrecision::DegreeSeconds(_)
            | AngleUnitPrecision::HourSeconds(_) => AngleUnitSubdivision::Seconds,
        }
    }

    /// The number of fractional digits that this request carries.
    pub open spec fn precision(&self) -> u32 {
        match self {
            AngleUnitPrecision::Degrees(precision)
            | AngleUnitPrecision::DegreeMinutes(precision)
            | AngleUnitPrecision::DegreeSeconds(precision)
            | AngleUnitPrecision::Hours(precision)
            | AngleUnitPrecision::HourMinutes(precision)
            | AngleUnitPrecision::HourSeconds(precision) => *precision,
        }
    }
}

impl FromSpecImpl<AngleUnitPrecision> for (AngleUnit, AngleUnitSubdivision, u32) {
    open spec fn obeys_from_spec() -> bool {
        true
    }

    open spec fn from_spec(value: AngleUnitPrecision) -> Self {
        (value.unit(), value.subdivision(), value.precision())
    }
}

impl From<AngleUnitPrecision> for (AngleUnit, AngleUnitSubdivision, u32) {
    /// Takes a request apart into its unit, its subdivision and its precision.
    fn from(value: AngleUnitPrecision) -> (parts: Self) {
        match value {
            AngleUnitPrecision::Degrees(precision) => (
                AngleUnit::Degrees,
                AngleUnitSubdivision::Wholes,
                precision,
            ),
            AngleUnitPrecision::DegreeMinutes(precision) => (
                AngleUnit::Degrees,
                AngleUnitSubdivision::Minutes,
                precision,
            ),
            AngleUnitPrecision::DegreeSeconds(precision) => (
                AngleUnit::Degrees,
                AngleUnitSubdivision::Seconds,
                precision,
            ),
            AngleUnitPrecision::Hours(precision) => (
                AngleUnit::Hours,
                AngleUnitSubdivision::Wholes,
                precision,
            ),
            AngleUnitPrecision::HourMinutes(precision) => (
                AngleUnit::Hours,
                AngleUnitSubdivision::Minutes,
                precision,
            ),
            AngleUnitPrecision::HourSeconds(precision) => (
                AngleUnit::Hours,
                AngleUnitSubdivision::Seconds,
                precision,
            ),
        }
    }
}

/// `String::push` of the standard library: the character is appended to the text.
pub assume_specification[ String::push ](text: &mut String, ch: char)
    ensures
        final(text)@ == old(text)@.push(ch),
;

/// The sign written before the whole component: none in the non-negative range, always one
/// in the symmetric range.
pub open spec fn spec_sign_glyph(range: AngleRange, negative: bool) -> Option<char> {
    match range {
        AngleRange::NonNegative => None,
        AngleRange::Symmetric => Some(
            if negative {
                '-'
            } else {
                '+'
            },
        ),
    }
}

/// The width that the minute or second component written last is padded to: two integer
/// digits and, where fractional digits are shown, the point and those digits.
pub open spec fn spec_sub_width(precision: nat) -> nat {
    if precision > 0 {
        precision + 3
    } else {
        2
    }
}

/// Whether a format takes the precision and the width that a subdivision asks of it: the
/// whole units are written with the precision alone, a minute or second component with
/// the width of its precision as well.
pub open spec fn spec_precision_fits(subdivision: AngleUnitSubdivision, precision: u32) -> bool {
    match subdivision {
        AngleUnitSubdivision::Wholes => precision <= MAX_FORMAT_COUNT,
        _ => spec_sub_width(precision as nat) <= MAX_FORMAT_COUNT,
    }
}

/// The sign, then each component followed by the symbol of its level, nothing between.
pub open spec fn assembled(
    sign: Option<char>,
    whole: Seq<char>,
    minutes: Option<Seq<char>>,
    seconds: Option<Seq<char>>,
    symbols: Seq<char>,
) -> Seq<char> {
    let sign_text = match sign {
        Some(glyph) => seq![glyph],
        None => Seq::<char>::empty(),
    };
    let minute_text = match minutes {
        Some(digits) => digits.push(symbols[1]),
        None => Seq::<char>::empty(),
    };
    let second_text = match seconds {
        Some(digits) => digits.push(symbols[2]),
        None => Seq::<char>::empty(),
    };
    sign_text + whole.push(symbols[0]) + minute_text + second_text
}

/// The text of an angle of `angle` parts at the given subdivision: the whole units
/// truncated toward zero, the minutes and seconds taken of the magnitude, the sign written
/// once in front, the component written last with `precision` fractional digits.
pub open spec fn rendered(
    angle: DecimalSpec,
    unit: AngleUnit,
    subdivision: AngleUnitSubdivision,
    precision: nat,
    range: AngleRange,
) -> Seq<char> {
    let magnitude = if angle.mantissa < 0 {
        -angle.mantissa
    } else {
        angle.mantissa
    };
    let sixty = 60 * pow10(angle.scale);
    let sign = spec_sign_glyph(range, angle.mantissa < 0);
    let symbols = unit.spec_subdivision_unit_symbols();
    let last = decimal_text(
        magnitude % sixty,
        angle.scale,
        spec_sub_width(precision),
        precision,
    );
    match subdivision {
        AngleUnitSubdivision::Wholes => assembled(
            sign,
            decimal_text(magnitude, angle.scale, 0, precision),
            None,
            None,
            symbols,
        ),
        AngleUnitSubdivision::Minutes => assembled(
            sign,
            decimal_text(magnitude / sixty, 0, 0, 0),
            Some(last),
            None,
            symbols,
        ),
        AngleUnitSubdivision::Seconds => assembled(
            sign,
            decimal_text(magnitude / (60 * sixty), 0, 0, 0),
            Some(decimal_text((magnitude / sixty) % 60, 0, 2, 0)),
            Some(last),
            symbols,
        ),
    }
}

/// Whether a number of parts can be formatted: a 96-bit decimal holds it, and it lies in
/// the canonical interval of `range` or on its open edge.
pub open spec fn spec_is_normalized(
    parts: DecimalSpec,
    unit: AngleUnit,
    subdivision: AngleUnitSubdivision,
    range: AngleRange,
) -> bool {
    &&& parts.is_representable()
    &&& in_closed_interval(
        parts.mantissa,
        unit.spec_parts_in_rotation(subdivision) * pow10(parts.scale),
        range,
    )
}

/// The text of a normalized angle of `parts` parts: the parts rounded half away from zero
/// to `precision` fractional digits, brought back into the canonical interval, and written
/// out by components.
pub open spec fn formatted(
    parts: DecimalSpec,
    unit: AngleUnit,
    subdivision: AngleUnitSubdivision,
    precision: nat,
    range: AngleRange,
) -> Seq<char> {
    rendered(
        canonical_parts(
            parts.rounded(precision),
            unit.spec_parts_in_rotation(subdivision) as int,
            range,
        ),
        unit,
        subdivision,
        precision,
        range,
    )
}

/// The width of the minute or second component that is written last.
pub fn sub_width(precision: u32) -> (width: usize)
    requires
        spec_sub_width(precision as nat) <= MAX_FORMAT_COUNT,
    ensures
        width == spec_sub_width(precision as nat),
{
    if precision > 0 {
        precision as usize + 3
    } else {
        2
    }
}

/// Chooses the sign that goes before the whole component.
pub fn sign_glyph(range: AngleRange, negative: bool) -> (sign: Option<char>)
    ensures
        sign == spec_sign_glyph(range, negative),
{
    match range {
        AngleRange::NonNegative => None,
        AngleRange::Symmetric => Some(
            if negative {
                '-'
            } else {
                '+'
            },
        ),
    }
}

/// Joins the sign and the digits of each component, each followed by its symbol.
pub fn assemble(
    sign: Option<char>,
    whole: &str,
    minutes: Option<&str>,
    seconds: Option<&str>,
    symbols: [char; 3],
) -> (text: String)
    ensures
        text@ == assembled(
            sign,
            whole@,
            match minutes {
                Some(digits) => Some(digits@),
                None => None,
            },
            match seconds {
                Some(digits) => Some(digits@),
                None => None,
            },
            symbols@,
        ),
{
    let mut text = String::new();
    if let Some(glyph) = sign {
        text.push(glyph);
    }
    text.append(whole);
    text.push(symbols[0]);
    if let Some(digits) = minutes {
        text.append(digits);
        text.push(symbols[1]);
    }
    if let Some(digits) = seconds {
        text.append(digits);
        text.push(symbols[2]);
    }
    assert(text@ =~= assembled(
        sign,
        whole@,
        match minutes {
            Some(digits) => Some(digits@),
            None => None,
        },
        match seconds {
            Some(digits) => Some(digits@),
            None => None,
        },
        symbols@,
    ));
    text
}

/// Writes an angle of `angle` parts that is rounded already and lies in its canonical
/// interval.
pub fn render(
    angle: DecimalValue,
    unit: AngleUnit,
    subdivision: AngleUnitSubdivision,
    precision: u32,
    range: AngleRange,
) -> (text: String)
    requires
        angle@.is_representable(),
        in_interval(
            angle@.mantissa,
            unit.spec_parts_in_rotation(subdivision) * pow10(angle@.scale),
            range,
        ),
        spec_precision_fits(subdivision, precision),
    ensures
        text@ == rendered(angle@, unit, subdivision, precision as nat, range),
{
    let negative = angle.mantissa < 0;
    let magnitude: i128 = if negative {
        -angle.mantissa
    } else {
        angle.mantissa
    };
    let sixty: i128 = 60 * power_of_ten(angle.scale);
    let digits: usize = precision as usize;
    let sign = sign_glyph(range, negative);
    let symbols = unit.subdivision_unit_symbols();
    proof {
        lemma_mod_decreases(magnitude as nat, sixty as nat);
        if subdivision is Wholes {
            let rotation = unit.spec_parts_in_rotation(subdivision) as int;
            assert(rotation * pow10(angle@.scale) <= 1000 * pow10(angle@.scale))
                by (nonlinear_arith)
                requires
                    rotation <= 1000,
                    pow10(angle@.scale) > 0,
            ;
        }
    }
    match subdivision {
        AngleUnitSubdivision::Wholes => {
            let whole = fixed_text(
                DecimalValue { mantissa: magnitude, scale: angle.scale },
                0,
                digits,
            );
            assemble(sign, whole.as_str(), None, None, symbols)
        },
        AngleUnitSubdivision::Minutes => {
            let whole = fixed_text(DecimalValue { mantissa: magnitude / sixty, scale: 0 }, 0, 0);
            let minutes = fixed_text(
                DecimalValue { mantissa: magnitude % sixty, scale: angle.scale },
                sub_width(precision),
                digits,
            );
            assemble(sign, whole.as_str(), Some(minutes.as_str()), None, symbols)
        },
        AngleUnitSubdivision::Seconds => {
            let whole = fixed_text(
                DecimalValue { mantissa: magnitude / (60 * sixty), scale: 0 },
                0,
                0,
            );
            let minutes = fixed_text(
                DecimalValue { mantissa: (magnitude / sixty) % 60, scale: 0 },
                2,
                0,
            );
            let seconds = fixed_text(
                DecimalValue { mantissa: magnitude % sixty, scale: angle.scale },
                sub_width(precision),
                digits,
            );
            assemble(sign, whole.as_str(), Some(minutes.as_str()), Some(seconds.as_str()), symbols)
        },
    }
}

/// Tells whether a format takes the precision at a subdivision.
pub fn precision_fits(subdivision: AngleUnitSubdivision, precision: u32) -> (fits: bool)
    ensures
        fits == spec_precision_fits(subdivision, precision),
{
    match subdivision {
        AngleUnitSubdivision::Wholes => precision <= 65_535,
        _ => precision <= 65_532,
    }
}

/// Tells whether `format_parts` accepts a number of parts.
pub fn is_normalized(
    parts: DecimalValue,
    unit: AngleUnit,
    subdivision: AngleUnitSubdivision,
    range: AngleRange,
) -> (accepted: bool)
    ensures
        accepted == spec_is_normalized(parts@, unit, subdivision, range),
{
    if !parts.fits() {
        return false;
    }
    let one = power_of_ten(parts.scale);
    let parts_in_rotation = unit.parts_in_rotation(subdivision);
    assert(parts_in_rotation * one <= 1_296_000 * 10_000_000_000_000_000_000_000_000_000)
        by (nonlinear_arith)
        requires
            0 <= parts_in_rotation <= 1_296_000,
            1 <= one <= 10_000_000_000_000_000_000_000_000_000,
    ;
    let rotation: i128 = (parts_in_rotation as i128) * one;
    match range {
        AngleRange::NonNegative => 0 <= parts.mantissa && parts.mantissa <= rotation,
        AngleRange::Symmetric => rotation / 2 - rotation <= parts.mantissa && parts.mantissa
            <= rotation / 2,
    }
}

/// Rounding to fewer digits keeps a value in its closed interval, counted in the coarser
/// part, and within what a 96-bit decimal holds.
proof fn lemma_rounded_is_normalized(
    parts: DecimalSpec,
    unit: AngleUnit,
    subdivision: AngleUnitSubdivision,
    precision: nat,
    range: AngleRange,
)
    requires
        spec_is_normalized(parts, unit, subdivision, range),
    ensures
        spec_is_normalized(parts.rounded(precision), unit, subdivision, range),
{
    if parts.scale > precision {
        let dropped = (parts.scale - precision) as nat;
        let divisor = pow10(dropped);
        let rotation = unit.spec_parts_in_rotation(subdivision) as int;
        let coarse = rotation * pow10(precision);
        let half = (rotation / 2) * pow10(precision);
        lemma_pow_adds(10, precision, dropped);
        lemma_pow_positive(10, precision);
        lemma_pow10_step((dropped - 1) as nat);
        assert(rotation * pow10(parts.scale) == coarse * divisor) by (nonlinear_arith)
            requires
                pow10(parts.scale) == pow10(precision) * divisor,
                coarse == rotation * pow10(precision),
        ;
        assert(rotation == 2 * (rotation / 2));
        assert(coarse == 2 * half) by (nonlinear_arith)
            requires
                rotation == 2 * (rotation / 2),
                coarse == rotation * pow10(precision),
                half == (rotation / 2) * pow10(precision),
        ;
        assert(coarse * divisor == 2 * (half * divisor)) by (nonlinear_arith)
            requires
                coarse == 2 * half,
        ;
        assert(half * divisor >= 0) by (nonlinear_arith)
            requires
                half == (rotation / 2) * pow10(precision),
                rotation >= 0,
                pow10(precision) > 0,
                divisor > 0,
        ;
        let bound = match range {
            AngleRange::NonNegative => coarse,
            AngleRange::Symmetric => half,
        };
        lemma_round_half_away_bounded(parts.mantissa, divisor, bound);
    }
}

/// The angle that is written lies in the canonical interval, whatever rounding did: no
/// text shows a full rotation in the non-negative range or minus half a rotation in the
/// symmetric one. It has no more fractional digits than were asked for, and a 96-bit
/// decimal holds it.
pub proof fn lemma_written_angle_in_interval(
    parts: DecimalSpec,
    unit: AngleUnit,
    subdivision: AngleUnitSubdivision,
    precision: nat,
    range: AngleRange,
)
    requires
        spec_is_normalized(parts, unit, subdivision, range),
    ensures
        ({
            let rotation = unit.spec_parts_in_rotation(subdivision) as int;
            let written = canonical_parts(parts.rounded(precision), rotation, range);
            &&& in_interval(written.mantissa, rotation * pow10(written.scale), range)
            &&& written.scale <= precision
            &&& written.is_representable()
        }),
{
    let rotation = unit.spec_parts_in_rotation(subdivision) as int;
    let rounded = parts.rounded(precision);
    lemma_rounded_is_normalized(parts, unit, subdivision, precision, range);
    lemma_pow_positive(10, rounded.scale);
    assert(rotation * pow10(rounded.scale) > 0) by (nonlinear_arith)
        requires
            rotation > 0,
            pow10(rounded.scale) > 0,
    ;
    lemma_canonical_of_closed_interval(rounded.mantissa, rotation * pow10(rounded.scale), range);
}

/// Writes a normalized angle of `parts` parts as sexagesimal text.
///
/// The parts are rounded half away from zero to `precision` fractional digits. Rounding may
/// reach the open edge of the canonical interval, so the rounded value is brought back into
/// the interval before it is taken apart into whole units, minutes and seconds.
pub fn format_parts(
    parts: DecimalValue,
    unit: AngleUnit,
    subdivision: AngleUnitSubdivision,
    precision: u32,
    range: AngleRange,
) -> (text: String)
    requires
        spec_is_normalized(parts@, unit, subdivision, range),
        spec_precision_fits(subdivision, precision),
    ensures
        text@ == formatted(parts@, unit, subdivision, precision as nat, range),
{
    let rounded = round_half_away_from_zero(parts, precision);
    let rotation = unit.parts_in_rotation(subdivision);
    proof {
        lemma_rounded_is_normalized(parts@, unit, subdivision, precision as nat, range);
        lemma_written_angle_in_interval(parts@, unit, subdivision, precision as nat, range);
    }
    let angle = normalize_parts(rounded, rotation, range);
    render(angle, unit, subdivision, precision, range)
}

} // verus!
