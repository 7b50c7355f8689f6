//! Exact reduction of an angle to the one value of its rotation class that lies in a
//! canonical interval. All quantities are integers counted in one common part.

use crate::decimal::{pow10, power_of_ten, DecimalSpec, DecimalValue};
use crate::format::AngleRange;
use vstd::arithmetic::div_mod::{
    lemma_fundamental_div_mod, lemma_fundamental_div_mod_converse, lemma_mod_bound,
    lemma_mod_multiples_vanish, lemma_sub_mod_noop,
};
use vstd::prelude::*;

verus! {

/// The value of the rotation class of `value` that lies in `[lower, lower + rotation)`.
pub open spec fn lower_inclusive(value: int, lower: int, rotation: int) -> int
    recommends
        rotation > 0,
{
    lower + (value - lower) % rotation
}

/// The value of the rotation class of `value` that lies in `(upper - rotation, upper]`.
pub open spec fn upper_inclusive(value: int, upper: int, rotation: int) -> int
    recommends
        rotation > 0,
{
    upper - (upper - value) % rotation
}

/// The remainder of `difference` by `rotation` that is never negative, whatever the sign
/// of `difference`: the truncated remainder, with one rotation added where it is negative.
pub fn reduce(difference: i128, rotation: i128) -> (reduced: i128)
    requires
        rotation > 0,
    ensures
        reduced == (difference as int) % (rotation as int),
        0 <= reduced < rotation,
{
    let remainder = difference % rotation;
    proof {
        let magnitude: int = if difference < 0 {
            -difference
        } else {
            difference as int
        };
        lemma_mod_bound(magnitude, rotation as int);
        lemma_fundamental_div_mod(magnitude, rotation as int);
        if difference < 0 {
            // The truncated remainder of a negative number is minus that of its magnitude.
            let q = magnitude / (rotation as int);
            let r = magnitude % (rotation as int);
            if r == 0 {
                assert(difference == (-q) * rotation + 0) by (nonlinear_arith)
                    requires
                        magnitude == rotation * q + r,
                        r == 0,
                        difference == -magnitude,
                ;
                lemma_fundamental_div_mod_converse(difference as int, rotation as int, -q, 0);
            } else {
                assert(difference == (-q - 1) * rotation + (rotation - r)) by (nonlinear_arith)
                    requires
                        magnitude == rotation * q + r,
                        difference == -magnitude,
                ;
                lemma_fundamental_div_mod_converse(
                    difference as int,
                    rotation as int,
                    -q - 1,
                    rotation - r,
                );
            }
        }
    }
    if remainder < 0 {
        remainder + rotation
    } else {
        remainder
    }
}

/// The remainder of `minuend - subtrahend` by `rotation` that is never negative, taken of
/// the remainders of the two so that no difference leaves the range of the integers.
fn reduce_difference(minuend: i128, subtrahend: i128, rotation: i128) -> (reduced: i128)
    requires
        rotation > 0,
    ensures
        reduced == (minuend - subtrahend) % (rotation as int),
        0 <= reduced < rotation,
{
    let difference = reduce(minuend, rotation) - reduce(subtrahend, rotation);
    proof {
        lemma_sub_mod_noop(minuend as int, subtrahend as int, rotation as int);
        if difference < 0 {
            lemma_fundamental_div_mod_converse(
                difference as int,
                rotation as int,
                -1,
                difference + rotation,
            );
        } else {
            lemma_fundamental_div_mod_converse(
                difference as int,
                rotation as int,
                0,
                difference as int,
            );
        }
    }
    if difference < 0 {
        difference + rotation
    } else {
        difference
    }
}

/// Reduces `value` into `[lower, lower + rotation)`. A value of the interval comes back as
/// it is.
///
/// The result has to be an `i128`: either the value lies in the interval already, or the
/// whole interval lies within the integers of that type.
pub fn normalize_lower_inclusive(value: i128, lower: i128, rotation: i128) -> (normalized: i128)
    requires
        rotation > 0,
        lower <= value < lower + rotation || lower + rotation - 1 <= i128::MAX,
    ensures
        normalized == lower_inclusive(value as int, lower as int, rotation as int),
        lower <= normalized < lower + rotation,
        lower <= value < lower + rotation ==> normalized == value,
{
    proof {
        lemma_normalized_idempotent(value as int, lower as int, rotation as int);
    }
    lower + reduce_difference(value, lower, rotation)
}

/// Reduces `value` into `(upper - rotation, upper]`. A value of the interval comes back as
/// it is.
///
/// The result has to be an `i128`: either the value lies in the interval already, or the
/// whole interval lies within the integers of that type.
pub fn normalize_upper_inclusive(value: i128, upper: i128, rotation: i128) -> (normalized: i128)
    requires
        rotation > 0,
        upper - rotation < value <= upper || i128::MIN <= upper - rotation + 1,
    ensures
        normalized == upper_inclusive(value as int, upper as int, rotation as int),
        upper - rotation < normalized <= upper,
        upper - rotation < value <= upper ==> normalized == value,
{
    proof {
        lemma_normalized_idempotent(value as int, upper as int, rotation as int);
    }
    upper - reduce_difference(upper, value, rotation)
}

/// The value of the rotation class of `value` that lies in the canonical interval of
/// `range`: `[0, rotation)`, or `(rotation / 2 - rotation, rotation / 2]`.
pub open spec fn canonical(value: int, rotation: int, range: AngleRange) -> int
    recommends
        rotation > 0,
{
    match range {
        AngleRange::NonNegative => lower_inclusive(value, 0, rotation),
        AngleRange::Symmetric => upper_inclusive(value, rotation / 2, rotation),
    }
}

/// Whether `value` lies in the canonical interval of `range`.
pub open spec fn in_interval(value: int, rotation: int, range: AngleRange) -> bool {
    match range {
        AngleRange::NonNegative => 0 <= value < rotation,
        AngleRange::Symmetric => rotation / 2 - rotation < value <= rotation / 2,
    }
}

/// Whether `value` lies in the canonical interval of `range` or on its open edge.
pub open spec fn in_closed_interval(value: int, rotation: int, range: AngleRange) -> bool {
    match range {
        AngleRange::NonNegative => 0 <= value <= rotation,
        AngleRange::Symmetric => rotation / 2 - rotation <= value <= rotation / 2,
    }
}

/// The number of the rotation class of `parts` that lies in the canonical interval of
/// `range`, where one rotation has `rotation` parts. It is written with as many fractional
/// digits as `parts`.
pub open spec fn canonical_parts(parts: DecimalSpec, rotation: int, range: AngleRange) -> DecimalSpec
    recommends
        rotation > 0,
{
    DecimalSpec {
        mantissa: canonical(parts.mantissa, rotation * pow10(parts.scale), range),
        scale: parts.scale,
    }
}

/// Reduces a decimal number of parts into the canonical interval of `range`, where one
/// rotation has `rotation` parts.
pub fn normalize_parts(parts: DecimalValue, rotation: u32, range: AngleRange) -> (normalized:
    DecimalValue)
    requires
        parts@.is_representable(),
        rotation > 0,
    ensures
        normalized@ == canonical_parts(parts@, rotation as int, range),
        in_interval(normalized@.mantissa, rotation * pow10(parts@.scale), range),
        in_interval(parts@.mantissa, rotation * pow10(parts@.scale), range) ==> normalized
            == parts,
{
    let one = power_of_ten(parts.scale);
    assert(rotation * one <= 4_294_967_295 * 10_000_000_000_000_000_000_000_000_000)
        by (nonlinear_arith)
        requires
            0 < rotation <= 4_294_967_295,
            1 <= one <= 10_000_000_000_000_000_000_000_000_000,
    ;
    assert(rotation * one >= 1) by (nonlinear_arith)
        requires
            0 < rotation,
            1 <= one,
    ;
    let scaled: i128 = (rotation as i128) * one;
    let mantissa = match range {
        AngleRange::NonNegative => normalize_lower_inclusive(parts.mantissa, 0, scaled),
        AngleRange::Symmetric => normalize_upper_inclusive(parts.mantissa, scaled / 2, scaled),
    };
    DecimalValue { mantissa, scale: parts.scale }
}

/// A normalized value lies in its interval and differs from the value it was reduced from
/// by a whole number of rotations.
pub proof fn lemma_normalized_in_class(value: int, anchor: int, rotation: int)
    requires
        rotation > 0,
    ensures
        anchor <= lower_inclusive(value, anchor, rotation) < anchor + rotation,
        lower_inclusive(value, anchor, rotation) == value - ((value - anchor) / rotation)
            * rotation,
        anchor - rotation < upper_inclusive(value, anchor, rotation) <= anchor,
        upper_inclusive(value, anchor, rotation) == value + ((anchor - value) / rotation)
            * rotation,
{
    lemma_mod_bound(value - anchor, rotation);
    lemma_mod_bound(anchor - value, rotation);
    lemma_fundamental_div_mod(value - anchor, rotation);
    lemma_fundamental_div_mod(anchor - value, rotation);
    assert(rotation * ((value - anchor) / rotation) == ((value - anchor) / rotation) * rotation)
        by (nonlinear_arith);
    assert(rotation * ((anchor - value) / rotation) == ((anchor - value) / rotation) * rotation)
        by (nonlinear_arith);
}

/// Whatever lies in the interval and in the rotation class of `value` is the normalized
/// value: the interval holds one value of each class.
pub proof fn lemma_normalized_unique(value: int, anchor: int, rotation: int, turns: int)
    requires
        rotation > 0,
    ensures
        anchor <= value + turns * rotation < anchor + rotation ==> lower_inclusive(
            value,
            anchor,
            rotation,
        ) == value + turns * rotation,
        anchor - rotation < value + turns * rotation <= anchor ==> upper_inclusive(
            value,
            anchor,
            rotation,
        ) == value + turns * rotation,
{
    let moved = value + turns * rotation;
    if anchor <= moved < anchor + rotation {
        assert(value - anchor == (-turns) * rotation + (moved - anchor)) by (nonlinear_arith)
            requires
                moved == value + turns * rotation,
        ;
        lemma_fundamental_div_mod_converse(value - anchor, rotation, -turns, moved - anchor);
    }
    if anchor - rotation < moved <= anchor {
        assert(anchor - value == turns * rotation + (anchor - moved)) by (nonlinear_arith)
            requires
                moved == value + turns * rotation,
        ;
        lemma_fundamental_div_mod_converse(anchor - value, rotation, turns, anchor - moved);
    }
}

/// Normalizing leaves a value of the interval unchanged, so normalizing twice is
/// normalizing once.
pub proof fn lemma_normalized_idempotent(value: int, anchor: int, rotation: int)
    requires
        rotation > 0,
    ensures
        anchor <= value < anchor + rotation ==> lower_inclusive(value, anchor, rotation) == value,
        anchor - rotation < value <= anchor ==> upper_inclusive(value, anchor, rotation) == value,
        lower_inclusive(lower_inclusive(value, anchor, rotation), anchor, rotation)
            == lower_inclusive(value, anchor, rotation),
        upper_inclusive(upper_inclusive(value, anchor, rotation), anchor, rotation)
            == upper_inclusive(value, anchor, rotation),
{
    lemma_normalized_unique(value, anchor, rotation, 0);
    lemma_normalized_in_class(value, anchor, rotation);
    lemma_normalized_unique(lower_inclusive(value, anchor, rotation), anchor, rotation, 0);
    lemma_normalized_unique(upper_inclusive(value, anchor, rotation), anchor, rotation, 0);
}

/// Adding whole rotations to a value does not change what it normalizes to.
pub proof fn lemma_normalized_rotation_invariant(
    value: int,
    turns: int,
    anchor: int,
    rotation: int,
)
    requires
        rotation > 0,
    ensures
        lower_inclusive(value + turns * rotation, anchor, rotation) == lower_inclusive(
            value,
            anchor,
            rotation,
        ),
        upper_inclusive(value + turns * rotation, anchor, rotation) == upper_inclusive(
            value,
            anchor,
            rotation,
        ),
{
    lemma_mod_multiples_vanish(turns, value - anchor, rotation);
    assert(rotation * turns + (value - anchor) == value + turns * rotation - anchor)
        by (nonlinear_arith);
    lemma_mod_multiples_vanish(-turns, anchor - value, rotation);
    assert(rotation * (-turns) + (anchor - value) == anchor - (value + turns * rotation))
        by (nonlinear_arith);
}

/// The canonical value of the non-negative range lies in `[0, rotation)`, that of the
/// symmetric range in `(rotation / 2 - rotation, rotation / 2]`: for an even rotation,
/// above minus half a rotation and up to half a rotation.
pub proof fn lemma_canonical_in_interval(value: int, rotation: int, range: AngleRange)
    requires
        rotation > 0,
    ensures
        in_interval(canonical(value, rotation, range), rotation, range),
        range is NonNegative ==> 0 <= canonical(value, rotation, range) < rotation,
        range is Symmetric ==> rotation / 2 - rotation < canonical(value, rotation, range)
            <= rotation / 2,
        range is Symmetric && rotation % 2 == 0 ==> -(rotation / 2) < canonical(
            value,
            rotation,
            range,
        ),
{
    lemma_normalized_in_class(value, 0, rotation);
    lemma_normalized_in_class(value, rotation / 2, rotation);
}

/// A value of the canonical interval is its own canonical value, so the canonical value
/// of a canonical value is that value again.
pub proof fn lemma_canonical_idempotent(value: int, rotation: int, range: AngleRange)
    requires
        rotation > 0,
    ensures
        in_interval(value, rotation, range) ==> canonical(value, rotation, range) == value,
        canonical(canonical(value, rotation, range), rotation, range) == canonical(
            value,
            rotation,
            range,
        ),
{
    lemma_normalized_idempotent(value, 0, rotation);
    lemma_normalized_idempotent(value, rotation / 2, rotation);
}

/// Angles that differ by whole rotations have the same canonical value.
pub proof fn lemma_canonical_rotation_invariant(
    value: int,
    turns: int,
    rotation: int,
    range: AngleRange,
)
    requires
        rotation > 0,
    ensures
        canonical(value + turns * rotation, rotation, range) == canonical(value, rotation, range),
{
    lemma_normalized_rotation_invariant(value, turns, 0, rotation);
    lemma_normalized_rotation_invariant(value, turns, rotation / 2, rotation);
}

/// A value that lies in the canonical interval or on its open edge stays where it is, or
/// moves from the open edge to the inclusive one. Its magnitude does not grow.
pub proof fn lemma_canonical_of_closed_interval(value: int, rotation: int, range: AngleRange)
    requires
        rotation > 0,
        in_closed_interval(value, rotation, range),
    ensures
        in_interval(canonical(value, rotation, range), rotation, range),
        range is NonNegative ==> canonical(value, rotation, range) == (if value == rotation {
            0
        } else {
            value
        }),
        range is Symmetric ==> canonical(value, rotation, range) == (if value == rotation / 2
            - rotation {
            rotation / 2
        } else {
            value
        }),
        value >= 0 ==> 0 <= canonical(value, rotation, range) <= value,
        value < 0 ==> value <= canonical(value, rotation, range) <= -value,
{
    lemma_normalized_unique(value, 0, rotation, 0);
    lemma_normalized_unique(value, 0, rotation, -1);
    lemma_normalized_unique(value, rotation / 2, rotation, 0);
    lemma_normalized_unique(value, rotation / 2, rotation, 1);
}

} // verus!
